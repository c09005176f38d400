//! Little-endian integers, as the format stores them.

use byteorder::{ByteOrder, LittleEndian};
use vstd::prelude::*;

verus! {

/// The unsigned integer that the first two bytes of `s` spell, lowest byte
/// first.
pub open spec fn le_u16(s: Seq<u8>) -> u16
    recommends
        s.len() >= 2,
{
    (s[0] + 0x100 * s[1]) as u16
}

/// The unsigned integer that the first four bytes of `s` spell, lowest byte
/// first.
pub open spec fn le_u32(s: Seq<u8>) -> u32
    recommends
        s.len() >= 4,
{
    (s[0] + 0x100 * s[1] + 0x1_0000 * s[2] + 0x100_0000 * s[3]) as u32
}

/// The signed integer that the first four bytes of `s` spell in two's
/// complement, lowest byte first.
pub open spec fn le_i32(s: Seq<u8>) -> i32
    recommends
        s.len() >= 4,
{
    if le_u32(s) >= 0x8000_0000 {
        (le_u32(s) - 0x1_0000_0000) as i32
    } else {
        le_u32(s) as i32
    }
}

/// `byteorder`'s `LittleEndian::read_u16`: the value of the first two bytes
/// of `buf`, which it needs to be there.
#[verifier::external_body]
pub(crate) fn read_u16_le(buf: &[u8]) -> (v: u16)
    requires
        buf.len() >= 2,
    ensures
        v == le_u16(buf@),
{
    LittleEndian::read_u16(buf)
}

/// `byteorder`'s `LittleEndian::read_u32`: the value of the first four bytes
/// of `buf`, which it needs to be there.
#[verifier::external_body]
pub(crate) fn read_u32_le(buf: &[u8]) -> (v: u32)
    requires
        buf.len() >= 4,
    ensures
        v == le_u32(buf@),
{
    LittleEndian::read_u32(buf)
}

/// `byteorder`'s `LittleEndian::read_i32`: the first four bytes of `buf`,
/// which it needs to be there, read as an unsigned integer and taken as
/// two's complement.
#[verifier::external_body]
pub(crate) fn read_i32_le(buf: &[u8]) -> (v: i32)
    requires
        buf.len() >= 4,
    ensures
        v == le_i32(buf@),
{
    LittleEndian::read_i32(buf)
}

} // verus!
