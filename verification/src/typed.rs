//! The typed values of the format: descriptors, single integers, strings,
//! and the preamble in front of the header text.

use crate::endian::le_u32;
use crate::error::Bcf2Error;
use crate::reader::{advanced, stepped, u16_ahead, u32_ahead, u8_ahead, ByteReader};
use vstd::prelude::*;
use vstd::utf8::{decode_utf8, valid_utf8};

verus! {

/// The width in bytes of one element of the type `typ`, for the types that
/// the format defines: 0 stands for no value, 1 to 3 for integers of one,
/// two and four bytes, 5 for a float and 7 for a character.
pub open spec fn type_width(typ: u8) -> Option<nat> {
    if typ == 0 {
        Some(0)
    } else if typ == 1 || typ == 7 {
        Some(1)
    } else if typ == 2 {
        Some(2)
    } else if typ == 3 || typ == 5 {
        Some(4)
    } else {
        None
    }
}

/// The width in bytes of one element of the type `typ`; a format error for
/// a type that the format does not define.
pub fn bcf2_typ_width(typ: u8) -> (r: Result<usize, Bcf2Error>)
    ensures
        match type_width(typ) {
            Some(w) => r == Ok::<usize, Bcf2Error>(w as usize),
            None => r == Err::<usize, Bcf2Error>(Bcf2Error::Format),
        },
{
    match typ {
        0x0 => Ok(0),
        0x1 => Ok(1),
        0x2 => Ok(2),
        0x3 => Ok(4),
        0x5 => Ok(4),
        0x7 => Ok(1),
        _ => Err(Bcf2Error::Format),
    }
}

/// The byte that describes `count` elements of the type `typ`: the type in
/// the low four bits, the count in the high four.
pub open spec fn descriptor_byte(typ: u8, count: u8) -> u8
    recommends
        typ < 16,
        count < 16,
{
    (count << 4) | typ
}

/// A descriptor: the type and the count of the value that follows.
///
/// The low four bits of the first byte are the type, the high four the
/// count, unless these are 15: then the count is the single typed integer
/// that comes next.
pub open spec fn descriptor_ahead(s: Seq<u8>) -> Result<((u8, usize), nat), Bcf2Error>
    decreases s.len(), 0nat,
{
    if s.len() == 0 {
        Err(Bcf2Error::Stream)
    } else if s[0] >> 4 != 15 {
        Ok(((s[0] & 0xf, (s[0] >> 4) as usize), 1))
    } else {
        match integer_ahead(s.skip(1)) {
            Ok((v, used)) => Ok(((s[0] & 0xf, v as usize), 1 + used)),
            Err(e) => Err(e),
        }
    }
}

/// A single typed integer: a descriptor with the count 1 and an integer
/// type, then the integer in the width of that type.
pub open spec fn integer_ahead(s: Seq<u8>) -> Result<(u32, nat), Bcf2Error>
    decreases s.len(), 1nat,
{
    match descriptor_ahead(s) {
        Err(e) => Err(e),
        Ok(((typ, n), used)) => {
            let body = s.skip(used as int);
            if n != 1 {
                Err(Bcf2Error::Invariant)
            } else if typ == 1 {
                match u8_ahead(body) {
                    Ok((v, k)) => Ok((v as u32, used + k)),
                    Err(e) => Err(e),
                }
            } else if typ == 2 {
                match u16_ahead(body) {
                    Ok((v, k)) => Ok((v as u32, used + k)),
                    Err(e) => Err(e),
                }
            } else if typ == 3 {
                match u32_ahead(body) {
                    Ok((v, k)) => Ok((v, used + k)),
                    Err(e) => Err(e),
                }
            } else {
                Err(Bcf2Error::Invariant)
            }
        },
    }
}

/// A typed string: a descriptor of characters, then as many bytes as it
/// counts.
pub open spec fn string_ahead(s: Seq<u8>) -> Result<(Seq<u8>, nat), Bcf2Error> {
    match descriptor_ahead(s) {
        Err(e) => Err(e),
        Ok(((typ, n), used)) => {
            if typ != 7 {
                Err(Bcf2Error::Format)
            } else if n > s.len() - used {
                Err(Bcf2Error::Stream)
            } else {
                Ok((s.subrange(used as int, used + n), used + n as nat))
            }
        },
    }
}

/// The preamble of a stream: the magic `BCF`, the version 2.2, and the
/// length of the header text.
pub open spec fn preamble_ahead(s: Seq<u8>) -> Result<(usize, nat), Bcf2Error> {
    if s.len() < 3 {
        Err(Bcf2Error::Stream)
    } else if !(s[0] == 0x42 && s[1] == 0x43 && s[2] == 0x46) {
        Err(Bcf2Error::Format)
    } else if s.len() < 5 {
        Err(Bcf2Error::Stream)
    } else if !(s[3] == 2 && s[4] == 2) {
        Err(Bcf2Error::Format)
    } else if s.len() < 9 {
        Err(Bcf2Error::Stream)
    } else {
        Ok((le_u32(s.skip(5)) as usize, 9))
    }
}

/// The header text of a stream: the preamble, then the text in UTF-8, as
/// long as the preamble says.
pub open spec fn header_text_ahead(s: Seq<u8>) -> Result<(Seq<char>, nat), Bcf2Error> {
    match preamble_ahead(s) {
        Err(e) => Err(e),
        Ok((n, used)) => {
            let text = s.subrange(used as int, used + n);
            if n > s.len() - used {
                Err(Bcf2Error::Stream)
            } else if !valid_utf8(text) {
                Err(Bcf2Error::Format)
            } else {
                Ok((decode_utf8(text), used + n as nat))
            }
        },
    }
}

/// A descriptor byte with a count below 15 reads back as the type and the
/// count that it was made of, whatever follows it.
pub proof fn lemma_descriptor_round_trip(typ: u8, count: u8, rest: Seq<u8>)
    requires
        typ == 1 || typ == 2 || typ == 3 || typ == 5 || typ == 7,
        count <= 14,
    ensures
        descriptor_ahead(seq![descriptor_byte(typ, count)] + rest) == Ok::<
            ((u8, usize), nat),
            Bcf2Error,
        >(((typ, count as usize), 1)),
{
    let b = descriptor_byte(typ, count);
    assert(b >> 4 == count && b & 0xf == typ) by (bit_vector)
        requires
            typ < 16,
            count <= 14,
            b == (count << 4) | typ,
    ;
    assert((seq![b] + rest)[0] == b);
}

/// A descriptor byte with the count 15 hands the count over to the single
/// typed integer behind it.
pub proof fn lemma_descriptor_long_count(typ: u8, rest: Seq<u8>)
    requires
        typ == 1 || typ == 2 || typ == 3 || typ == 5 || typ == 7,
    ensures
        descriptor_ahead(seq![descriptor_byte(typ, 15)] + rest) == match integer_ahead(rest) {
            Ok((v, used)) => Ok::<((u8, usize), nat), Bcf2Error>(((typ, v as usize), 1 + used)),
            Err(e) => Err::<((u8, usize), nat), Bcf2Error>(e),
        },
{
    let b = descriptor_byte(typ, 15);
    assert(b >> 4 == 15 && b & 0xf == typ) by (bit_vector)
        requires
            typ < 16,
            b == (15u8 << 4) | typ,
    ;
    assert((seq![b] + rest)[0] == b);
    assert((seq![b] + rest).skip(1) == rest);
}

/// A descriptor takes no more bytes than there are.
pub proof fn lemma_descriptor_within(s: Seq<u8>)
    requires
        descriptor_ahead(s) is Ok,
    ensures
        1 <= descriptor_ahead(s)->Ok_0.1 <= s.len(),
    decreases s.len(), 0nat,
{
    if s.len() > 0 && s[0] >> 4 == 15 {
        lemma_integer_within(s.skip(1));
    }
}

/// A single typed integer takes no more bytes than there are.
pub proof fn lemma_integer_within(s: Seq<u8>)
    requires
        integer_ahead(s) is Ok,
    ensures
        2 <= integer_ahead(s)->Ok_0.1 <= s.len(),
    decreases s.len(), 1nat,
{
    lemma_descriptor_within(s);
}

/// Reads a descriptor: the type and the count of the value that follows.
pub fn read_typed_descriptor_bytes(reader: &mut ByteReader) -> (r: Result<(u8, usize), Bcf2Error>)
    ensures
        stepped(*old(reader), *final(reader), descriptor_ahead(old(reader).rest()), r),
    decreases old(reader).rest().len(), 0nat,
{
    let start = reader.position();
    let tdb = match reader.read_u8() {
        Ok(b) => b,
        Err(e) => {
            return Err(e);
        },
    };
    let typ = tdb & 0xf;
    let n = tdb >> 4;
    if n != 15 {
        return Ok((typ, n as usize));
    }
    assert(reader.rest() == old(reader).rest().skip(1));
    match read_single_typed_integer(reader) {
        Ok(v) => Ok((typ, v as usize)),
        Err(e) => {
            reader.seek(start);
            Err(e)
        },
    }
}

/// Reads a single typed integer, widened to 32 bits.
///
/// Fails with an invariant violation where the descriptor counts other than
/// one element or names a type that is no integer.
pub fn read_single_typed_integer(reader: &mut ByteReader) -> (r: Result<u32, Bcf2Error>)
    ensures
        stepped(*old(reader), *final(reader), integer_ahead(old(reader).rest()), r),
    decreases old(reader).rest().len(), 1nat,
{
    let start = reader.position();
    let (typ, n) = match read_typed_descriptor_bytes(reader) {
        Ok(d) => d,
        Err(e) => {
            return Err(e);
        },
    };
    assert(reader.rest() == old(reader).rest().skip(reader.at() - old(reader).at()));
    let r = if n != 1 {
        Err(Bcf2Error::Invariant)
    } else if typ == 1 {
        match reader.read_u8() {
            Ok(v) => Ok(v as u32),
            Err(e) => Err(e),
        }
    } else if typ == 2 {
        match reader.read_u16() {
            Ok(v) => Ok(v as u32),
            Err(e) => Err(e),
        }
    } else if typ == 3 {
        reader.read_u32()
    } else {
        Err(Bcf2Error::Invariant)
    };
    if r.is_err() {
        reader.seek(start);
    }
    r
}

/// Reads a typed string and appends its bytes to `buffer`. The result is
/// the length of the string; 0 means that the string is missing.
pub fn read_typed_string(reader: &mut ByteReader, buffer: &mut Vec<u8>) -> (r: Result<
    usize,
    Bcf2Error,
>)
    ensures
        match string_ahead(old(reader).rest()) {
            Ok((text, used)) => {
                &&& r == Ok::<usize, Bcf2Error>(text.len() as usize)
                &&& final(buffer)@ == old(buffer)@ + text
                &&& advanced(*old(reader), *final(reader), used)
            },
            Err(e) => {
                &&& r == Err::<usize, Bcf2Error>(e)
                &&& final(buffer)@ == old(buffer)@
                &&& advanced(*old(reader), *final(reader), 0)
            },
        },
{
    let start = reader.position();
    let (typ, n) = match read_typed_descriptor_bytes(reader) {
        Ok(d) => d,
        Err(e) => {
            return Err(e);
        },
    };
    assert(reader.rest() == old(reader).rest().skip(reader.at() - old(reader).at()));
    if typ != 7 {
        reader.seek(start);
        return Err(Bcf2Error::Format);
    }
    match reader.read_bytes(n) {
        Ok(bytes) => {
            buffer.extend_from_slice(bytes);
            Ok(n)
        },
        Err(e) => {
            reader.seek(start);
            Err(e)
        },
    }
}

/// `String::from_utf8`: the string that `bytes` encode, where they are
/// UTF-8, and nothing where they are not.
#[verifier::external_body]
fn utf8_text(bytes: Vec<u8>) -> (r: Option<String>)
    ensures
        match r {
            Some(s) => valid_utf8(bytes@) && s@ == decode_utf8(bytes@),
            None => !valid_utf8(bytes@),
        },
{
    String::from_utf8(bytes).ok()
}

/// Reads the preamble of a stream: the magic, the version, and the length
/// of the header text, which is the result.
///
/// Fails with a format error on another magic than `BCF` or another version
/// than 2.2, and with a stream error where the bytes end early.
pub fn read_preamble(reader: &mut ByteReader) -> (r: Result<usize, Bcf2Error>)
    ensures
        stepped(*old(reader), *final(reader), preamble_ahead(old(reader).rest()), r),
{
    let start = reader.position();
    let ghost ahead = reader.rest();
    let magic = match reader.read_bytes(3) {
        Ok(b) => b,
        Err(e) => {
            return Err(e);
        },
    };
    if !(magic[0] == 0x42 && magic[1] == 0x43 && magic[2] == 0x46) {
        reader.seek(start);
        return Err(Bcf2Error::Format);
    }
    // major and minor version
    let version = match reader.read_bytes(2) {
        Ok(b) => b,
        Err(e) => {
            reader.seek(start);
            return Err(e);
        },
    };
    assert(version@ == ahead.skip(3).take(2));
    if !(version[0] == 2 && version[1] == 2) {
        reader.seek(start);
        return Err(Bcf2Error::Format);
    }
    assert(reader.rest() == ahead.skip(5));
    // text length
    match reader.read_u32() {
        Ok(v) => Ok(v as usize),
        Err(e) => {
            reader.seek(start);
            Err(e)
        },
    }
}

/// Reads the preamble of a stream and the header text behind it.
///
/// Fails with a format error on another magic than `BCF`, another version
/// than 2.2, or a text that is not UTF-8, and with a stream error where the
/// bytes end early.
pub fn read_header(reader: &mut ByteReader) -> (r: Result<String, Bcf2Error>)
    ensures
        match header_text_ahead(old(reader).rest()) {
            Ok((text, used)) => r is Ok && r->Ok_0@ == text && advanced(
                *old(reader),
                *final(reader),
                used,
            ),
            Err(e) => r == Err::<String, Bcf2Error>(e) && advanced(*old(reader), *final(reader), 0),
        },
{
    let start = reader.position();
    let ghost ahead = reader.rest();
    let length = match read_preamble(reader) {
        Ok(n) => n,
        Err(e) => {
            return Err(e);
        },
    };
    assert(reader.rest() == ahead.skip(9));
    let bytes = match reader.read_bytes(length) {
        Ok(b) => b,
        Err(e) => {
            reader.seek(start);
            return Err(e);
        },
    };
    assert(bytes@ == ahead.subrange(9, 9 + length));
    let mut text: Vec<u8> = Vec::new();
    text.extend_from_slice(bytes);
    assert(text@ == bytes@);
    match utf8_text(text) {
        Some(s) => Ok(s),
        None => {
            reader.seek(start);
            Err(Bcf2Error::Format)
        },
    }
}

} // verus!
