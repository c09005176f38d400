//! A reader over bytes in memory, and the typed values of the format.
//!
//! Every decoder is stated as a function of the bytes ahead of the reader:
//! it gives the value and the number of bytes that the value takes, or the
//! error. A reader that fails stays where it was.

use crate::endian::{le_i32, le_u16, le_u32, read_i32_le, read_u16_le, read_u32_le};
use crate::error::Bcf2Error;
use vstd::prelude::*;
use vstd::slice::slice_subrange;

verus! {

/// A stretch of a buffer: the bytes from `start` up to, not including,
/// `end`.
#[derive(Clone, Copy, Debug, PartialEq, Eq, Structural)]
pub struct ByteRange {
    pub start: usize,
    pub end: usize,
}

impl ByteRange {
    /// The number of bytes in the range.
    pub open spec fn size(&self) -> int {
        self.end - self.start
    }

    /// Whether the range lies in a buffer of `len` bytes.
    pub open spec fn fits(&self, len: nat) -> bool {
        self.start <= self.end <= len
    }
}

/// A reader over a slice of bytes, with its position.
#[derive(Debug)]
pub struct ByteReader<'a> {
    data: &'a [u8],
    pos: usize,
}

/// The reader has moved by `used` bytes over the same bytes.
pub open spec fn advanced(before: ByteReader, after: ByteReader, used: nat) -> bool {
    &&& after.bytes() == before.bytes()
    &&& after.at() == before.at() + used
    &&& after.at() <= after.bytes().len()
}

/// What a decoder does to a reader: `r` is the outcome without the count,
/// and the reader has moved by the count, or not at all where the decoder
/// failed.
pub open spec fn stepped<T>(
    before: ByteReader,
    after: ByteReader,
    outcome: Result<(T, nat), Bcf2Error>,
    r: Result<T, Bcf2Error>,
) -> bool {
    match outcome {
        Ok((v, used)) => r == Ok::<T, Bcf2Error>(v) && advanced(before, after, used),
        Err(e) => r == Err::<T, Bcf2Error>(e) && advanced(before, after, 0),
    }
}

/// One byte.
pub open spec fn u8_ahead(s: Seq<u8>) -> Result<(u8, nat), Bcf2Error> {
    if s.len() >= 1 {
        Ok((s[0], 1))
    } else {
        Err(Bcf2Error::Stream)
    }
}

/// An unsigned integer of two bytes.
pub open spec fn u16_ahead(s: Seq<u8>) -> Result<(u16, nat), Bcf2Error> {
    if s.len() >= 2 {
        Ok((le_u16(s), 2))
    } else {
        Err(Bcf2Error::Stream)
    }
}

/// An unsigned integer of four bytes.
pub open spec fn u32_ahead(s: Seq<u8>) -> Result<(u32, nat), Bcf2Error> {
    if s.len() >= 4 {
        Ok((le_u32(s), 4))
    } else {
        Err(Bcf2Error::Stream)
    }
}

/// A signed integer of four bytes.
pub open spec fn i32_ahead(s: Seq<u8>) -> Result<(i32, nat), Bcf2Error> {
    if s.len() >= 4 {
        Ok((le_i32(s), 4))
    } else {
        Err(Bcf2Error::Stream)
    }
}

/// The `n` bytes ahead of the position `at`, as a range.
pub open spec fn range_ahead(s: Seq<u8>, at: nat, n: usize) -> Result<(ByteRange, nat), Bcf2Error> {
    if n <= s.len() {
        Ok((ByteRange { start: at as usize, end: (at + n) as usize }, n as nat))
    } else {
        Err(Bcf2Error::Stream)
    }
}

impl<'a> ByteReader<'a> {
    #[verifier::type_invariant]
    spec fn in_bounds(&self) -> bool {
        self.pos <= self.data@.len()
    }

    /// All the bytes, read or not.
    pub closed spec fn bytes(&self) -> Seq<u8> {
        self.data@
    }

    /// How many of the bytes have been read.
    pub closed spec fn at(&self) -> nat {
        self.pos as nat
    }

    /// The bytes that have not been read.
    pub open spec fn rest(&self) -> Seq<u8> {
        self.bytes().skip(self.at() as int)
    }

    /// A reader at the start of `data`.
    pub fn new(data: &'a [u8]) -> (r: Self)
        ensures
            r.bytes() == data@,
            r.at() == 0,
    {
        ByteReader { data, pos: 0 }
    }

    /// How many bytes have been read.
    pub fn position(&self) -> (p: usize)
        ensures
            p == self.at(),
            p <= self.bytes().len(),
    {
        proof {
            use_type_invariant(self);
        }
        self.pos
    }

    /// How many bytes are left to read.
    pub fn remaining(&self) -> (n: usize)
        ensures
            n == self.bytes().len() - self.at(),
            n == self.rest().len(),
    {
        proof {
            use_type_invariant(self);
        }
        self.data.len() - self.pos
    }

    /// Moves the reader to the position `to`.
    pub fn seek(&mut self, to: usize)
        requires
            to <= old(self).bytes().len(),
        ensures
            final(self).bytes() == old(self).bytes(),
            final(self).at() == to,
    {
        self.pos = to;
    }

    /// Reads one byte.
    pub fn read_u8(&mut self) -> (r: Result<u8, Bcf2Error>)
        ensures
            stepped(*old(self), *final(self), u8_ahead(old(self).rest()), r),
    {
        proof {
            use_type_invariant(&*self);
        }
        if self.data.len() - self.pos < 1 {
            return Err(Bcf2Error::Stream);
        }
        let v = self.data[self.pos];
        self.pos = self.pos + 1;
        Ok(v)
    }

    /// Reads an unsigned integer of two bytes.
    pub fn read_u16(&mut self) -> (r: Result<u16, Bcf2Error>)
        ensures
            stepped(*old(self), *final(self), u16_ahead(old(self).rest()), r),
    {
        proof {
            use_type_invariant(&*self);
        }
        if self.data.len() - self.pos < 2 {
            return Err(Bcf2Error::Stream);
        }
        let v = read_u16_le(slice_subrange(self.data, self.pos, self.pos + 2));
        self.pos = self.pos + 2;
        Ok(v)
    }

    /// Reads an unsigned integer of four bytes.
    pub fn read_u32(&mut self) -> (r: Result<u32, Bcf2Error>)
        ensures
            stepped(*old(self), *final(self), u32_ahead(old(self).rest()), r),
    {
        proof {
            use_type_invariant(&*self);
        }
        if self.data.len() - self.pos < 4 {
            return Err(Bcf2Error::Stream);
        }
        let v = read_u32_le(slice_subrange(self.data, self.pos, self.pos + 4));
        self.pos = self.pos + 4;
        Ok(v)
    }

    /// Reads a signed integer of four bytes.
    pub fn read_i32(&mut self) -> (r: Result<i32, Bcf2Error>)
        ensures
            stepped(*old(self), *final(self), i32_ahead(old(self).rest()), r),
    {
        proof {
            use_type_invariant(&*self);
        }
        if self.data.len() - self.pos < 4 {
            return Err(Bcf2Error::Stream);
        }
        let v = read_i32_le(slice_subrange(self.data, self.pos, self.pos + 4));
        self.pos = self.pos + 4;
        Ok(v)
    }

    /// Passes over `n` bytes and says where they lie.
    pub fn skip(&mut self, n: usize) -> (r: Result<ByteRange, Bcf2Error>)
        ensures
            stepped(*old(self), *final(self), range_ahead(old(self).rest(), old(self).at(), n), r),
    {
        proof {
            use_type_invariant(&*self);
        }
        if self.data.len() - self.pos < n {
            return Err(Bcf2Error::Stream);
        }
        let start = self.pos;
        self.pos = self.pos + n;
        Ok(ByteRange { start, end: start + n })
    }

    /// Reads `n` bytes.
    pub fn read_bytes(&mut self, n: usize) -> (r: Result<&'a [u8], Bcf2Error>)
        ensures
            match r {
                Ok(b) => n <= old(self).rest().len() && b@ == old(self).rest().take(n as int)
                    && advanced(*old(self), *final(self), n as nat),
                Err(e) => n > old(self).rest().len() && e == Bcf2Error::Stream && advanced(
                    *old(self),
                    *final(self),
                    0,
                ),
            },
    {
        proof {
            use_type_invariant(&*self);
        }
        if self.data.len() - self.pos < n {
            return Err(Bcf2Error::Stream);
        }
        let b = slice_subrange(self.data, self.pos, self.pos + n);
        assert(b@ == self.data@.skip(self.pos as int).take(n as int));
        self.pos = self.pos + n;
        Ok(b)
    }
}

} // verus!
