//! A typed array of numbers, decoded one element at a time.

use crate::endian::{le_u16, le_u32, read_u16_le, read_u32_le};
use crate::error::Bcf2Error;
use crate::number::{F32Bits, NumbericValue};
use vstd::prelude::*;
use vstd::slice::slice_subrange;

verus! {

/// The width in bytes of one number of the type `typ`: 1, 2 or 4 for the
/// integers, 4 for a float, and 0 for the type that holds nothing. The
/// other types hold no numbers.
pub open spec fn number_width(typ: u8) -> Option<nat> {
    if typ == 0 {
        Some(0)
    } else if typ == 1 {
        Some(1)
    } else if typ == 2 {
        Some(2)
    } else if typ == 3 || typ == 5 {
        Some(4)
    } else {
        None
    }
}

/// The `i`-th number of the type `typ` in `s`.
pub open spec fn number_at(typ: u8, s: Seq<u8>, i: int) -> NumbericValue {
    if typ == 1 {
        NumbericValue::U8(s[i])
    } else if typ == 2 {
        NumbericValue::U16(le_u16(s.skip(2 * i)))
    } else if typ == 3 {
        NumbericValue::U32(le_u32(s.skip(4 * i)))
    } else {
        NumbericValue::F32(F32Bits(le_u32(s.skip(4 * i))))
    }
}

/// The `n` numbers of the type `typ` at the front of `s`; none at all for
/// the type 0.
pub open spec fn numbers(typ: u8, n: nat, s: Seq<u8>) -> Seq<NumbericValue> {
    if typ == 0 {
        Seq::empty()
    } else {
        Seq::new(n, |i: int| number_at(typ, s, i))
    }
}

/// The numbers that a sequence of `n` elements of the type `typ` over `s`
/// yields.
///
/// A sequence of no elements is empty whatever its type: nothing is
/// decoded, so the type is never looked at. Where there are elements, a
/// type that holds no numbers is a format error, and an `s` too short for
/// them a stream error.
pub open spec fn sequence_of(typ: u8, n: nat, s: Seq<u8>) -> Result<Seq<NumbericValue>, Bcf2Error> {
    if n == 0 {
        Ok(Seq::empty())
    } else if number_width(typ) is None {
        Err(Bcf2Error::Format)
    } else if (typ == 1 && n > s.len()) || (typ == 2 && 2 * n > s.len()) || ((typ == 3 || typ == 5)
        && 4 * n > s.len()) {
        Err(Bcf2Error::Stream)
    } else {
        Ok(numbers(typ, n, s))
    }
}

/// A sequence declared with `n` elements of a type that is not 0 holds
/// exactly `n` numbers, and one of the type 0 holds none.
pub proof fn lemma_sequence_len(typ: u8, n: nat, s: Seq<u8>)
    requires
        sequence_of(typ, n, s) is Ok,
    ensures
        sequence_of(typ, n, s)->Ok_0.len() == (if typ == 0 {
            0
        } else {
            n
        }),
{
}

/// The numbers of a sequence are those of its range: two sequences of one
/// type and count hold the same numbers wherever the bytes that they run
/// over are the same, whatever follows those bytes.
pub proof fn lemma_sequence_of_same_range(typ: u8, n: nat, s: Seq<u8>, t: Seq<u8>)
    requires
        sequence_of(typ, n, s) is Ok,
        sequence_of(typ, n, t) is Ok,
        s.take((number_width(typ)->0 * n) as int) == t.take((number_width(typ)->0 * n) as int),
    ensures
        sequence_of(typ, n, s) == sequence_of(typ, n, t),
{
    let w = number_width(typ)->0;
    if n != 0 && typ != 0 {
        assert(w * n == (if typ == 1 {
            n
        } else if typ == 2 {
            2 * n
        } else {
            4 * n
        })) by (nonlinear_arith)
            requires
                w == (if typ == 1 {
                    1nat
                } else if typ == 2 {
                    2nat
                } else {
                    4nat
                }),
        ;
        assert forall|i: int| 0 <= i < n implies number_at(typ, s, i) == number_at(typ, t, i) by {
            let a = s.take((w * n) as int);
            let b = t.take((w * n) as int);
            if typ == 1 {
                assert(s[i] == a[i] && t[i] == b[i]);
            } else if typ == 2 {
                assert(s.skip(2 * i)[0] == a[2 * i] && t.skip(2 * i)[0] == b[2 * i]);
                assert(s.skip(2 * i)[1] == a[2 * i + 1] && t.skip(2 * i)[1] == b[2 * i + 1]);
            } else {
                assert(s.skip(4 * i)[0] == a[4 * i] && t.skip(4 * i)[0] == b[4 * i]);
                assert(s.skip(4 * i)[1] == a[4 * i + 1] && t.skip(4 * i)[1] == b[4 * i + 1]);
                assert(s.skip(4 * i)[2] == a[4 * i + 2] && t.skip(4 * i)[2] == b[4 * i + 2]);
                assert(s.skip(4 * i)[3] == a[4 * i + 3] && t.skip(4 * i)[3] == b[4 * i + 3]);
            }
        }
        assert(numbers(typ, n, s) =~= numbers(typ, n, t));
    }
}

/// A forward-only sequence of numbers over a range of bytes. Each step
/// decodes one number; to go over the numbers again, build another sequence
/// over the same bytes.
#[derive(Debug)]
pub struct NumberIter<'r> {
    data: &'r [u8],
    typ: u8,
    len: usize,
    cur: usize,
}

impl<'r> View for NumberIter<'r> {
    type V = Seq<NumbericValue>;

    /// The numbers that are still to come.
    closed spec fn view(&self) -> Seq<NumbericValue> {
        numbers(self.typ, self.len as nat, self.data@).skip(self.cur as int)
    }
}

impl<'r> Default for NumberIter<'r> {
    /// A sequence without numbers.
    fn default() -> (it: Self)
        ensures
            it@ == Seq::<NumbericValue>::empty(),
    {
        let it = NumberIter { data: &[], typ: 0, len: 0, cur: 0 };
        assert(it@ == Seq::<NumbericValue>::empty());
        it
    }
}

impl<'r> NumberIter<'r> {
    #[verifier::type_invariant]
    spec fn well_formed(&self) -> bool {
        &&& self.cur <= self.len
        &&& self.typ == 0 ==> self.cur == 0 && self.len == 0
        &&& self.typ == 0 || self.typ == 1 || self.typ == 2 || self.typ == 3 || self.typ == 5
        &&& self.typ == 1 ==> self.len <= self.data@.len()
        &&& self.typ == 2 ==> 2 * self.len <= self.data@.len()
        &&& self.typ == 3 || self.typ == 5 ==> 4 * self.len <= self.data@.len()
    }

    /// How many numbers are still to come.
    pub fn remaining(&self) -> (n: usize)
        ensures
            n == self@.len(),
    {
        proof {
            use_type_invariant(self);
        }
        self.len - self.cur
    }

    /// The next number, or `None` when the sequence is at its end.
    pub fn next(&mut self) -> (r: Option<NumbericValue>)
        ensures
            old(self)@.len() > 0 ==> r == Some(old(self)@[0]) && final(self)@ == old(
                self,
            )@.drop_first(),
            old(self)@.len() == 0 ==> r is None && final(self)@ == old(self)@,
    {
        proof {
            use_type_invariant(&*self);
        }
        if self.cur >= self.len {
            return None;
        }
        let i = self.cur;
        let total = self.data.len();
        let ghost all = numbers(self.typ, self.len as nat, self.data@);
        assert(all.skip(i as int).drop_first() == all.skip(i + 1));
        let v = if self.typ == 1 {
            NumbericValue::U8(self.data[i])
        } else if self.typ == 2 {
            let b = slice_subrange(self.data, 2 * i, 2 * i + 2);
            NumbericValue::U16(read_u16_le(b))
        } else if self.typ == 3 {
            let b = slice_subrange(self.data, 4 * i, 4 * i + 4);
            NumbericValue::U32(read_u32_le(b))
        } else {
            let b = slice_subrange(self.data, 4 * i, 4 * i + 4);
            NumbericValue::F32(F32Bits(read_u32_le(b)))
        };
        self.cur = i + 1;
        Some(v)
    }

    /// The numbers that are still to come, all of them.
    pub fn collect(self) -> (v: Vec<NumbericValue>)
        ensures
            v@ == self@,
    {
        let mut it = self;
        let mut v: Vec<NumbericValue> = Vec::new();
        let ghost all = it@;
        assert(all == v@ + it@);
        loop
            invariant
                all == self@,
                all == v@ + it@,
            decreases it@.len(),
        {
            match it.next() {
                Some(x) => {
                    let ghost before = v@;
                    v.push(x);
                    assert(before + seq![x] + it@ == v@ + it@);
                },
                None => {
                    assert(v@ + it@ == v@);
                    return v;
                },
            }
        }
    }
}

/// A sequence of `n` numbers of the type `typ` over the front of `buffer`.
///
/// A sequence of no numbers can be had of every type. Where there are
/// numbers to come, this fails with a format error for a type that holds
/// none, and with a stream error where `buffer` is too short for `n` of
/// them.
pub fn iter_typed_integers<'r>(typ: u8, n: usize, buffer: &'r [u8]) -> (r: Result<
    NumberIter<'r>,
    Bcf2Error,
>)
    ensures
        match sequence_of(typ, n as nat, buffer@) {
            Ok(values) => r is Ok && r->Ok_0@ == values,
            Err(e) => r is Err && r->Err_0 == e,
        },
{
    if n == 0 || typ == 0 {
        let it = NumberIter { data: buffer, typ: 0, len: 0, cur: 0 };
        assert(it@ == Seq::<NumbericValue>::empty());
        return Ok(it);
    }
    if !(typ == 1 || typ == 2 || typ == 3 || typ == 5) {
        return Err(Bcf2Error::Format);
    }
    let fits = if typ == 1 {
        n <= buffer.len()
    } else if typ == 2 {
        n <= buffer.len() / 2
    } else {
        n <= buffer.len() / 4
    };
    if !fits {
        return Err(Bcf2Error::Stream);
    }
    let it = NumberIter { data: buffer, typ, len: n, cur: 0 };
    assert(it@ == numbers(typ, n as nat, buffer@));
    Ok(it)
}

} // verus!
