//! The variable fields of a record, as they are found without being
//! decoded: typed strings and typed arrays, each kept as the range of its
//! bytes in the buffer that holds it.

use crate::error::Bcf2Error;
use crate::reader::{advanced, range_ahead, stepped, ByteRange, ByteReader};
use crate::typed::{
    bcf2_typ_width, descriptor_ahead, integer_ahead, lemma_descriptor_within,
    lemma_integer_within, read_single_typed_integer, read_typed_descriptor_bytes, type_width,
};
use vstd::prelude::*;

verus! {

/// A typed array that has not been decoded: the type of its elements, the
/// count that its descriptor declares, and where its bytes lie.
#[derive(Clone, Copy, Debug, PartialEq, Eq, Structural)]
pub struct TypedArray {
    pub typ: u8,
    pub count: usize,
    pub range: ByteRange,
}

/// A typed array under the dictionary key that names it.
#[derive(Clone, Copy, Debug, PartialEq, Eq, Structural)]
pub struct KeyedArray {
    pub key: usize,
    pub values: TypedArray,
}

/// The number of bytes of `count` elements of the width `width`, `scale`
/// times over.
pub open spec fn array_size(width: nat, count: nat, scale: nat) -> nat {
    width * count * scale
}

impl TypedArray {
    /// The array lies in a buffer of `len` bytes and is exactly as long as
    /// its type and count say, the count taken `scale` times.
    pub open spec fn safe(&self, len: nat, scale: nat) -> bool {
        &&& self.range.fits(len)
        &&& type_width(self.typ) is Some
        &&& self.range.size() == array_size(type_width(self.typ)->0, self.count as nat, scale)
    }
}

/// A typed string, as the range of its characters. `s` are the bytes ahead
/// and `at` is where they start in their buffer.
pub open spec fn text_ahead(s: Seq<u8>, at: nat) -> Result<(ByteRange, nat), Bcf2Error> {
    match descriptor_ahead(s) {
        Err(e) => Err(e),
        Ok(((typ, n), used)) => {
            if typ != 7 {
                Err(Bcf2Error::Format)
            } else {
                match range_ahead(s.skip(used as int), at + used, n) {
                    Ok((range, more)) => Ok((range, used + more)),
                    Err(e) => Err(e),
                }
            }
        },
    }
}

/// A typed array, as its type, its count and the range of its elements.
/// The descriptor's count is taken `scale` times for the length.
pub open spec fn array_ahead(s: Seq<u8>, at: nat, scale: nat) -> Result<
    (TypedArray, nat),
    Bcf2Error,
> {
    match descriptor_ahead(s) {
        Err(e) => Err(e),
        Ok(((typ, n), used)) => {
            match type_width(typ) {
                None => Err(Bcf2Error::Format),
                Some(w) => {
                    let size = array_size(w, n as nat, scale);
                    if size > s.len() - used {
                        Err(Bcf2Error::Stream)
                    } else {
                        Ok(
                            (
                                TypedArray {
                                    typ,
                                    count: n,
                                    range: ByteRange {
                                        start: (at + used) as usize,
                                        end: (at + used + size) as usize,
                                    },
                                },
                                used + size,
                            ),
                        )
                    }
                },
            }
        },
    }
}

/// A dictionary key, as a single typed integer, and the typed array that it
/// names.
pub open spec fn keyed_ahead(s: Seq<u8>, at: nat, scale: nat) -> Result<
    (KeyedArray, nat),
    Bcf2Error,
> {
    match integer_ahead(s) {
        Err(e) => Err(e),
        Ok((key, used)) => {
            match array_ahead(s.skip(used as int), at + used, scale) {
                Err(e) => Err(e),
                Ok((values, more)) => Ok((KeyedArray { key: key as usize, values }, used + more)),
            }
        },
    }
}

/// `k` typed strings, one behind the other.
pub open spec fn texts_ahead(s: Seq<u8>, at: nat, k: nat) -> Result<
    (Seq<ByteRange>, nat),
    Bcf2Error,
>
    decreases k,
{
    if k == 0 {
        Ok((Seq::empty(), 0))
    } else {
        match texts_ahead(s, at, (k - 1) as nat) {
            Err(e) => Err(e),
            Ok((done, used)) => {
                match text_ahead(s.skip(used as int), at + used) {
                    Err(e) => Err(e),
                    Ok((range, more)) => Ok((done.push(range), used + more)),
                }
            },
        }
    }
}

/// `k` keyed arrays, one behind the other.
pub open spec fn keyed_arrays_ahead(s: Seq<u8>, at: nat, scale: nat, k: nat) -> Result<
    (Seq<KeyedArray>, nat),
    Bcf2Error,
>
    decreases k,
{
    if k == 0 {
        Ok((Seq::empty(), 0))
    } else {
        match keyed_arrays_ahead(s, at, scale, (k - 1) as nat) {
            Err(e) => Err(e),
            Ok((done, used)) => {
                match keyed_ahead(s.skip(used as int), at + used, scale) {
                    Err(e) => Err(e),
                    Ok((field, more)) => Ok((done.push(field), used + more)),
                }
            },
        }
    }
}

proof fn lemma_texts_fail_on(s: Seq<u8>, at: nat, j: nat, k: nat)
    requires
        j <= k,
        texts_ahead(s, at, j) is Err,
    ensures
        texts_ahead(s, at, k) == texts_ahead(s, at, j),
    decreases k,
{
    if j < k {
        lemma_texts_fail_on(s, at, j, (k - 1) as nat);
    }
}

proof fn lemma_keyed_arrays_fail_on(s: Seq<u8>, at: nat, scale: nat, j: nat, k: nat)
    requires
        j <= k,
        keyed_arrays_ahead(s, at, scale, j) is Err,
    ensures
        keyed_arrays_ahead(s, at, scale, k) == keyed_arrays_ahead(s, at, scale, j),
    decreases k,
{
    if j < k {
        lemma_keyed_arrays_fail_on(s, at, scale, j, (k - 1) as nat);
    }
}

/// The number of bytes of an array, computed without overflow.
fn array_bytes(width: usize, count: usize, scale: u32) -> (size: u128)
    requires
        width <= 4,
    ensures
        size == array_size(width as nat, count as nat, scale as nat),
{
    assert(width * count <= 4 * usize::MAX) by (nonlinear_arith)
        requires
            width <= 4,
            count <= usize::MAX,
    ;
    let one: u128 = (width as u128) * (count as u128);
    assert(one * scale <= 4 * usize::MAX * u32::MAX) by (nonlinear_arith)
        requires
            one <= 4 * usize::MAX,
            scale <= u32::MAX,
    ;
    one * (scale as u128)
}

/// Reads a typed string and says where its characters lie.
pub fn read_text(reader: &mut ByteReader) -> (r: Result<ByteRange, Bcf2Error>)
    ensures
        stepped(*old(reader), *final(reader), text_ahead(old(reader).rest(), old(reader).at()), r),
{
    let start = reader.position();
    let (typ, n) = match read_typed_descriptor_bytes(reader) {
        Ok(d) => d,
        Err(e) => {
            return Err(e);
        },
    };
    assert(reader.rest() == old(reader).rest().skip(reader.at() - old(reader).at()));
    if typ != 7 {
        reader.seek(start);
        return Err(Bcf2Error::Format);
    }
    match reader.skip(n) {
        Ok(range) => Ok(range),
        Err(e) => {
            reader.seek(start);
            Err(e)
        },
    }
}

/// Reads the descriptor of a typed array, passes over its elements and says
/// where they lie. The descriptor's count is taken `scale` times.
pub fn read_array(reader: &mut ByteReader, scale: u32) -> (r: Result<TypedArray, Bcf2Error>)
    ensures
        stepped(
            *old(reader),
            *final(reader),
            array_ahead(old(reader).rest(), old(reader).at(), scale as nat),
            r,
        ),
{
    let start = reader.position();
    let (typ, n) = match read_typed_descriptor_bytes(reader) {
        Ok(d) => d,
        Err(e) => {
            return Err(e);
        },
    };
    assert(reader.rest() == old(reader).rest().skip(reader.at() - old(reader).at()));
    let width = match bcf2_typ_width(typ) {
        Ok(w) => w,
        Err(e) => {
            reader.seek(start);
            return Err(e);
        },
    };
    let size = array_bytes(width, n, scale);
    if size > reader.remaining() as u128 {
        reader.seek(start);
        return Err(Bcf2Error::Stream);
    }
    match reader.skip(size as usize) {
        Ok(range) => Ok(TypedArray { typ, count: n, range }),
        Err(e) => {
            reader.seek(start);
            Err(e)
        },
    }
}

/// Reads a dictionary key and the typed array behind it.
pub fn read_keyed(reader: &mut ByteReader, scale: u32) -> (r: Result<KeyedArray, Bcf2Error>)
    ensures
        stepped(
            *old(reader),
            *final(reader),
            keyed_ahead(old(reader).rest(), old(reader).at(), scale as nat),
            r,
        ),
{
    let start = reader.position();
    let key = match read_single_typed_integer(reader) {
        Ok(k) => k,
        Err(e) => {
            return Err(e);
        },
    };
    assert(reader.rest() == old(reader).rest().skip(reader.at() - old(reader).at()));
    match read_array(reader, scale) {
        Ok(values) => Ok(KeyedArray { key: key as usize, values }),
        Err(e) => {
            reader.seek(start);
            Err(e)
        },
    }
}

/// Reads `k` typed strings.
pub fn read_texts(reader: &mut ByteReader, k: usize) -> (r: Result<Vec<ByteRange>, Bcf2Error>)
    ensures
        match texts_ahead(old(reader).rest(), old(reader).at(), k as nat) {
            Ok((ranges, used)) => r is Ok && r->Ok_0@ == ranges && advanced(
                *old(reader),
                *final(reader),
                used,
            ),
            Err(e) => r is Err && r->Err_0 == e && advanced(*old(reader), *final(reader), 0),
        },
{
    let start = reader.position();
    let ghost s = reader.rest();
    let ghost at = reader.at();
    let mut v: Vec<ByteRange> = Vec::new();
    let mut j: usize = 0;
    assert(s.skip(0) == s);
    while j < k
        invariant
            j <= k,
            start == at,
            at == old(reader).at(),
            s == old(reader).rest(),
            reader.bytes() == old(reader).bytes(),
            at <= reader.at() <= reader.bytes().len(),
            texts_ahead(s, at, j as nat) == Ok::<(Seq<ByteRange>, nat), Bcf2Error>(
                (v@, (reader.at() - at) as nat),
            ),
        decreases k - j,
    {
        assert(reader.rest() == s.skip(reader.at() - at));
        match read_text(reader) {
            Ok(range) => {
                v.push(range);
            },
            Err(e) => {
                proof {
                    lemma_texts_fail_on(s, at, (j + 1) as nat, k as nat);
                }
                reader.seek(start);
                return Err(e);
            },
        }
        j = j + 1;
    }
    Ok(v)
}

/// Reads `k` keyed arrays.
pub fn read_keyed_arrays(reader: &mut ByteReader, scale: u32, k: usize) -> (r: Result<
    Vec<KeyedArray>,
    Bcf2Error,
>)
    ensures
        match keyed_arrays_ahead(old(reader).rest(), old(reader).at(), scale as nat, k as nat) {
            Ok((fields, used)) => r is Ok && r->Ok_0@ == fields && advanced(
                *old(reader),
                *final(reader),
                used,
            ),
            Err(e) => r is Err && r->Err_0 == e && advanced(*old(reader), *final(reader), 0),
        },
{
    let start = reader.position();
    let ghost s = reader.rest();
    let ghost at = reader.at();
    let mut v: Vec<KeyedArray> = Vec::new();
    let mut j: usize = 0;
    assert(s.skip(0) == s);
    while j < k
        invariant
            j <= k,
            start == at,
            at == old(reader).at(),
            s == old(reader).rest(),
            reader.bytes() == old(reader).bytes(),
            at <= reader.at() <= reader.bytes().len(),
            keyed_arrays_ahead(s, at, scale as nat, j as nat) == Ok::<
                (Seq<KeyedArray>, nat),
                Bcf2Error,
            >((v@, (reader.at() - at) as nat)),
        decreases k - j,
    {
        assert(reader.rest() == s.skip(reader.at() - at));
        match read_keyed(reader, scale) {
            Ok(field) => {
                v.push(field);
            },
            Err(e) => {
                proof {
                    lemma_keyed_arrays_fail_on(s, at, scale as nat, (j + 1) as nat, k as nat);
                }
                reader.seek(start);
                return Err(e);
            },
        }
        j = j + 1;
    }
    Ok(v)
}

/// A typed string that was read lies in its buffer.
pub proof fn lemma_text_fits(s: Seq<u8>, at: nat, len: nat)
    requires
        at + s.len() == len,
        len <= usize::MAX,
        text_ahead(s, at) is Ok,
    ensures
        text_ahead(s, at)->Ok_0.0.fits(len),
        text_ahead(s, at)->Ok_0.1 <= s.len(),
{
    lemma_descriptor_within(s);
}

/// A typed array that was read lies in its buffer and is as long as its
/// type and count say.
pub proof fn lemma_array_safe(s: Seq<u8>, at: nat, scale: nat, len: nat)
    requires
        at + s.len() == len,
        len <= usize::MAX,
        array_ahead(s, at, scale) is Ok,
    ensures
        array_ahead(s, at, scale)->Ok_0.0.safe(len, scale),
        array_ahead(s, at, scale)->Ok_0.1 <= s.len(),
{
    lemma_descriptor_within(s);
}

/// A keyed array that was read lies in its buffer and is as long as its
/// type and count say.
pub proof fn lemma_keyed_safe(s: Seq<u8>, at: nat, scale: nat, len: nat)
    requires
        at + s.len() == len,
        len <= usize::MAX,
        keyed_ahead(s, at, scale) is Ok,
    ensures
        keyed_ahead(s, at, scale)->Ok_0.0.values.safe(len, scale),
        keyed_ahead(s, at, scale)->Ok_0.1 <= s.len(),
{
    lemma_integer_within(s);
    let used = integer_ahead(s)->Ok_0.1;
    lemma_array_safe(s.skip(used as int), at + used, scale, len);
}

/// Typed strings that were read are as many as were asked for, and each
/// lies in its buffer.
pub proof fn lemma_texts_fit(s: Seq<u8>, at: nat, k: nat, len: nat)
    requires
        at + s.len() == len,
        len <= usize::MAX,
        texts_ahead(s, at, k) is Ok,
    ensures
        texts_ahead(s, at, k)->Ok_0.0.len() == k,
        texts_ahead(s, at, k)->Ok_0.1 <= s.len(),
        forall|i: int|
            0 <= i < k ==> (#[trigger] texts_ahead(s, at, k)->Ok_0.0[i]).fits(len),
    decreases k,
{
    if k > 0 {
        lemma_texts_fit(s, at, (k - 1) as nat, len);
        let used = texts_ahead(s, at, (k - 1) as nat)->Ok_0.1;
        lemma_text_fits(s.skip(used as int), at + used, len);
    }
}

/// Keyed arrays that were read are as many as were asked for, and each
/// lies in its buffer and is as long as its type and count say.
pub proof fn lemma_keyed_arrays_safe(s: Seq<u8>, at: nat, scale: nat, k: nat, len: nat)
    requires
        at + s.len() == len,
        len <= usize::MAX,
        keyed_arrays_ahead(s, at, scale, k) is Ok,
    ensures
        keyed_arrays_ahead(s, at, scale, k)->Ok_0.0.len() == k,
        keyed_arrays_ahead(s, at, scale, k)->Ok_0.1 <= s.len(),
        forall|i: int|
            0 <= i < k ==> (#[trigger] keyed_arrays_ahead(s, at, scale, k)->Ok_0.0[i]).values.safe(
                len,
                scale,
            ),
    decreases k,
{
    if k > 0 {
        lemma_keyed_arrays_safe(s, at, scale, (k - 1) as nat, len);
        let used = keyed_arrays_ahead(s, at, scale, (k - 1) as nat)->Ok_0.1;
        lemma_keyed_safe(s.skip(used as int), at + used, scale, len);
    }
}

} // verus!
