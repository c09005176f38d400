//! One record: the fixed fields of a site, and the tables that say where
//! its variable fields lie. No variable field is decoded here; each is kept
//! as a range into the buffer that holds it.

use crate::endian::{le_i32, le_u16, le_u32};
use crate::error::Bcf2Error;
use crate::fields::{
    array_ahead, array_size, keyed_arrays_ahead, lemma_array_safe, lemma_keyed_arrays_safe, lemma_text_fits,
    lemma_texts_fit, read_array, read_keyed_arrays, read_text, read_texts, text_ahead,
    texts_ahead, KeyedArray, TypedArray,
};
use crate::header::Header;
use crate::number::{Bcf2Number, F32Bits, NumbericValue};
use crate::reader::{advanced, ByteRange, ByteReader};
use crate::sequence::{iter_typed_integers, number_width, sequence_of, NumberIter};
use crate::typed::type_width;
use vstd::prelude::*;
use vstd::slice::slice_subrange;

verus! {

/// The fixed fields of a site and the tables of its variable fields.
pub struct SiteModel {
    pub chrom: i32,
    pub pos: i32,
    pub rlen: i32,
    pub qual: F32Bits,
    pub n_info: u16,
    pub n_allele: u16,
    pub n_sample: u32,
    pub n_fmt: u8,
    pub id: ByteRange,
    pub alleles: Seq<ByteRange>,
    pub filters: TypedArray,
    pub info: Seq<KeyedArray>,
}

/// The site that the shared bytes of a record spell.
///
/// The fixed fields come first, in 24 bytes: chromosome, position and
/// reference length as signed integers, the quality as a float, the counts
/// of info entries and of alleles in two bytes each, and four bytes that
/// pack the count of samples, in the low 24 bits, with the count of
/// formats, in the high 8. Behind them stand the identifier, the alleles,
/// the filters and the info entries. What follows the last info entry is
/// not looked at.
pub open spec fn site_of(s: Seq<u8>) -> Result<SiteModel, Bcf2Error> {
    if s.len() < 24 {
        Err(Bcf2Error::Stream)
    } else {
        let n_info = le_u16(s.skip(16));
        let n_allele = le_u16(s.skip(18));
        let packed = le_u32(s.skip(20));
        match text_ahead(s.skip(24), 24) {
            Err(e) => Err(e),
            Ok((id, a)) => match texts_ahead(s.skip(24 + a as int), 24 + a, n_allele as nat) {
                Err(e) => Err(e),
                Ok((alleles, b)) => match array_ahead(s.skip(24 + a + b as int), 24 + a + b, 1) {
                    Err(e) => Err(e),
                    Ok((filters, c)) => match keyed_arrays_ahead(
                        s.skip(24 + a + b + c as int),
                        24 + a + b + c,
                        1,
                        n_info as nat,
                    ) {
                        Err(e) => Err(e),
                        Ok((info, d)) => Ok(
                            SiteModel {
                                chrom: le_i32(s),
                                pos: le_i32(s.skip(4)),
                                rlen: le_i32(s.skip(8)),
                                qual: F32Bits(le_u32(s.skip(12))),
                                n_info,
                                n_allele,
                                n_sample: packed & 0xff_ffff,
                                n_fmt: (packed >> 24) as u8,
                                id,
                                alleles,
                                filters,
                                info,
                            },
                        ),
                    },
                },
            },
        }
    }
}

/// The format fields that the individual bytes of a record spell: `n_fmt`
/// keyed arrays, each with its count for one sample and its bytes for
/// `n_sample` of them.
pub open spec fn formats_of(s: Seq<u8>, n_fmt: u8, n_sample: u32) -> Result<
    Seq<KeyedArray>,
    Bcf2Error,
> {
    match keyed_arrays_ahead(s, 0, n_sample as nat, n_fmt as nat) {
        Err(e) => Err(e),
        Ok((fields, used)) => Ok(fields),
    }
}

/// The fixed fields of a site and the tables of its variable fields, as
/// they are read from the shared bytes of a record.
#[derive(Debug)]
pub struct Site {
    pub chrom: i32,
    pub pos: i32,
    pub rlen: i32,
    pub qual: F32Bits,
    pub n_info: u16,
    pub n_allele: u16,
    pub n_sample: u32,
    pub n_fmt: u8,
    pub id: ByteRange,
    pub alleles: Vec<ByteRange>,
    pub filters: TypedArray,
    pub info: Vec<KeyedArray>,
}

impl View for Site {
    type V = SiteModel;

    open spec fn view(&self) -> SiteModel {
        SiteModel {
            chrom: self.chrom,
            pos: self.pos,
            rlen: self.rlen,
            qual: self.qual,
            n_info: self.n_info,
            n_allele: self.n_allele,
            n_sample: self.n_sample,
            n_fmt: self.n_fmt,
            id: self.id,
            alleles: self.alleles@,
            filters: self.filters,
            info: self.info@,
        }
    }
}

impl SiteModel {
    /// The site of a record that has not been read.
    pub open spec fn empty() -> SiteModel {
        SiteModel {
            chrom: 0,
            pos: 0,
            rlen: 0,
            qual: F32Bits(0),
            n_info: 0,
            n_allele: 0,
            n_sample: 0,
            n_fmt: 0,
            id: ByteRange { start: 0, end: 0 },
            alleles: Seq::empty(),
            filters: TypedArray { typ: 0, count: 0, range: ByteRange { start: 0, end: 0 } },
            info: Seq::empty(),
        }
    }

    /// Every range of the site lies in a buffer of `len` bytes, every typed
    /// array is as long as its type and count say, and the tables hold as
    /// many entries as the counts declare.
    pub open spec fn safe(&self, len: nat) -> bool {
        &&& self.id.fits(len)
        &&& self.alleles.len() == self.n_allele
        &&& forall|i: int| 0 <= i < self.alleles.len() ==> (#[trigger] self.alleles[i]).fits(len)
        &&& self.filters.safe(len, 1)
        &&& self.info.len() == self.n_info
        &&& forall|i: int| 0 <= i < self.info.len() ==> (#[trigger] self.info[i]).values.safe(len, 1)
    }
}

/// What a record holds.
pub struct RecordModel {
    /// The shared bytes, into which the ranges of the site point.
    pub shared: Seq<u8>,
    /// The individual bytes, into which the ranges of the formats point.
    pub indiv: Seq<u8>,
    pub site: SiteModel,
    /// The format fields: each with its count for one sample.
    pub formats: Seq<KeyedArray>,
}

impl RecordModel {
    /// The record that has not been read.
    pub open spec fn empty() -> RecordModel {
        RecordModel {
            shared: Seq::empty(),
            indiv: Seq::empty(),
            site: SiteModel::empty(),
            formats: Seq::empty(),
        }
    }

    /// Every range that the record holds lies in the buffer that it points
    /// into and is exactly as long as its type and count say, the count of a
    /// format taken once for each sample.
    pub open spec fn ranges_safe(&self) -> bool {
        &&& self.site.safe(self.shared.len())
        &&& self.formats.len() == self.site.n_fmt
        &&& forall|i: int|
            0 <= i < self.formats.len() ==> (#[trigger] self.formats[i]).values.safe(
                self.indiv.len(),
                self.site.n_sample as nat,
            )
    }
}

/// The lengths of the two blocks of bytes of the record at the front of a
/// stream, the shared ones first; `None` where the stream is at its end.
///
/// Each length is an unsigned integer of four bytes. A stream that ends
/// before the first of these bytes has no more records; one that ends
/// within them is cut short.
pub open spec fn lengths_ahead(s: Seq<u8>) -> Result<Option<((usize, usize), nat)>, Bcf2Error> {
    if s.len() == 0 {
        Ok(None)
    } else if s.len() < 8 {
        Err(Bcf2Error::Stream)
    } else {
        Ok(Some(((le_u32(s) as usize, le_u32(s.skip(4)) as usize), 8)))
    }
}

/// The two blocks of bytes of the record at the front of a stream, the
/// shared ones and the individual ones, with the number of bytes that the
/// record takes; `None` where the stream is at its end.
///
/// A record is its two lengths, then the shared bytes and the individual
/// bytes in those lengths. A stream that ends anywhere in them is cut
/// short.
pub open spec fn frame_ahead(s: Seq<u8>) -> Result<Option<((Seq<u8>, Seq<u8>), nat)>, Bcf2Error> {
    match lengths_ahead(s) {
        Err(e) => Err(e),
        Ok(None) => Ok(None),
        Ok(Some(((l_shared, l_indiv), used))) => {
            if l_shared + l_indiv > s.len() - used {
                Err(Bcf2Error::Stream)
            } else {
                Ok(
                    Some(
                        (
                            (
                                s.subrange(used as int, used + l_shared),
                                s.subrange(used + l_shared, used + l_shared + l_indiv),
                            ),
                            (used + l_shared + l_indiv) as nat,
                        ),
                    ),
                )
            }
        },
    }
}

/// The record that the two blocks of bytes spell.
pub open spec fn record_of(shared: Seq<u8>, indiv: Seq<u8>) -> Result<RecordModel, Bcf2Error> {
    match site_of(shared) {
        Err(e) => Err(e),
        Ok(site) => match formats_of(indiv, site.n_fmt, site.n_sample) {
            Err(e) => Err(e),
            Ok(formats) => Ok(RecordModel { shared, indiv, site, formats }),
        },
    }
}

/// The record at the front of a stream, with the number of bytes that it
/// takes; `None` where the stream is at its end.
pub open spec fn record_ahead(s: Seq<u8>) -> Result<Option<(RecordModel, nat)>, Bcf2Error> {
    match frame_ahead(s) {
        Err(e) => Err(e),
        Ok(None) => Ok(None),
        Ok(Some((blocks, used))) => match record_of(blocks.0, blocks.1) {
            Err(e) => Err(e),
            Ok(m) => Ok(Some((m, used))),
        },
    }
}

/// Every range of a site that was read lies in the shared bytes, and is as
/// long as its type and count say.
pub proof fn lemma_site_safe(s: Seq<u8>)
    requires
        s.len() <= usize::MAX,
        site_of(s) is Ok,
    ensures
        site_of(s)->Ok_0.safe(s.len()),
{
    let len = s.len();
    lemma_text_fits(s.skip(24), 24, len);
    let a = text_ahead(s.skip(24), 24)->Ok_0.1;
    let n_allele = le_u16(s.skip(18)) as nat;
    lemma_texts_fit(s.skip(24 + a as int), 24 + a, n_allele, len);
    let b = texts_ahead(s.skip(24 + a as int), 24 + a, n_allele)->Ok_0.1;
    lemma_array_safe(s.skip(24 + a + b as int), 24 + a + b, 1, len);
    let c = array_ahead(s.skip(24 + a + b as int), 24 + a + b, 1)->Ok_0.1;
    lemma_keyed_arrays_safe(
        s.skip(24 + a + b + c as int),
        24 + a + b + c,
        1,
        le_u16(s.skip(16)) as nat,
        len,
    );
}

/// Every range of a record that was read lies in the buffer that it points
/// into, and is exactly as long as its type and count say: the width of the
/// type times the count, and for a format times the number of samples.
pub proof fn lemma_record_ranges_safe(shared: Seq<u8>, indiv: Seq<u8>)
    requires
        shared.len() <= usize::MAX,
        indiv.len() <= usize::MAX,
        record_of(shared, indiv) is Ok,
    ensures
        record_of(shared, indiv)->Ok_0.ranges_safe(),
{
    let m = record_of(shared, indiv)->Ok_0;
    lemma_site_safe(shared);
    lemma_keyed_arrays_safe(indiv, 0, m.site.n_sample as nat, m.site.n_fmt as nat, indiv.len());
}

/// Reads the lengths of the two blocks of bytes of the next record, the
/// shared ones first; `None` at the end of the stream.
pub fn read_frame_lengths(reader: &mut ByteReader) -> (r: Result<Option<(usize, usize)>, Bcf2Error>)
    ensures
        match lengths_ahead(old(reader).rest()) {
            Ok(None) => r == Ok::<Option<(usize, usize)>, Bcf2Error>(None) && advanced(
                *old(reader),
                *final(reader),
                0,
            ),
            Ok(Some((lengths, used))) => r == Ok::<Option<(usize, usize)>, Bcf2Error>(
                Some(lengths),
            ) && advanced(*old(reader), *final(reader), used),
            Err(e) => r == Err::<Option<(usize, usize)>, Bcf2Error>(e) && advanced(
                *old(reader),
                *final(reader),
                0,
            ),
        },
{
    let ghost ahead = reader.rest();
    if reader.remaining() == 0 {
        return Ok(None);
    }
    if reader.remaining() < 8 {
        return Err(Bcf2Error::Stream);
    }
    let l_shared = match reader.read_u32() {
        Ok(v) => v as usize,
        Err(e) => {
            return Err(e);
        },
    };
    assert(reader.rest() == ahead.skip(4));
    match reader.read_u32() {
        Ok(v) => Ok(Some((l_shared, v as usize))),
        Err(e) => Err(e),
    }
}

/// Reads the two blocks of bytes of the next record, the shared ones and
/// the individual ones; `None` at the end of the stream.
pub fn read_frame<'a>(reader: &mut ByteReader<'a>) -> (r: Result<
    Option<(&'a [u8], &'a [u8])>,
    Bcf2Error,
>)
    ensures
        match frame_ahead(old(reader).rest()) {
            Ok(None) => r is Ok && r->Ok_0 is None && advanced(*old(reader), *final(reader), 0),
            Ok(Some((blocks, used))) => {
                &&& r is Ok
                &&& r->Ok_0 is Some
                &&& r->Ok_0->Some_0.0@ == blocks.0
                &&& r->Ok_0->Some_0.1@ == blocks.1
                &&& advanced(*old(reader), *final(reader), used)
            },
            Err(e) => r is Err && r->Err_0 == e && advanced(*old(reader), *final(reader), 0),
        },
{
    let start = reader.position();
    let ghost ahead = reader.rest();
    let (l_shared, l_indv) = match read_frame_lengths(reader) {
        Ok(Some(lengths)) => lengths,
        Ok(None) => {
            return Ok(None);
        },
        Err(e) => {
            return Err(e);
        },
    };
    assert(reader.rest() == ahead.skip(8));
    let shared = match reader.read_bytes(l_shared) {
        Ok(b) => b,
        Err(e) => {
            reader.seek(start);
            return Err(e);
        },
    };
    assert(reader.rest() == ahead.skip(8 + l_shared));
    let indiv = match reader.read_bytes(l_indv) {
        Ok(b) => b,
        Err(e) => {
            reader.seek(start);
            return Err(e);
        },
    };
    assert(shared@ == ahead.subrange(8, 8 + l_shared));
    assert(indiv@ == ahead.subrange(8 + l_shared, 8 + l_shared + l_indv));
    Ok(Some((shared, indiv)))
}

/// What a read found.
#[derive(Clone, Copy, Debug, PartialEq, Eq, Structural)]
pub enum ReadStatus {
    /// A record was read.
    Record,
    /// The stream has no more records.
    EndOfStream,
}

/// The last of `fields` has the key `key`, if any has.
pub open spec fn last_keyed(fields: Seq<KeyedArray>, key: nat) -> Option<KeyedArray>
    decreases fields.len(),
{
    if fields.len() == 0 {
        None
    } else if fields.last().key == key {
        Some(fields.last())
    } else {
        last_keyed(fields.drop_last(), key)
    }
}

/// The numbers of the format field that `key` names, for all samples one
/// after the other, and none where the record has no such field. A field
/// with elements of a type that holds no numbers is a format error; one
/// without elements is an empty sequence, whatever its type.
pub open spec fn genotypes(m: RecordModel, key: nat) -> Result<Seq<NumbericValue>, Bcf2Error> {
    match last_keyed(m.formats, key) {
        None => Ok(Seq::empty()),
        Some(f) => sequence_of(
            f.values.typ,
            (f.values.count * m.site.n_sample) as nat,
            m.indiv.subrange(f.values.range.start as int, f.values.range.end as int),
        ),
    }
}

/// The last of `fields` under a key is one of `fields`.
pub proof fn lemma_last_keyed_is_held(fields: Seq<KeyedArray>, key: nat)
    requires
        last_keyed(fields, key) is Some,
    ensures
        last_keyed(fields, key)->0.key == key,
        exists|i: int| 0 <= i < fields.len() && fields[i] == last_keyed(fields, key)->0,
    decreases fields.len(),
{
    if fields.last().key == key {
        assert(fields[fields.len() - 1] == last_keyed(fields, key)->0);
    } else {
        lemma_last_keyed_is_held(fields.drop_last(), key);
        let i = choose|i: int|
            0 <= i < fields.drop_last().len() && fields.drop_last()[i] == last_keyed(
                fields.drop_last(),
                key,
            )->0;
        assert(fields[i] == last_keyed(fields, key)->0);
    }
}

/// The genotypes of a record whose ranges are safe are as many as the field
/// declares: its count for one sample times the number of samples, for a
/// field of numbers, and none for a field of the type 0. They fail only
/// where the field has elements of a type that holds no numbers.
pub proof fn lemma_genotypes_count(m: RecordModel, key: nat)
    requires
        m.ranges_safe(),
        last_keyed(m.formats, key) is Some,
    ensures
        ({
            let f = last_keyed(m.formats, key)->0.values;
            let n = f.count * m.site.n_sample;
            if n > 0 && number_width(f.typ) is None {
                genotypes(m, key) == Err::<Seq<NumbericValue>, Bcf2Error>(Bcf2Error::Format)
            } else {
                genotypes(m, key) is Ok && genotypes(m, key)->Ok_0.len() == (if f.typ == 0 {
                    0
                } else {
                    n
                })
            }
        }),
{
    lemma_last_keyed_is_held(m.formats, key);
    let f = last_keyed(m.formats, key)->0.values;
    assert(f.safe(m.indiv.len(), m.site.n_sample as nat));
    let w = type_width(f.typ)->0;
    let count = f.count as nat;
    let scale = m.site.n_sample as nat;
    let len = f.range.size();
    assert(w * (count * scale) == len) by (nonlinear_arith)
        requires
            len == array_size(w, count, scale),
    ;
    assert(w == 1 ==> w * (count * scale) == count * scale) by (nonlinear_arith);
    assert(w == 2 ==> w * (count * scale) == 2 * (count * scale)) by (nonlinear_arith);
    assert(w == 4 ==> w * (count * scale) == 4 * (count * scale)) by (nonlinear_arith);
}

/// One decoded variant site with the block of its samples. A record can be
/// read into again and again: each read puts the new record in the place of
/// the old.
#[derive(Debug)]
pub struct Record {
    buf_site: Vec<u8>,
    buf_gt: Vec<u8>,
    site: Site,
    gt: Vec<KeyedArray>,
}

impl View for Record {
    type V = RecordModel;

    closed spec fn view(&self) -> RecordModel {
        RecordModel {
            shared: self.buf_site@,
            indiv: self.buf_gt@,
            site: self.site@,
            formats: self.gt@,
        }
    }
}

/// The site of a record that has not been read.
fn empty_site() -> (site: Site)
    ensures
        site@ == SiteModel::empty(),
{
    Site {
        chrom: 0,
        pos: 0,
        rlen: 0,
        qual: F32Bits(0),
        n_info: 0,
        n_allele: 0,
        n_sample: 0,
        n_fmt: 0,
        id: ByteRange { start: 0, end: 0 },
        alleles: Vec::new(),
        filters: TypedArray { typ: 0, count: 0, range: ByteRange { start: 0, end: 0 } },
        info: Vec::new(),
    }
}

impl Default for Record {
    /// A record that has not been read: it holds no bytes and no fields.
    fn default() -> (r: Record)
        ensures
            r@ == RecordModel::empty(),
    {
        Record { buf_site: Vec::new(), buf_gt: Vec::new(), site: empty_site(), gt: Vec::new() }
    }
}

impl Record {
    #[verifier::type_invariant]
    spec fn well_formed(&self) -> bool {
        self@.ranges_safe()
    }

    /// Reads the site from the shared bytes of a record.
    pub fn parse_site_fields(shared: &[u8]) -> (r: Result<Site, Bcf2Error>)
        ensures
            match site_of(shared@) {
                Ok(site) => r is Ok && r->Ok_0@ == site && site.safe(shared@.len()),
                Err(e) => r is Err && r->Err_0 == e,
            },
    {
        let ghost s = shared@;
        let mut reader = ByteReader::new(shared);
        assert(reader.rest() == s);
        if reader.remaining() < 24 {
            return Err(Bcf2Error::Stream);
        }
        let chrom = match reader.read_i32() {
            Ok(v) => v,
            Err(e) => {
                return Err(e);
            },
        };
        assert(reader.rest() == s.skip(4));
        let pos = match reader.read_i32() {
            Ok(v) => v,
            Err(e) => {
                return Err(e);
            },
        };
        assert(reader.rest() == s.skip(8));
        let rlen = match reader.read_i32() {
            Ok(v) => v,
            Err(e) => {
                return Err(e);
            },
        };
        assert(reader.rest() == s.skip(12));
        let qual = match reader.read_u32() {
            Ok(v) => F32Bits(v),
            Err(e) => {
                return Err(e);
            },
        };
        assert(reader.rest() == s.skip(16));
        let n_info = match reader.read_u16() {
            Ok(v) => v,
            Err(e) => {
                return Err(e);
            },
        };
        assert(reader.rest() == s.skip(18));
        let n_allele = match reader.read_u16() {
            Ok(v) => v,
            Err(e) => {
                return Err(e);
            },
        };
        assert(reader.rest() == s.skip(20));
        let combined = match reader.read_u32() {
            Ok(v) => v,
            Err(e) => {
                return Err(e);
            },
        };
        let n_sample = combined & 0xff_ffff;
        let n_fmt = (combined >> 24) as u8;
        assert(reader.rest() == s.skip(24));
        // id
        let id = match read_text(&mut reader) {
            Ok(range) => range,
            Err(e) => {
                return Err(e);
            },
        };
        assert(reader.rest() == s.skip(reader.at() as int));
        // alleles
        let alleles = match read_texts(&mut reader, n_allele as usize) {
            Ok(ranges) => ranges,
            Err(e) => {
                return Err(e);
            },
        };
        assert(reader.rest() == s.skip(reader.at() as int));
        // filters
        let filters = match read_array(&mut reader, 1) {
            Ok(array) => array,
            Err(e) => {
                return Err(e);
            },
        };
        assert(reader.rest() == s.skip(reader.at() as int));
        // infos
        let info = match read_keyed_arrays(&mut reader, 1, n_info as usize) {
            Ok(fields) => fields,
            Err(e) => {
                return Err(e);
            },
        };
        proof {
            lemma_site_safe(s);
        }
        Ok(
            Site {
                chrom,
                pos,
                rlen,
                qual,
                n_info,
                n_allele,
                n_sample,
                n_fmt,
                id,
                alleles,
                filters,
                info,
            },
        )
    }

    /// Reads the format fields from the individual bytes of a record with
    /// `n_fmt` formats and `n_sample` samples.
    pub fn parse_gt_fields(indiv: &[u8], n_fmt: u8, n_sample: u32) -> (r: Result<
        Vec<KeyedArray>,
        Bcf2Error,
    >)
        ensures
            match formats_of(indiv@, n_fmt, n_sample) {
                Ok(formats) => {
                    &&& r is Ok
                    &&& r->Ok_0@ == formats
                    &&& formats.len() == n_fmt
                    &&& forall|i: int|
                        0 <= i < formats.len() ==> (#[trigger] formats[i]).values.safe(
                            indiv@.len(),
                            n_sample as nat,
                        )
                },
                Err(e) => r is Err && r->Err_0 == e,
            },
    {
        let mut reader = ByteReader::new(indiv);
        assert(reader.rest() == indiv@);
        let len = indiv.len();
        let r = read_keyed_arrays(&mut reader, n_sample, n_fmt as usize);
        proof {
            if r is Ok {
                lemma_keyed_arrays_safe(
                    indiv@,
                    0,
                    n_sample as nat,
                    n_fmt as nat,
                    indiv@.len(),
                );
            }
        }
        r
    }

    /// Reads the next record of the stream, and separates its fields.
    ///
    /// At the end of the stream nothing is read and the record stays as it
    /// was. A read that fails leaves the record empty and the reader where
    /// it was.
    pub fn read(&mut self, reader: &mut ByteReader) -> (r: Result<ReadStatus, Bcf2Error>)
        ensures
            final(self)@.ranges_safe(),
            match record_ahead(old(reader).rest()) {
                Ok(None) => {
                    &&& r == Ok::<ReadStatus, Bcf2Error>(ReadStatus::EndOfStream)
                    &&& final(self)@ == old(self)@
                    &&& advanced(*old(reader), *final(reader), 0)
                },
                Ok(Some((m, used))) => {
                    &&& r == Ok::<ReadStatus, Bcf2Error>(ReadStatus::Record)
                    &&& final(self)@ == m
                    &&& advanced(*old(reader), *final(reader), used)
                },
                Err(e) => {
                    &&& r == Err::<ReadStatus, Bcf2Error>(e)
                    &&& final(self)@ == RecordModel::empty()
                    &&& advanced(*old(reader), *final(reader), 0)
                },
            },
    {
        proof {
            use_type_invariant(&*self);
        }
        let start = reader.position();
        let (shared, indiv) = match read_frame(reader) {
            Ok(Some(blocks)) => blocks,
            Ok(None) => {
                return Ok(ReadStatus::EndOfStream);
            },
            Err(e) => {
                *self = Record::default();
                return Err(e);
            },
        };
        let mut last = Record::default();
        core::mem::swap(self, &mut last);
        let Record { buf_site, buf_gt, site: _, gt: _ } = last;
        let mut buf_site = buf_site;
        let mut buf_gt = buf_gt;
        buf_site.clear();
        buf_site.extend_from_slice(shared);
        buf_gt.clear();
        buf_gt.extend_from_slice(indiv);
        assert(buf_site@ == shared@);
        assert(buf_gt@ == indiv@);
        let site = match Record::parse_site_fields(buf_site.as_slice()) {
            Ok(site) => site,
            Err(e) => {
                reader.seek(start);
                return Err(e);
            },
        };
        let gt = match Record::parse_gt_fields(buf_gt.as_slice(), site.n_fmt, site.n_sample) {
            Ok(fields) => fields,
            Err(e) => {
                reader.seek(start);
                return Err(e);
            },
        };
        *self = Record { buf_site, buf_gt, site, gt };
        Ok(ReadStatus::Record)
    }

    /// The index of the chromosome among the contigs of the header.
    pub fn chrom(&self) -> (c: i32)
        ensures
            c == self@.site.chrom,
    {
        self.site.chrom
    }

    /// The length of the reference allele.
    pub fn rlen(&self) -> (l: i32)
        ensures
            l == self@.site.rlen,
    {
        self.site.rlen
    }

    /// The quality, unless it is the missing sentinel.
    pub fn qual(&self) -> (q: Option<F32Bits>)
        ensures
            q == (if self@.site.qual.missing() {
                None
            } else {
                Some(self@.site.qual)
            }),
    {
        match self.site.qual.is_missing() {
            true => None,
            false => Some(self.site.qual),
        }
    }

    /// The fixed fields of the site and the tables of its variable fields.
    /// Every range in them lies in the shared bytes.
    pub fn site(&self) -> (site: &Site)
        ensures
            site@ == self@.site,
            site@.safe(self@.shared.len()),
    {
        proof {
            use_type_invariant(self);
        }
        &self.site
    }

    /// The format fields, each with its count for one sample. Every range
    /// in them lies in the individual bytes.
    pub fn formats(&self) -> (fields: &Vec<KeyedArray>)
        ensures
            fields@ == self@.formats,
            self@.ranges_safe(),
    {
        proof {
            use_type_invariant(self);
        }
        &self.gt
    }

    /// The shared bytes of the record.
    pub fn shared_bytes(&self) -> (bytes: &[u8])
        ensures
            bytes@ == self@.shared,
    {
        self.buf_site.as_slice()
    }

    /// The individual bytes of the record.
    pub fn indiv_bytes(&self) -> (bytes: &[u8])
        ensures
            bytes@ == self@.indiv,
    {
        self.buf_gt.as_slice()
    }

    /// The genotypes of the record: the numbers of the format field that
    /// the header's genotype index names, for all samples one after the
    /// other, and an empty sequence where the record has no such field.
    ///
    /// Fails, with a format error, only where that field has elements of a
    /// type that holds no numbers.
    pub fn gt(&self, header: &Header) -> (r: Result<NumberIter<'_>, Bcf2Error>)
        ensures
            match genotypes(self@, header@.gt) {
                Ok(values) => r is Ok && r->Ok_0@ == values,
                Err(e) => r is Err && r->Err_0 == e,
            },
    {
        proof {
            use_type_invariant(self);
        }
        let fmt_gt_id = header.get_fmt_gt_id();
        let mut found: Option<KeyedArray> = None;
        let mut i: usize = 0;
        while i < self.gt.len()
            invariant
                i <= self.gt.len(),
                found == last_keyed(self.gt@.take(i as int), fmt_gt_id as nat),
                found is Some ==> exists|j: int| 0 <= j < i && self.gt@[j] == found->0,
            decreases self.gt.len() - i,
        {
            assert(self.gt@.take(i + 1).drop_last() == self.gt@.take(i as int));
            if self.gt[i].key == fmt_gt_id {
                found = Some(self.gt[i]);
            }
            i = i + 1;
        }
        assert(self.gt@.take(self.gt.len() as int) == self.gt@);
        match found {
            None => Ok(NumberIter::default()),
            Some(f) => {
                let values = f.values;
                assert(values.safe(self.buf_gt@.len(), self.site.n_sample as nat));
                let bytes = slice_subrange(
                    self.buf_gt.as_slice(),
                    values.range.start,
                    values.range.end,
                );
                if values.typ == 0 {
                    iter_typed_integers(0, 0, bytes)
                } else {
                    let ghost w = type_width(values.typ)->0;
                    let ghost count = values.count as nat;
                    let ghost scale = self.site.n_sample as nat;
                    assert(w * (count * scale) == bytes@.len() && count * scale <= bytes@.len())
                        by (nonlinear_arith)
                        requires
                            w >= 1,
                            bytes@.len() == array_size(w, count, scale),
                    ;
                    let n = values.count * (self.site.n_sample as usize);
                    iter_typed_integers(values.typ, n, bytes)
                }
            },
        }
    }
}

} // verus!
