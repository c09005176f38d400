//! Decoder for the BCF2 binary encoding of variant-call records.
//!
//! A stream is a preamble, a textual header, and records. The header is read
//! once, into dictionaries whose positions are the keys that records use.
//! Each record is split into its fixed fields and tables of byte ranges;
//! the typed arrays behind those ranges are decoded only on demand.

pub mod dict;
pub mod endian;
pub mod error;
pub mod fields;
pub mod header;
pub mod number;
pub mod reader;
pub mod record;
pub mod sequence;
pub mod text;
pub mod typed;

pub use dict::DictEntry;
pub use error::Bcf2Error;
pub use fields::{
    read_array, read_keyed, read_keyed_arrays, read_text, read_texts, KeyedArray, TypedArray,
};
pub use header::{pair_of, parse_attributes, parse_line, Header, HeaderLine};
pub use number::{classify, Bcf2Number, Decoded, F32Bits, NumbericValue};
pub use reader::{ByteRange, ByteReader};
pub use record::{read_frame, read_frame_lengths, ReadStatus, Record, Site};
pub use sequence::{iter_typed_integers, NumberIter};
pub use typed::{
    bcf2_typ_width, read_header, read_preamble, read_single_typed_integer,
    read_typed_descriptor_bytes, read_typed_string,
};
