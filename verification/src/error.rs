use vstd::prelude::*;

verus! {

/// The ways in which decoding can fail.
///
/// No error is ever retried or resynchronised: whichever of these a decoder
/// returns, the record or stream at hand is abandoned.
#[derive(Clone, Copy, Debug, PartialEq, Eq, Structural)]
pub enum Bcf2Error {
    /// The bytes end before the value that is being read does.
    Stream,
    /// The bytes are all there but are not BCF2: a wrong magic or version, a
    /// type tag that the format does not define, a malformed header line.
    Format,
    /// A single typed integer was expected and something else was found.
    Invariant,
}

} // verus!
