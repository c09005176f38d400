use vstd::prelude::*;

verus! {

/// A stored number whose bit pattern may be one of the format's sentinels.
///
/// Each width sets aside a few bit patterns that stand for no number: one
/// for a value that is missing, one for the end of a vector that is shorter
/// than its neighbours, and a small range kept back by the format. The three
/// questions are asked of the pattern as it is stored.
pub trait Bcf2Number: Sized {
    /// Whether the pattern is the one that stands for a missing value.
    spec fn missing(&self) -> bool;

    /// Whether the pattern is the one that ends a vector early.
    spec fn end_of_vector(&self) -> bool;

    /// Whether the pattern lies in the range that the format keeps back.
    spec fn reserved(&self) -> bool;

    fn is_missing(&self) -> (b: bool)
        ensures
            b == self.missing(),
    ;

    fn is_end_of_vector(&self) -> (b: bool)
        ensures
            b == self.end_of_vector(),
    ;

    fn is_reserved_value(&self) -> (b: bool)
        ensures
            b == self.reserved(),
    ;
}

impl Bcf2Number for u8 {
    open spec fn missing(&self) -> bool {
        *self == 0x80
    }

    open spec fn end_of_vector(&self) -> bool {
        *self == 0x81
    }

    open spec fn reserved(&self) -> bool {
        0x80 <= *self <= 0x87
    }

    fn is_missing(&self) -> (b: bool) {
        *self == 0x80
    }

    fn is_end_of_vector(&self) -> (b: bool) {
        *self == 0x81
    }

    fn is_reserved_value(&self) -> (b: bool) {
        (*self >= 0x80) && (*self <= 0x87)
    }
}

impl Bcf2Number for u16 {
    open spec fn missing(&self) -> bool {
        *self == 0x8000
    }

    open spec fn end_of_vector(&self) -> bool {
        *self == 0x8001
    }

    open spec fn reserved(&self) -> bool {
        0x8000 <= *self <= 0x8007
    }

    fn is_missing(&self) -> (b: bool) {
        *self == 0x8000
    }

    fn is_end_of_vector(&self) -> (b: bool) {
        *self == 0x8001
    }

    fn is_reserved_value(&self) -> (b: bool) {
        (*self >= 0x8000) && (*self <= 0x8007)
    }
}

impl Bcf2Number for u32 {
    open spec fn missing(&self) -> bool {
        *self == 0x8000_0000
    }

    open spec fn end_of_vector(&self) -> bool {
        *self == 0x8000_0001
    }

    open spec fn reserved(&self) -> bool {
        0x8000_0000 <= *self <= 0x8000_0007
    }

    fn is_missing(&self) -> (b: bool) {
        *self == 0x8000_0000
    }

    fn is_end_of_vector(&self) -> (b: bool) {
        *self == 0x8000_0001
    }

    fn is_reserved_value(&self) -> (b: bool) {
        (*self >= 0x8000_0000) && (*self <= 0x8000_0007)
    }
}

/// The four bytes of a stored single-precision number, held as the unsigned
/// integer with the same bits.
///
/// The float sentinels are NaN payloads, which only the bit pattern tells
/// apart, so it is the pattern that is kept and compared.
#[derive(Clone, Copy, Debug, PartialEq, Eq, Structural)]
pub struct F32Bits(pub u32);

impl Bcf2Number for F32Bits {
    open spec fn missing(&self) -> bool {
        self.0 == 0x7FC0_0000
    }

    open spec fn end_of_vector(&self) -> bool {
        self.0 == 0x7FC0_0001
    }

    open spec fn reserved(&self) -> bool {
        0x7FC0_0001 <= self.0 <= 0x7FC0_0007
    }

    fn is_missing(&self) -> (b: bool) {
        self.0 == 0x7FC0_0000
    }

    fn is_end_of_vector(&self) -> (b: bool) {
        self.0 == 0x7FC0_0001
    }

    fn is_reserved_value(&self) -> (b: bool) {
        (self.0 >= 0x7FC0_0001) && (self.0 <= 0x7FC0_0007)
    }
}

/// What a stored number turns out to be, once its pattern has been looked at.
#[derive(Debug, PartialEq, Eq)]
pub enum Decoded<T> {
    /// An ordinary number.
    Value(T),
    /// The value is missing.
    Missing,
    /// The vector ended before this position.
    EndOfVector,
    /// A pattern that the format keeps back and gives no meaning.
    Reserved(T),
}

/// The class of `x`, each pattern falling in exactly one: missing first,
/// then end of vector, then what is left of the reserved range, and every
/// other pattern an ordinary value.
pub open spec fn decoded<T: Bcf2Number>(x: T) -> Decoded<T> {
    if x.missing() {
        Decoded::Missing
    } else if x.end_of_vector() {
        Decoded::EndOfVector
    } else if x.reserved() {
        Decoded::Reserved(x)
    } else {
        Decoded::Value(x)
    }
}

/// Sorts a stored number into its class.
pub fn classify<T: Bcf2Number>(x: T) -> (d: Decoded<T>)
    ensures
        d == decoded(x),
{
    if x.is_missing() {
        Decoded::Missing
    } else if x.is_end_of_vector() {
        Decoded::EndOfVector
    } else if x.is_reserved_value() {
        Decoded::Reserved(x)
    } else {
        Decoded::Value(x)
    }
}

/// Every pattern of one byte falls in exactly one class.
pub proof fn lemma_classes_of_u8(x: u8)
    ensures
        decoded(x) is Missing <==> x == 0x80,
        decoded(x) is EndOfVector <==> x == 0x81,
        decoded(x) is Reserved <==> 0x82 <= x <= 0x87,
        decoded(x) is Value <==> !(0x80 <= x <= 0x87),
{
}

/// Every pattern of two bytes falls in exactly one class.
pub proof fn lemma_classes_of_u16(x: u16)
    ensures
        decoded(x) is Missing <==> x == 0x8000,
        decoded(x) is EndOfVector <==> x == 0x8001,
        decoded(x) is Reserved <==> 0x8002 <= x <= 0x8007,
        decoded(x) is Value <==> !(0x8000 <= x <= 0x8007),
{
}

/// Every integer pattern of four bytes falls in exactly one class.
pub proof fn lemma_classes_of_u32(x: u32)
    ensures
        decoded(x) is Missing <==> x == 0x8000_0000,
        decoded(x) is EndOfVector <==> x == 0x8000_0001,
        decoded(x) is Reserved <==> 0x8000_0002 <= x <= 0x8000_0007,
        decoded(x) is Value <==> !(0x8000_0000 <= x <= 0x8000_0007),
{
}

/// Every float pattern falls in exactly one class.
pub proof fn lemma_classes_of_f32(x: F32Bits)
    ensures
        decoded(x) is Missing <==> x.0 == 0x7FC0_0000,
        decoded(x) is EndOfVector <==> x.0 == 0x7FC0_0001,
        decoded(x) is Reserved <==> 0x7FC0_0002 <= x.0 <= 0x7FC0_0007,
        decoded(x) is Value <==> !(0x7FC0_0000 <= x.0 <= 0x7FC0_0007),
{
}

/// One element of a typed array of numbers, in the width in which it is
/// stored.
#[derive(Clone, Copy, Debug, PartialEq, Eq, Structural)]
pub enum NumbericValue {
    U8(u8),
    U16(u16),
    U32(u32),
    F32(F32Bits),
}

impl From<u8> for NumbericValue {
    fn from(value: u8) -> (r: Self) {
        NumbericValue::U8(value)
    }
}

impl vstd::std_specs::convert::FromSpecImpl<u8> for NumbericValue {
    open spec fn obeys_from_spec() -> bool {
        true
    }

    open spec fn from_spec(value: u8) -> Self {
        NumbericValue::U8(value)
    }
}

impl From<u16> for NumbericValue {
    fn from(value: u16) -> (r: Self) {
        NumbericValue::U16(value)
    }
}

impl vstd::std_specs::convert::FromSpecImpl<u16> for NumbericValue {
    open spec fn obeys_from_spec() -> bool {
        true
    }

    open spec fn from_spec(value: u16) -> Self {
        NumbericValue::U16(value)
    }
}

impl From<u32> for NumbericValue {
    fn from(value: u32) -> (r: Self) {
        NumbericValue::U32(value)
    }
}

impl vstd::std_specs::convert::FromSpecImpl<u32> for NumbericValue {
    open spec fn obeys_from_spec() -> bool {
        true
    }

    open spec fn from_spec(value: u32) -> Self {
        NumbericValue::U32(value)
    }
}

impl From<F32Bits> for NumbericValue {
    fn from(value: F32Bits) -> (r: Self) {
        NumbericValue::F32(value)
    }
}

impl vstd::std_specs::convert::FromSpecImpl<F32Bits> for NumbericValue {
    open spec fn obeys_from_spec() -> bool {
        true
    }

    open spec fn from_spec(value: F32Bits) -> Self {
        NumbericValue::F32(value)
    }
}

/// The raw integer that stands for the allele `allele` with the phase
/// `phased`: the allele's index plus one, shifted up by one bit, with the
/// phase in the lowest bit.
pub open spec fn genotype_code(allele: u32, phased: bool) -> u32
    recommends
        allele < 0x7FFF_FFFF,
{
    (((allele + 1) as u32) << 1) | (if phased {
        1u32
    } else {
        0u32
    })
}

/// What a raw genotype integer says of one ploidy slot: whether the slot is
/// absent, whether the allele is unknown, the phase, and the allele's index.
///
/// An absent integer is an absent slot. The integer of all ones is the
/// unknown allele. Of any other, the lowest bit is the phase and the rest,
/// less one, the index. Where no allele is told, the index is `u32::MAX`.
pub open spec fn genotype(raw: Option<u32>) -> (bool, bool, bool, u32) {
    match raw {
        None => (true, false, false, u32::MAX),
        Some(v) => {
            if v == u32::MAX {
                (false, true, false, u32::MAX)
            } else {
                (
                    false,
                    false,
                    v & 1 != 0,
                    if v >> 1 == 0 {
                        u32::MAX
                    } else {
                        ((v >> 1) - 1) as u32
                    },
                )
            }
        },
    }
}

impl NumbericValue {
    /// The value as an integer, widened to 32 bits, unless it is a float or
    /// the missing sentinel of its width.
    pub open spec fn int_of(self) -> Option<u32> {
        match self {
            NumbericValue::U8(x) => if x.missing() {
                None
            } else {
                Some(x as u32)
            },
            NumbericValue::U16(x) => if x.missing() {
                None
            } else {
                Some(x as u32)
            },
            NumbericValue::U32(x) => if x.missing() {
                None
            } else {
                Some(x)
            },
            NumbericValue::F32(_) => None,
        }
    }

    /// The value as a float, unless it is an integer or the missing
    /// sentinel.
    pub open spec fn float_of(self) -> Option<F32Bits> {
        match self {
            NumbericValue::F32(x) => if x.missing() {
                None
            } else {
                Some(x)
            },
            _ => None,
        }
    }

    /// The value as an integer unless missing.
    pub fn int_val(&self) -> (r: Option<u32>)
        ensures
            r == self.int_of(),
    {
        match *self {
            NumbericValue::U8(x) => if x.is_missing() {
                None
            } else {
                Some(x as u32)
            },
            NumbericValue::U16(x) => if x.is_missing() {
                None
            } else {
                Some(x as u32)
            },
            NumbericValue::U32(x) => if x.is_missing() {
                None
            } else {
                Some(x)
            },
            NumbericValue::F32(_) => None,
        }
    }

    /// The value as a float unless missing.
    pub fn float_val(&self) -> (r: Option<F32Bits>)
        ensures
            r == self.float_of(),
    {
        match *self {
            NumbericValue::F32(x) => if x.is_missing() {
                None
            } else {
                Some(x)
            },
            _ => None,
        }
    }

    /// The value read as a genotype: whether the ploidy slot is absent,
    /// whether the allele is unknown, the phase, and the allele's index.
    pub fn gt_val(&self) -> (r: (bool, bool, bool, u32))
        ensures
            r == genotype(self.int_of()),
    {
        match self.int_val() {
            None => (true, false, false, u32::MAX),
            Some(v) => {
                if v == u32::MAX {
                    (false, true, false, u32::MAX)
                } else {
                    let half = v >> 1;
                    let allele = if half == 0 {
                        u32::MAX
                    } else {
                        half - 1
                    };
                    (false, false, (v & 0x1) != 0, allele)
                }
            },
        }
    }
}

/// A value that holds the code of an allele below 2^30 and a phase reads
/// back as that allele and that phase, the slot present and the allele
/// known.
pub proof fn lemma_genotype_round_trip(value: NumbericValue, allele: u32, phased: bool)
    requires
        allele < 0x4000_0000,
        value.int_of() == Some(genotype_code(allele, phased)),
    ensures
        genotype(value.int_of()) == (false, false, phased, allele),
{
    let bit = if phased {
        1u32
    } else {
        0u32
    };
    let up = (allele + 1) as u32;
    let v = (up << 1) | bit;
    assert(v != 0xFFFF_FFFF && (v & 1 != 0) == (bit == 1) && v >> 1 == up) by (bit_vector)
        requires
            up <= 0x4000_0000,
            bit <= 1,
            v == (up << 1) | bit,
    ;
}

/// The law for the widest integers: every allele below 2^30 with either
/// phase reads back from its code, but for the one code that is the missing
/// sentinel, that of the allele 2^30 - 1 without phase. The missing
/// sentinel of each width is an absent slot, and the integer of all ones is
/// the unknown allele.
pub proof fn lemma_genotype_law(allele: u32, phased: bool)
    requires
        allele < 0x4000_0000,
        !(allele == 0x3FFF_FFFF && !phased),
    ensures
        genotype(NumbericValue::U32(genotype_code(allele, phased)).int_of()) == (
            false,
            false,
            phased,
            allele,
        ),
        genotype(NumbericValue::U8(0x80).int_of()) == (true, false, false, u32::MAX),
        genotype(NumbericValue::U16(0x8000).int_of()) == (true, false, false, u32::MAX),
        genotype(NumbericValue::U32(0x8000_0000).int_of()) == (true, false, false, u32::MAX),
        genotype(NumbericValue::U32(0xFFFF_FFFF).int_of()) == (false, true, false, u32::MAX),
{
    let bit = if phased {
        1u32
    } else {
        0u32
    };
    let up = (allele + 1) as u32;
    let v = (up << 1) | bit;
    assert(v != 0x8000_0000) by (bit_vector)
        requires
            up <= 0x4000_0000,
            bit <= 1,
            !(up == 0x4000_0000 && bit == 0),
            v == (up << 1) | bit,
    ;
    lemma_genotype_round_trip(NumbericValue::U32(v), allele, phased);
}

} // verus!
