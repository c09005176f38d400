use bcf2::{
    classify, iter_typed_integers, Bcf2Error, Bcf2Number, Decoded, F32Bits, NumberIter,
    NumbericValue,
};

#[test]
fn sentinels_of_one_byte() {
    assert_eq!(classify(0x7Fu8), Decoded::Value(0x7F));
    assert_eq!(classify(0x80u8), Decoded::Missing);
    assert_eq!(classify(0x81u8), Decoded::EndOfVector);
    assert_eq!(classify(0x82u8), Decoded::Reserved(0x82));
    assert_eq!(classify(0x87u8), Decoded::Reserved(0x87));
    assert_eq!(classify(0x88u8), Decoded::Value(0x88));
    assert!(0x80u8.is_missing() && !0x81u8.is_missing() && !0x7Fu8.is_missing());
    assert!(0x81u8.is_end_of_vector() && !0x80u8.is_end_of_vector());
    assert!(0x80u8.is_reserved_value() && 0x87u8.is_reserved_value());
    assert!(!0x7Fu8.is_reserved_value() && !0x88u8.is_reserved_value());
}

#[test]
fn sentinels_of_two_bytes() {
    assert_eq!(classify(0x7FFFu16), Decoded::Value(0x7FFF));
    assert_eq!(classify(0x8000u16), Decoded::Missing);
    assert_eq!(classify(0x8001u16), Decoded::EndOfVector);
    assert_eq!(classify(0x8002u16), Decoded::Reserved(0x8002));
    assert_eq!(classify(0x8007u16), Decoded::Reserved(0x8007));
    assert_eq!(classify(0x8008u16), Decoded::Value(0x8008));
    assert_eq!(classify(0x0080u16), Decoded::Value(0x0080));
    assert!(0x8000u16.is_missing() && !0x8001u16.is_missing());
    assert!(0x8001u16.is_end_of_vector() && !0x8000u16.is_end_of_vector());
    assert!(0x8000u16.is_reserved_value() && 0x8007u16.is_reserved_value());
    assert!(!0x7FFFu16.is_reserved_value() && !0x8008u16.is_reserved_value());
}

#[test]
fn sentinels_of_four_bytes() {
    assert_eq!(classify(0x7FFF_FFFFu32), Decoded::Value(0x7FFF_FFFF));
    assert_eq!(classify(0x8000_0000u32), Decoded::Missing);
    assert_eq!(classify(0x8000_0001u32), Decoded::EndOfVector);
    assert_eq!(classify(0x8000_0002u32), Decoded::Reserved(0x8000_0002));
    assert_eq!(classify(0x8000_0007u32), Decoded::Reserved(0x8000_0007));
    assert_eq!(classify(0x8000_0008u32), Decoded::Value(0x8000_0008));
    assert!(0x8000_0000u32.is_missing() && !0x8000_0001u32.is_missing());
    assert!(0x8000_0001u32.is_end_of_vector() && !0x8000_0000u32.is_end_of_vector());
    assert!(0x8000_0000u32.is_reserved_value() && 0x8000_0007u32.is_reserved_value());
    assert!(!0x7FFF_FFFFu32.is_reserved_value() && !0x8000_0008u32.is_reserved_value());
}

#[test]
fn sentinels_of_floats_go_by_the_bit_pattern() {
    let one = F32Bits(1.0f32.to_bits());
    assert_eq!(classify(one), Decoded::Value(one));
    assert_eq!(classify(F32Bits(0x7FC0_0000)), Decoded::Missing);
    assert_eq!(classify(F32Bits(0x7FC0_0001)), Decoded::EndOfVector);
    assert_eq!(classify(F32Bits(0x7FC0_0002)), Decoded::Reserved(F32Bits(0x7FC0_0002)));
    assert_eq!(classify(F32Bits(0x7FC0_0007)), Decoded::Reserved(F32Bits(0x7FC0_0007)));
    assert_eq!(classify(F32Bits(0x7FC0_0008)), Decoded::Value(F32Bits(0x7FC0_0008)));
    assert!(F32Bits(0x7FC0_0000).is_missing());
    assert!(!F32Bits(0x7FC0_0000).is_end_of_vector());
    assert!(!F32Bits(0x7FC0_0000).is_reserved_value());
    assert!(F32Bits(0x7FC0_0001).is_end_of_vector());
    assert!(F32Bits(0x7FC0_0001).is_reserved_value());
    assert!(F32Bits(0x7FC0_0007).is_reserved_value());
    assert!(!F32Bits(0x7FC0_0008).is_reserved_value());
    // the number 2143289344.0 converts to the integer 0x7FC00000, but its
    // bits are not the sentinel's
    let big = F32Bits(2143289344.0f32.to_bits());
    assert!(!big.is_missing());
    assert_eq!(classify(big), Decoded::Value(big));
}

#[test]
fn int_val_is_absent_for_missing_and_for_floats() {
    assert_eq!(NumbericValue::U8(0x7F).int_val(), Some(0x7F));
    assert_eq!(NumbericValue::U8(0xFF).int_val(), Some(0xFF));
    assert_eq!(NumbericValue::U8(0x81).int_val(), Some(0x81));
    assert_eq!(NumbericValue::U8(0x80).int_val(), None);
    assert_eq!(NumbericValue::U16(0x8000).int_val(), None);
    assert_eq!(NumbericValue::U16(0x0080).int_val(), Some(0x80));
    assert_eq!(NumbericValue::U32(0x8000_0000).int_val(), None);
    assert_eq!(NumbericValue::U32(0x8000).int_val(), Some(0x8000));
    assert_eq!(NumbericValue::F32(F32Bits(5)).int_val(), None);
}

#[test]
fn float_val_is_absent_for_missing_and_for_integers() {
    let half = F32Bits(0.5f32.to_bits());
    assert_eq!(NumbericValue::F32(half).float_val(), Some(half));
    assert_eq!(NumbericValue::F32(F32Bits(0x7FC0_0001)).float_val(), Some(F32Bits(0x7FC0_0001)));
    assert_eq!(NumbericValue::F32(F32Bits(0x7FC0_0000)).float_val(), None);
    assert_eq!(NumbericValue::U32(0x3F00_0000).float_val(), None);
    assert_eq!(NumbericValue::U8(1).float_val(), None);
}

#[test]
fn values_are_made_from_their_widths() {
    assert_eq!(NumbericValue::from(7u8), NumbericValue::U8(7));
    assert_eq!(NumbericValue::from(7u16), NumbericValue::U16(7));
    assert_eq!(NumbericValue::from(7u32), NumbericValue::U32(7));
    assert_eq!(NumbericValue::from(F32Bits(7)), NumbericValue::F32(F32Bits(7)));
}

#[test]
fn genotype_of_an_encoded_allele() {
    for allele in [0u32, 1, 2, 17, 1000, 0x3FFF_FFFE, 0x3FFF_FFFF] {
        for phase in [0u32, 1] {
            if allele == 0x3FFF_FFFF && phase == 0 {
                continue;
            }
            let code = ((allele + 1) << 1) | phase;
            assert_eq!(
                NumbericValue::U32(code).gt_val(),
                (false, false, phase == 1, allele)
            );
        }
    }
    assert_eq!(NumbericValue::U8(2).gt_val(), (false, false, false, 0));
    assert_eq!(NumbericValue::U8(5).gt_val(), (false, false, true, 1));
    assert_eq!(NumbericValue::U8(0xFF).gt_val(), (false, false, true, 126));
    assert_eq!(NumbericValue::U16(0x0104).gt_val(), (false, false, false, 129));
    assert_eq!(NumbericValue::U16(0xFFFF).gt_val(), (false, false, true, 0x7FFE));
}

#[test]
fn genotype_of_the_code_that_is_the_missing_sentinel() {
    // the allele 2^30 - 1 without phase has the code 0x8000_0000
    let code = ((0x3FFF_FFFFu32 + 1) << 1) | 0;
    assert_eq!(code, 0x8000_0000);
    assert_eq!(NumbericValue::U32(code).gt_val(), (true, false, false, u32::MAX));
}

#[test]
fn genotype_of_missing_and_unknown() {
    assert_eq!(NumbericValue::U8(0x80).gt_val(), (true, false, false, u32::MAX));
    assert_eq!(NumbericValue::U16(0x8000).gt_val(), (true, false, false, u32::MAX));
    assert_eq!(NumbericValue::U32(0x8000_0000).gt_val(), (true, false, false, u32::MAX));
    assert_eq!(NumbericValue::F32(F32Bits(4)).gt_val(), (true, false, false, u32::MAX));
    assert_eq!(NumbericValue::U32(0xFFFF_FFFF).gt_val(), (false, true, false, u32::MAX));
}

#[test]
fn genotype_of_the_codes_below_the_first_allele() {
    assert_eq!(NumbericValue::U8(0).gt_val(), (false, false, false, u32::MAX));
    assert_eq!(NumbericValue::U8(1).gt_val(), (false, false, true, u32::MAX));
    assert_eq!(NumbericValue::U32(0).gt_val(), (false, false, false, u32::MAX));
}

#[test]
fn sequence_yields_its_count_and_stops() {
    let bytes = [1u8, 2, 3, 4, 5, 6, 7, 8, 9];
    for k in 0usize..=9 {
        let mut it = iter_typed_integers(1, k, &bytes).unwrap();
        assert_eq!(it.remaining(), k);
        for i in 0..k {
            assert_eq!(it.next(), Some(NumbericValue::U8(bytes[i])));
        }
        assert_eq!(it.next(), None);
        assert_eq!(it.next(), None);
        assert_eq!(it.remaining(), 0);
    }
}

#[test]
fn sequence_built_again_yields_the_same() {
    let bytes = [0x01u8, 0x80, 0x00, 0x80, 0xFF, 0xFF, 0x99];
    let first = iter_typed_integers(2, 3, &bytes).unwrap().collect();
    let second = iter_typed_integers(2, 3, &bytes).unwrap().collect();
    assert_eq!(
        first,
        vec![NumbericValue::U16(0x8001), NumbericValue::U16(0x8000), NumbericValue::U16(0xFFFF)]
    );
    assert_eq!(first, second);
    // a sequence that has been stepped does not disturb a fresh one
    let mut stepped = iter_typed_integers(2, 3, &bytes).unwrap();
    assert_eq!(stepped.next(), Some(NumbericValue::U16(0x8001)));
    let fresh = iter_typed_integers(2, 3, &bytes).unwrap();
    assert_eq!(fresh.collect(), first);
    assert_eq!(stepped.collect(), first[1..].to_vec());
}

#[test]
fn sequence_of_four_byte_integers_and_floats() {
    let bytes = [0x78u8, 0x56, 0x34, 0x12, 0x00, 0x00, 0xC0, 0x7F];
    let ints = iter_typed_integers(3, 2, &bytes).unwrap().collect();
    assert_eq!(ints, vec![NumbericValue::U32(0x1234_5678), NumbericValue::U32(0x7FC0_0000)]);
    let floats = iter_typed_integers(5, 2, &bytes).unwrap().collect();
    assert_eq!(
        floats,
        vec![NumbericValue::F32(F32Bits(0x1234_5678)), NumbericValue::F32(F32Bits(0x7FC0_0000))]
    );
    assert_eq!(floats[0].float_val(), Some(F32Bits(0x1234_5678)));
    assert_eq!(floats[1].float_val(), None);
}

#[test]
fn sequence_of_the_type_0_is_empty() {
    let bytes = [1u8, 2, 3];
    let mut it = iter_typed_integers(0, 5, &bytes).unwrap();
    assert_eq!(it.remaining(), 0);
    assert_eq!(it.next(), None);
    let mut it = iter_typed_integers(0, 5, &[]).unwrap();
    assert_eq!(it.next(), None);
}

#[test]
fn sequence_over_too_few_bytes_is_a_stream_error() {
    let bytes = [1u8, 2, 3, 4, 5, 6, 7];
    assert!(matches!(iter_typed_integers(1, 8, &bytes), Err(Bcf2Error::Stream)));
    assert!(matches!(iter_typed_integers(2, 4, &bytes), Err(Bcf2Error::Stream)));
    assert!(matches!(iter_typed_integers(3, 2, &bytes), Err(Bcf2Error::Stream)));
    assert!(matches!(iter_typed_integers(5, 2, &bytes), Err(Bcf2Error::Stream)));
    assert!(matches!(iter_typed_integers(3, usize::MAX, &bytes), Err(Bcf2Error::Stream)));
    assert!(iter_typed_integers(1, 7, &bytes).is_ok());
    assert!(iter_typed_integers(2, 3, &bytes).is_ok());
    assert!(iter_typed_integers(3, 1, &bytes).is_ok());
}

#[test]
fn sequence_of_a_type_without_numbers_is_a_format_error() {
    let bytes = [1u8, 2, 3, 4];
    for typ in [4u8, 6, 7, 8, 200] {
        assert!(matches!(iter_typed_integers(typ, 1, &bytes), Err(Bcf2Error::Format)));
        assert!(matches!(iter_typed_integers(typ, 5, &bytes), Err(Bcf2Error::Format)));
    }
}

#[test]
fn sequence_without_elements_is_empty_whatever_its_type() {
    let bytes = [1u8, 2, 3, 4];
    for typ in [0u8, 1, 2, 3, 4, 5, 6, 7, 8, 200] {
        let mut it = iter_typed_integers(typ, 0, &bytes).unwrap();
        assert_eq!(it.remaining(), 0);
        assert_eq!(it.next(), None);
        assert_eq!(iter_typed_integers(typ, 0, &[]).unwrap().collect(), vec![]);
    }
}

#[test]
fn default_sequence_is_empty() {
    let mut it = NumberIter::default();
    assert_eq!(it.remaining(), 0);
    assert_eq!(it.next(), None);
    assert_eq!(NumberIter::default().collect(), vec![]);
}
