use bcf2::{
    bcf2_typ_width, read_header, read_single_typed_integer, read_typed_descriptor_bytes,
    read_typed_string, Bcf2Error, ByteRange, ByteReader,
};

#[test]
fn width_of_every_defined_type() {
    assert_eq!(bcf2_typ_width(0), Ok(0));
    assert_eq!(bcf2_typ_width(1), Ok(1));
    assert_eq!(bcf2_typ_width(2), Ok(2));
    assert_eq!(bcf2_typ_width(3), Ok(4));
    assert_eq!(bcf2_typ_width(5), Ok(4));
    assert_eq!(bcf2_typ_width(7), Ok(1));
}

#[test]
fn width_of_an_undefined_type_is_a_format_error() {
    for typ in [4u8, 6, 8, 9, 15, 16, 255] {
        assert_eq!(bcf2_typ_width(typ), Err(Bcf2Error::Format));
    }
}

#[test]
fn descriptor_round_trip() {
    for typ in [1u8, 2, 3, 5, 7] {
        for count in 0u8..=14 {
            let bytes = [(count << 4) | typ, 0xAA];
            let mut reader = ByteReader::new(&bytes);
            assert_eq!(read_typed_descriptor_bytes(&mut reader), Ok((typ, count as usize)));
            assert_eq!(reader.position(), 1);
        }
    }
}

#[test]
fn descriptor_with_count_15_reads_the_count_behind_it() {
    // count as one byte
    let bytes = [0xF7, 0x11, 20];
    let mut reader = ByteReader::new(&bytes);
    assert_eq!(read_typed_descriptor_bytes(&mut reader), Ok((7, 20)));
    assert_eq!(reader.position(), 3);
    // count as two bytes
    let bytes = [0xF1, 0x12, 0x2C, 0x01];
    let mut reader = ByteReader::new(&bytes);
    assert_eq!(read_typed_descriptor_bytes(&mut reader), Ok((1, 300)));
    assert_eq!(reader.position(), 4);
    // count as four bytes
    let bytes = [0xF2, 0x13, 0xA0, 0x86, 0x01, 0x00];
    let mut reader = ByteReader::new(&bytes);
    assert_eq!(read_typed_descriptor_bytes(&mut reader), Ok((2, 100_000)));
    assert_eq!(reader.position(), 6);
}

#[test]
fn descriptor_errors_leave_the_reader_in_place() {
    let mut reader = ByteReader::new(&[]);
    assert_eq!(read_typed_descriptor_bytes(&mut reader), Err(Bcf2Error::Stream));
    // count 15, but the count integer is cut short
    let bytes = [0xF7, 0x12, 0x01];
    let mut reader = ByteReader::new(&bytes);
    assert_eq!(read_typed_descriptor_bytes(&mut reader), Err(Bcf2Error::Stream));
    assert_eq!(reader.position(), 0);
    // count 15, but the count is a vector of two
    let bytes = [0xF7, 0x21, 1, 2];
    let mut reader = ByteReader::new(&bytes);
    assert_eq!(read_typed_descriptor_bytes(&mut reader), Err(Bcf2Error::Invariant));
    assert_eq!(reader.position(), 0);
}

#[test]
fn single_typed_integer_in_each_width() {
    let bytes = [0x11, 0xFE];
    let mut reader = ByteReader::new(&bytes);
    assert_eq!(read_single_typed_integer(&mut reader), Ok(0xFE));
    assert_eq!(reader.position(), 2);

    let bytes = [0x12, 0x34, 0x12];
    let mut reader = ByteReader::new(&bytes);
    assert_eq!(read_single_typed_integer(&mut reader), Ok(0x1234));
    assert_eq!(reader.position(), 3);

    let bytes = [0x13, 0x78, 0x56, 0x34, 0x12];
    let mut reader = ByteReader::new(&bytes);
    assert_eq!(read_single_typed_integer(&mut reader), Ok(0x1234_5678));
    assert_eq!(reader.position(), 5);
}

#[test]
fn single_typed_integer_is_not_sign_extended() {
    let bytes = [0x12, 0xFF, 0xFF];
    let mut reader = ByteReader::new(&bytes);
    assert_eq!(read_single_typed_integer(&mut reader), Ok(0xFFFF));
}

#[test]
fn single_typed_integer_rejects_other_counts_and_types() {
    for first in [0x01u8, 0x21, 0xE1] {
        let bytes = [first, 1, 2, 3, 4, 5, 6, 7, 8, 9, 10, 11, 12, 13, 14];
        let mut reader = ByteReader::new(&bytes);
        assert_eq!(read_single_typed_integer(&mut reader), Err(Bcf2Error::Invariant));
        assert_eq!(reader.position(), 0);
    }
    for first in [0x10u8, 0x15, 0x17, 0x14] {
        let bytes = [first, 1, 2, 3, 4];
        let mut reader = ByteReader::new(&bytes);
        assert_eq!(read_single_typed_integer(&mut reader), Err(Bcf2Error::Invariant));
        assert_eq!(reader.position(), 0);
    }
}

#[test]
fn single_typed_integer_cut_short_is_a_stream_error() {
    let bytes = [0x13, 0x78, 0x56];
    let mut reader = ByteReader::new(&bytes);
    assert_eq!(read_single_typed_integer(&mut reader), Err(Bcf2Error::Stream));
    assert_eq!(reader.position(), 0);
}

#[test]
fn typed_string_is_appended_to_the_buffer() {
    let bytes = [0x37, b'r', b's', b'1', 0x07, 0x99];
    let mut reader = ByteReader::new(&bytes);
    let mut buffer = vec![b'>'];
    assert_eq!(read_typed_string(&mut reader, &mut buffer), Ok(3));
    assert_eq!(buffer, b">rs1".to_vec());
    assert_eq!(reader.position(), 4);
    // a missing string has the length 0
    assert_eq!(read_typed_string(&mut reader, &mut buffer), Ok(0));
    assert_eq!(buffer, b">rs1".to_vec());
    assert_eq!(reader.position(), 5);
}

#[test]
fn typed_string_errors_change_nothing() {
    // not a string
    let bytes = [0x31, 1, 2, 3];
    let mut reader = ByteReader::new(&bytes);
    let mut buffer = vec![1u8, 2];
    assert_eq!(read_typed_string(&mut reader, &mut buffer), Err(Bcf2Error::Format));
    assert_eq!(buffer, vec![1u8, 2]);
    assert_eq!(reader.position(), 0);
    // cut short
    let bytes = [0x37, b'a', b'b'];
    let mut reader = ByteReader::new(&bytes);
    assert_eq!(read_typed_string(&mut reader, &mut buffer), Err(Bcf2Error::Stream));
    assert_eq!(buffer, vec![1u8, 2]);
    assert_eq!(reader.position(), 0);
}

#[test]
fn reader_reads_little_endian() {
    let bytes = [0x01, 0x02, 0x03, 0x04, 0x05, 0x06, 0xFE, 0xFF, 0xFF, 0xFF, 0x09];
    let mut reader = ByteReader::new(&bytes);
    assert_eq!(reader.read_u16(), Ok(0x0201));
    assert_eq!(reader.read_u32(), Ok(0x0605_0403));
    assert_eq!(reader.read_i32(), Ok(-2));
    assert_eq!(reader.read_u8(), Ok(0x09));
    assert_eq!(reader.remaining(), 0);
    assert_eq!(reader.read_u8(), Err(Bcf2Error::Stream));
    assert_eq!(reader.position(), 11);
}

#[test]
fn reader_does_not_move_on_a_short_read() {
    let bytes = [1u8, 2, 3];
    let mut reader = ByteReader::new(&bytes);
    assert_eq!(reader.read_u32(), Err(Bcf2Error::Stream));
    assert_eq!(reader.read_i32(), Err(Bcf2Error::Stream));
    assert_eq!(reader.position(), 0);
    assert_eq!(reader.read_u16(), Ok(0x0201));
    assert_eq!(reader.read_u16(), Err(Bcf2Error::Stream));
    assert_eq!(reader.position(), 2);
    assert_eq!(reader.skip(2), Err(Bcf2Error::Stream));
    assert_eq!(reader.skip(1), Ok(ByteRange { start: 2, end: 3 }));
    assert_eq!(reader.skip(0), Ok(ByteRange { start: 3, end: 3 }));
}

#[test]
fn reader_reads_bytes_and_seeks() {
    let bytes = [10u8, 20, 30, 40];
    let mut reader = ByteReader::new(&bytes);
    assert_eq!(reader.read_bytes(3), Ok(&bytes[0..3]));
    assert_eq!(reader.read_bytes(2), Err(Bcf2Error::Stream));
    reader.seek(1);
    assert_eq!(reader.position(), 1);
    assert_eq!(reader.read_u8(), Ok(20));
}

fn stream_with_text(text: &[u8]) -> Vec<u8> {
    let mut stream = b"BCF\x02\x02".to_vec();
    stream.extend_from_slice(&(text.len() as u32).to_le_bytes());
    stream.extend_from_slice(text);
    stream
}

#[test]
fn header_text_is_read_behind_the_preamble() {
    let mut stream = stream_with_text("##x=<ID=\u{00e9}>\n\0".as_bytes());
    stream.push(0xEE);
    let mut reader = ByteReader::new(&stream);
    assert_eq!(read_header(&mut reader), Ok("##x=<ID=\u{00e9}>\n\0".to_string()));
    assert_eq!(reader.position(), stream.len() - 1);
}

#[test]
fn header_with_wrong_magic_or_version_is_a_format_error() {
    let good = stream_with_text(b"abc");
    for (at, byte) in [(0usize, b'V'), (1, b'c'), (2, b'G'), (3, 1u8), (4, 1), (4, 3)] {
        let mut stream = good.clone();
        stream[at] = byte;
        let mut reader = ByteReader::new(&stream);
        assert_eq!(read_header(&mut reader), Err(Bcf2Error::Format));
        assert_eq!(reader.position(), 0);
    }
}

#[test]
fn header_cut_short_is_a_stream_error() {
    let good = stream_with_text(b"abc");
    for len in 0..good.len() {
        let mut reader = ByteReader::new(&good[..len]);
        assert_eq!(read_header(&mut reader), Err(Bcf2Error::Stream));
        assert_eq!(reader.position(), 0);
    }
}

#[test]
fn header_text_that_is_not_utf8_is_a_format_error() {
    let stream = stream_with_text(&[b'a', 0xFF, b'b']);
    let mut reader = ByteReader::new(&stream);
    assert_eq!(read_header(&mut reader), Err(Bcf2Error::Format));
    assert_eq!(reader.position(), 0);
}
