use bcf2::{read_header, ByteReader, Header, NumbericValue, ReadStatus, Record};

fn stream_of(text: &str, records: &[Vec<u8>]) -> Vec<u8> {
    let mut stream = b"BCF\x02\x02".to_vec();
    stream.extend_from_slice(&(text.len() as u32).to_le_bytes());
    stream.extend_from_slice(text.as_bytes());
    for r in records {
        stream.extend_from_slice(r);
    }
    stream
}

const TEXT: &str = "##fileformat=VCFv4.2\n\
                    ##contig=<ID=chr1,length=100>\n\
                    ##FORMAT=<ID=GT,Number=1,Type=String>\n\
                    #CHROM\tPOS\tID\tREF\tALT\tQUAL\tFILTER\tINFO\tS1\tS2\n\0";

/// A record at position `pos` with the genotypes `gt`, two for each of two
/// samples, under the key 1.
fn record_with_genotypes(pos: i32, gt: [u8; 4]) -> Vec<u8> {
    let mut shared = Vec::new();
    shared.extend_from_slice(&0i32.to_le_bytes());
    shared.extend_from_slice(&pos.to_le_bytes());
    shared.extend_from_slice(&1i32.to_le_bytes());
    shared.extend_from_slice(&0x7FC0_0000u32.to_le_bytes());
    shared.extend_from_slice(&0u16.to_le_bytes());
    shared.extend_from_slice(&2u16.to_le_bytes());
    shared.extend_from_slice(&((1u32 << 24) | 2).to_le_bytes());
    shared.extend_from_slice(&[0x07, 0x17, b'A', 0x17, b'G', 0x00]);
    let mut indiv = vec![0x11, 0x01, 0x21];
    indiv.extend_from_slice(&gt);
    let mut r = Vec::new();
    r.extend_from_slice(&(shared.len() as u32).to_le_bytes());
    r.extend_from_slice(&(indiv.len() as u32).to_le_bytes());
    r.extend_from_slice(&shared);
    r.extend_from_slice(&indiv);
    r
}

#[test]
fn stream_without_records() {
    let stream = stream_of(TEXT, &[]);
    let mut reader = ByteReader::new(&stream);
    let text = read_header(&mut reader).unwrap();
    assert_eq!(text, TEXT);
    let header = Header::from_string(&text).unwrap();
    assert_eq!(header.get_chrname(0), Some("chr1"));
    assert_eq!(header.get_samples(), &vec!["S1".to_string(), "S2".to_string()]);
    assert_eq!(header.get_dict_strings().len(), 2);
    assert_eq!(header.get_dict_strings()[0].get("ID"), Some("PASS"));
    assert_eq!(header.get_dict_strings()[1].get("ID"), Some("GT"));
    assert_eq!(header.get_dict_strings()[1].get("Dictionary"), Some("FORMAT"));
    assert_eq!(header.get_fmt_gt_id(), 1);
    let mut record = Record::default();
    assert_eq!(record.read(&mut reader), Ok(ReadStatus::EndOfStream));
}

#[test]
fn test_read_gt() {
    let records = vec![
        record_with_genotypes(10, [2, 2, 2, 4]),
        record_with_genotypes(20, [4, 5, 0x80, 0x81]),
        record_with_genotypes(30, [2, 3, 2, 3]),
    ];
    let stream = stream_of(TEXT, &records);
    let mut reader = ByteReader::new(&stream);
    let s = read_header(&mut reader).unwrap();
    let header = Header::from_string(&s).unwrap();
    let mut record = Record::default();

    let mut cnt0 = 0;
    let mut cnt1 = 0;
    let mut cnt2 = 0;
    let mut missing = 0;
    while let Ok(ReadStatus::Record) = record.read(&mut reader) {
        cnt2 += 1;
        let mut it = record.gt(&header).unwrap();
        while let Some(bn) = it.next() {
            let (no_ploidy, _dot, _phased, allele) = bn.gt_val();
            if no_ploidy {
                missing += 1;
            } else if allele == 0 {
                cnt0 += 1;
            } else {
                cnt1 += 1;
            }
        }
    }
    assert_eq!(cnt2, 3);
    assert_eq!(cnt0, 7);
    assert_eq!(cnt1, 4);
    assert_eq!(missing, 1);
    assert_eq!(record.site().pos, 30);
    assert_eq!(reader.remaining(), 0);
}

#[test]
fn end_of_vector_is_an_ordinary_integer_to_the_genotype() {
    assert_eq!(NumbericValue::U8(0x81).gt_val(), (false, false, true, 63));
}
