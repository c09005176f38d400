use bcf2::{pair_of, parse_attributes, parse_line, Bcf2Error, Header, HeaderLine};

fn chars(s: &str) -> Vec<char> {
    s.chars().collect()
}

const COLUMNS: &str = "#CHROM\tPOS\tID\tREF\tALT\tQUAL\tFILTER\tINFO";

#[test]
fn default_header_has_the_pass_filter() {
    let h = Header::from_string("").unwrap();
    assert_eq!(h.get_dict_strings().len(), 1);
    let pass = &h.get_dict_strings()[0];
    assert_eq!(pass.get("Dictionary"), Some("FILTER"));
    assert_eq!(pass.get("ID"), Some("PASS"));
    assert_eq!(pass.get("Description"), Some("\"All filters passed\""));
    assert_eq!(pass.get("Number"), None);
    assert_eq!(h.get_contigs().len(), 0);
    assert_eq!(h.get_samples().len(), 0);
    assert_eq!(h.get_fmt_gt_id(), 0);
    assert_eq!(h.get_chrname(0), None);
}

#[test]
fn explicit_pass_filter_is_not_held_twice() {
    let text = "##FILTER=<ID=PASS,Description=\"All filters passed\">\n\
                ##FILTER=<ID=q10,Description=\"Quality below 10\">\n\
                ##FILTER=<ID=PASS,Description=\"again\">\n";
    let h = Header::from_string(text).unwrap();
    let dict = h.get_dict_strings();
    assert_eq!(dict.len(), 2);
    let passes = dict
        .iter()
        .filter(|e| e.get("Dictionary") == Some("FILTER") && e.get("ID") == Some("PASS"))
        .count();
    assert_eq!(passes, 1);
    assert_eq!(dict[0].get("ID"), Some("PASS"));
    assert_eq!(dict[0].get("Description"), Some("\"All filters passed\""));
    assert_eq!(dict[1].get("ID"), Some("q10"));
    assert_eq!(dict[1].get("Dictionary"), Some("FILTER"));
    assert_eq!(dict[1].get("Description"), Some("Quality below 10"));
}

#[test]
fn pass_of_another_dictionary_is_kept() {
    let h = Header::from_string("##INFO=<ID=PASS,Number=1>\n##FILTER=<Description=x>").unwrap();
    let dict = h.get_dict_strings();
    assert_eq!(dict.len(), 3);
    assert_eq!(dict[1].get("Dictionary"), Some("INFO"));
    assert_eq!(dict[1].get("ID"), Some("PASS"));
    assert_eq!(dict[2].get("Dictionary"), Some("FILTER"));
    assert_eq!(dict[2].get("ID"), None);
}

#[test]
fn contigs_and_samples_keep_their_order() {
    let text = format!(
        "##contig=<ID=chr1,length=100>\n##contig=<ID=chr2,length=200>\n{}\tS1\tS2\n",
        COLUMNS
    );
    let h = Header::from_string(&text).unwrap();
    assert_eq!(h.get_chrname(0), Some("chr1"));
    assert_eq!(h.get_chrname(1), Some("chr2"));
    assert_eq!(h.get_chrname(2), None);
    assert_eq!(h.get_contigs().len(), 2);
    assert_eq!(h.get_contigs()[1].get("length"), Some("200"));
    assert_eq!(h.get_contigs()[0].get("Dictionary"), None);
    assert_eq!(h.get_samples(), &vec!["S1".to_string(), "S2".to_string()]);
    assert_eq!(h.get_dict_strings().len(), 1);
}

#[test]
fn contig_without_an_id_has_no_name() {
    let h = Header::from_string("##contig=<length=100>").unwrap();
    assert_eq!(h.get_contigs().len(), 1);
    assert_eq!(h.get_chrname(0), None);
}

#[test]
fn column_line_without_samples() {
    let h = Header::from_string(COLUMNS).unwrap();
    assert_eq!(h.get_samples().len(), 0);
    let h = Header::from_string("#CHROM\tPOS").unwrap();
    assert_eq!(h.get_samples().len(), 0);
    // the white space at the end of the text goes before the lines are cut
    let h = Header::from_string(&format!("{}\t", COLUMNS)).unwrap();
    assert_eq!(h.get_samples().len(), 0);
    let h = Header::from_string(&format!("{}\t\n##source", COLUMNS)).unwrap();
    assert_eq!(h.get_samples(), &vec![String::new()]);
}

#[test]
fn genotype_index_is_the_position_of_format_gt() {
    let text = format!(
        "##fileformat=VCFv4.2\n\
         ##INFO=<ID=DP,Number=1,Type=Integer,Description=\"Total, depth=all\">\n\
         ##contig=<ID=chr1,length=100>\n\
         ##FORMAT=<ID=AD,Number=R,Type=Integer>\n\
         ##FORMAT=<ID=GT,Number=1,Type=String>\n\
         ##INFO=<ID=GT,Number=1>\n\
         {}\tS1\n",
        COLUMNS
    );
    let h = Header::from_string(&text).unwrap();
    let dict = h.get_dict_strings();
    assert_eq!(dict.len(), 5);
    assert_eq!(h.get_fmt_gt_id(), 3);
    assert_eq!(dict[1].get("ID"), Some("DP"));
    assert_eq!(dict[1].len(), 5);
    assert_eq!(dict[1].pairs()[4], ("Dictionary".to_string(), "INFO".to_string()));
    assert_eq!(dict[1].get("Description"), Some("Total, depth=all"));
    assert_eq!(dict[1].get("Type"), Some("Integer"));
    assert_eq!(dict[3].get("Dictionary"), Some("FORMAT"));
    assert_eq!(dict[3].get("ID"), Some("GT"));
    assert_eq!(dict[4].get("Dictionary"), Some("INFO"));
}

#[test]
fn genotype_index_is_that_of_the_last_format_gt() {
    let text = "##FORMAT=<ID=GT,Number=1>\n##INFO=<ID=X>\n##FORMAT=<ID=GT,Number=2>\n";
    let h = Header::from_string(text).unwrap();
    assert_eq!(h.get_fmt_gt_id(), 3);
}

#[test]
fn index_attribute_does_not_move_an_entry() {
    let text = "##INFO=<ID=A,IDX=7>\n##INFO=<ID=B,IDX=1>\n";
    let h = Header::from_string(text).unwrap();
    let dict = h.get_dict_strings();
    assert_eq!(dict[1].get("ID"), Some("A"));
    assert_eq!(dict[1].get("IDX"), Some("7"));
    assert_eq!(dict[2].get("ID"), Some("B"));
}

#[test]
fn trailing_nuls_and_blank_lines_are_dropped() {
    let text = "\n  \n##contig=<ID=1>\n\n\t\n##contig=<ID=2>\n\n\0\0\0";
    let h = Header::from_string(text).unwrap();
    assert_eq!(h.get_contigs().len(), 2);
    assert_eq!(h.get_chrname(1), Some("2"));
}

#[test]
fn lines_of_another_shape_are_ignored() {
    let text = "##fileformat=VCFv4.2\n##source\nfree text\n##x=y=<a>\n# CHROM\n##=\n##contig=";
    let h = Header::from_string(text).unwrap();
    assert_eq!(h.get_dict_strings().len(), 1);
    assert_eq!(h.get_contigs().len(), 0);
    assert_eq!(h.get_samples().len(), 0);
}

#[test]
fn bracket_that_never_closes_is_a_format_error() {
    assert!(matches!(Header::from_string("##INFO=<ID=DP,Number=1"), Err(Bcf2Error::Format)));
    assert!(matches!(
        Header::from_string("##contig=<ID=1>\n##INFO=<\n##contig=<ID=2>"),
        Err(Bcf2Error::Format)
    ));
}

#[test]
fn piece_without_a_value_is_a_format_error() {
    for text in [
        "##INFO=<ID>",
        "##INFO=<ID=>",
        "##INFO=<>",
        "##INFO=<ID=A,>",
        "##INFO=<ID=A,,Number=1>",
        "##INFO=<ID=A,Number>",
    ] {
        assert!(matches!(Header::from_string(text), Err(Bcf2Error::Format)));
    }
}

#[test]
fn attributes_are_trimmed_and_unquoted() {
    let h = Header::from_string("##INFO=< ID = A , Description=\"x y\" ,Number=\"1\">").unwrap();
    let e = &h.get_dict_strings()[1];
    assert_eq!(e.get("ID "), Some(" A"));
    assert_eq!(e.get("Description"), Some("x y"));
    assert_eq!(e.get("Number"), Some("1"));
}

#[test]
fn later_value_of_a_key_replaces_the_earlier() {
    let h = Header::from_string("##INFO=<ID=A,Number=1,ID=B,Dictionary=FILTER>").unwrap();
    let e = &h.get_dict_strings()[1];
    assert_eq!(e.get("ID"), Some("B"));
    assert_eq!(e.get("Number"), Some("1"));
    assert_eq!(e.get("Dictionary"), Some("INFO"));
}

#[test]
fn text_behind_the_last_bracket_is_not_read() {
    let h = Header::from_string("##INFO=<ID=A,Description=\"a>b\"> trailing").unwrap();
    let e = &h.get_dict_strings()[1];
    assert_eq!(e.get("Description"), Some("a>b"));
}

#[test]
fn line_kinds() {
    assert!(matches!(parse_line(&chars("")), HeaderLine::Ignored));
    assert!(matches!(parse_line(&chars(" \u{3000}\t")), HeaderLine::Ignored));
    assert!(matches!(parse_line(&chars("##fileformat=VCFv4.2")), HeaderLine::Ignored));
    assert!(matches!(parse_line(&chars(" ##contig=<ID=1>")), HeaderLine::Ignored));
    assert!(matches!(parse_line(&chars("##contig=<ID=1")), HeaderLine::Malformed));
    assert!(matches!(parse_line(&chars("##contig=<ID>")), HeaderLine::Malformed));
    match parse_line(&chars("##my dict=<ID=1>")) {
        HeaderLine::Entry(name, entry) => {
            assert_eq!(name, "my dict");
            assert_eq!(entry.get("ID"), Some("1"));
        }
        _ => panic!("an entry was expected"),
    }
    match parse_line(&chars("#CHROM\ta\tb\tc\td\te\tf\tg\th\ti j\t")) {
        HeaderLine::Samples(names) => {
            assert_eq!(names, vec!["h".to_string(), "i j".to_string(), String::new()]);
        }
        _ => panic!("sample names were expected"),
    }
}

#[test]
fn attributes_of_a_body() {
    let entry = parse_attributes(&chars("a=1,b=\"2,3\",c=\"x\"y")).unwrap();
    assert_eq!(entry.get("a"), Some("1"));
    assert_eq!(entry.get("b"), Some("2,3"));
    assert_eq!(entry.get("c"), Some("\"x\"y"));
    assert_eq!(entry.get("d"), None);
    assert!(parse_attributes(&chars("a=1,b")).is_none());
    assert!(parse_attributes(&chars("")).is_none());
}

#[test]
fn pair_is_the_first_two_tokens() {
    let tokens = vec!["k".to_string(), "v".to_string(), "w".to_string()];
    assert_eq!(pair_of(&tokens), Some(("k".to_string(), "v".to_string())));
    assert_eq!(pair_of(&tokens[..2].to_vec()), Some(("k".to_string(), "v".to_string())));
    assert_eq!(pair_of(&tokens[..1].to_vec()), None);
    assert_eq!(pair_of(&Vec::new()), None);
}
