//! The textual header: dictionaries, contigs and sample names.
//!
//! The position of an entry in its dictionary is the integer by which
//! records refer to it, so entries are kept in the order in which the text
//! gives them.

use crate::dict::{map_of, DictEntry};
use crate::error::Bcf2Error;
use crate::text::{
    count_suffix, field_len, fields, same_text, scan_field, split_fields, starts_with, string_of,
    strip_suffix, suffix_len, texts, to_chars, trim, trimmed, CharClass,
};
use vstd::prelude::*;
use vstd::slice::slice_subrange;

verus! {

/// The tokens that `splitty` cuts `src` into at `delimiter`, in order.
///
/// In short: delimiters in front of a token are passed over, so no token
/// is empty for want of text between two delimiters. A token that opens
/// with a double quote runs on over delimiters to the first one that stands
/// right behind a double quote other than the opening one, or to the end.
/// With `unwrap_quotes` a token of more than one character that opens and
/// closes with a double quote comes without the two.
pub uninterp spec fn unquoted_tokens(src: Seq<char>, delimiter: char, unwrap_quotes: bool) -> Seq<
    Seq<char>,
>;

/// What each of the strings holds.
pub open spec fn strings(v: Seq<String>) -> Seq<Seq<char>> {
    Seq::new(v.len(), |i: int| v[i]@)
}

/// What each of the entries holds.
pub open spec fn entries(v: Seq<DictEntry>) -> Seq<Map<Seq<char>, Seq<char>>> {
    Seq::new(v.len(), |i: int| v[i]@)
}

/// Runs `splitty::split_unquoted_char(src, delimiter)`, with
/// `unwrap_quotes` set as given, to its end and collects the tokens. The
/// tokens are taken on trust from `splitty`: the contract only gives them
/// their name.
#[verifier::external_body]
fn split_unquoted(src: &str, delimiter: char, unwrap_quotes: bool) -> (tokens: Vec<String>)
    ensures
        strings(tokens@) == unquoted_tokens(src@, delimiter, unwrap_quotes),
{
    splitty::split_unquoted_char(src, delimiter).unwrap_quotes(unwrap_quotes).map(
        String::from,
    ).collect()
}

/// The key and the value among the tokens of one attribute: the first two.
/// Fewer than two tokens make no attribute.
pub open spec fn key_value(tokens: Seq<Seq<char>>) -> Option<(Seq<char>, Seq<char>)> {
    if tokens.len() >= 2 {
        Some((tokens[0], tokens[1]))
    } else {
        None
    }
}

/// The attribute that one piece of a bracketed body spells: the piece is
/// trimmed and cut at `=`, quotes honoured and taken off.
pub open spec fn attribute(piece: Seq<char>) -> Option<(Seq<char>, Seq<char>)> {
    key_value(unquoted_tokens(trim(piece), '=', true))
}

/// The attributes of a bracketed body, or `None` where one of its pieces is
/// no attribute. The body is cut at the commas that stand outside double
/// quotes; where a key comes twice, its last value stays.
pub open spec fn attributes(body: Seq<char>) -> Option<Map<Seq<char>, Seq<char>>> {
    let pieces = fields(body, ',', true);
    if forall|i: int| 0 <= i < pieces.len() ==> (#[trigger] attribute(pieces[i])) is Some {
        Some(map_of(Seq::new(pieces.len(), |i: int| attribute(pieces[i])->0)))
    } else {
        None
    }
}

/// What one line of the header is.
pub enum LineKind {
    /// The column line, with the sample names that it gives.
    Samples(Seq<Seq<char>>),
    /// A structured line: the dictionary's name and the attributes.
    Entry(Seq<char>, Map<Seq<char>, Seq<char>>),
    /// A line that the header has no use for.
    Ignored,
    /// A structured line whose bracket never closes, or with a piece that is
    /// no attribute.
    Malformed,
}

/// Reads one line.
///
/// - A line that begins with `#CHROM` is cut at its tabs; what follows the
///   eighth column are sample names.
/// - A line of white space, and a line that does not begin `##name=<`, is
///   ignored.
/// - Otherwise the body runs from behind that `<` to the last `>` of the
///   line, and must spell attributes.
pub open spec fn line_kind(line: Seq<char>) -> LineKind {
    if "#CHROM"@.is_prefix_of(line) {
        let columns = fields(line, '\t', false);
        LineKind::Samples(
            if columns.len() > 8 {
                columns.skip(8)
            } else {
                Seq::empty()
            },
        )
    } else if trim(line).len() == 0 || !"##"@.is_prefix_of(line) {
        LineKind::Ignored
    } else {
        let rest = line.skip("##"@.len() as int);
        let eq = field_len(rest, '=', false, false) as int;
        if eq + 1 >= rest.len() || rest[eq + 1] != '<' {
            LineKind::Ignored
        } else {
            let value = rest.skip(eq + 2);
            let tail = suffix_len(value, CharClass::IsNot('>')) as int;
            if tail >= value.len() {
                LineKind::Malformed
            } else {
                match attributes(value.take(value.len() - tail - 1)) {
                    Some(m) => LineKind::Entry(rest.take(eq), m),
                    None => LineKind::Malformed,
                }
            }
        }
    }
}

/// What a header holds.
pub struct HeaderModel {
    /// The dictionary of every structured line but the contigs.
    pub dict: Seq<Map<Seq<char>, Seq<char>>>,
    /// The contigs; the position of one is its chromosome index.
    pub contigs: Seq<Map<Seq<char>, Seq<char>>>,
    /// The sample names.
    pub samples: Seq<Seq<char>>,
    /// The position in `dict` of the genotype format, 0 where there is none.
    pub gt: nat,
}

/// The entry that every header starts with, whether or not its text has it.
pub open spec fn pass_entry() -> Map<Seq<char>, Seq<char>> {
    Map::<Seq<char>, Seq<char>>::empty().insert("Dictionary"@, "FILTER"@).insert(
        "ID"@,
        "PASS"@,
    ).insert("Description"@, "\"All filters passed\""@)
}

/// The header before any line is read.
pub open spec fn initial_model() -> HeaderModel {
    HeaderModel { dict: seq![pass_entry()], contigs: Seq::empty(), samples: Seq::empty(), gt: 0 }
}

/// Whether `m` has the attribute `key` with the value `value`.
pub open spec fn has(m: Map<Seq<char>, Seq<char>>, key: Seq<char>, value: Seq<char>) -> bool {
    m.dom().contains(key) && m[key] == value
}

/// The header `h` after one more line.
///
/// Sample names are appended. A contig goes to the contigs as it is. Any
/// other entry goes to the dictionary, tagged with the name of its line,
/// except a `FILTER` whose `ID` is `PASS`: the header has that one already.
pub open spec fn absorb(h: HeaderModel, line: LineKind) -> HeaderModel {
    match line {
        LineKind::Samples(names) => HeaderModel { samples: h.samples + names, ..h },
        LineKind::Entry(name, m) => {
            if name == "contig"@ {
                HeaderModel { contigs: h.contigs.push(m), ..h }
            } else if name == "FILTER"@ && has(m, "ID"@, "PASS"@) {
                h
            } else {
                HeaderModel { dict: h.dict.push(m.insert("Dictionary"@, name)), ..h }
            }
        },
        _ => h,
    }
}

/// The header `h` after all of `lines`, first to last.
pub open spec fn absorb_all(h: HeaderModel, lines: Seq<Seq<char>>) -> HeaderModel
    decreases lines.len(),
{
    if lines.len() == 0 {
        h
    } else {
        absorb(absorb_all(h, lines.drop_last()), line_kind(lines.last()))
    }
}

/// Whether `m` is the genotype format.
pub open spec fn is_format_gt(m: Map<Seq<char>, Seq<char>>) -> bool {
    has(m, "Dictionary"@, "FORMAT"@) && has(m, "ID"@, "GT"@)
}

/// Whether `m` is the filter that every record passes by default.
pub open spec fn is_filter_pass(m: Map<Seq<char>, Seq<char>>) -> bool {
    has(m, "Dictionary"@, "FILTER"@) && has(m, "ID"@, "PASS"@)
}

/// The position of the genotype format in `dict`: that of the last entry
/// that is one, and 0 where none is.
pub open spec fn gt_index(dict: Seq<Map<Seq<char>, Seq<char>>>) -> nat
    decreases dict.len(),
{
    if dict.len() == 0 {
        0
    } else if is_format_gt(dict.last()) {
        (dict.len() - 1) as nat
    } else {
        gt_index(dict.drop_last())
    }
}

/// The lines of a header text: the text without the NULs at its end and the
/// white space around it, cut at the line feeds.
pub open spec fn header_lines(text: Seq<char>) -> Seq<Seq<char>> {
    fields(trim(strip_suffix(text, CharClass::Is('\0'))), '\n', false)
}

/// The header that `text` spells, or the error where one of its lines is
/// malformed.
pub open spec fn header_of(text: Seq<char>) -> Result<HeaderModel, Bcf2Error> {
    let lines = header_lines(text);
    if exists|i: int| 0 <= i < lines.len() && (#[trigger] line_kind(lines[i])) is Malformed {
        Err(Bcf2Error::Format)
    } else {
        let h = absorb_all(initial_model(), lines);
        Ok(HeaderModel { gt: gt_index(h.dict), ..h })
    }
}

/// The first entry of `dict`, and no other, is the filter `PASS`.
pub open spec fn one_pass(dict: Seq<Map<Seq<char>, Seq<char>>>) -> bool {
    &&& dict.len() > 0
    &&& forall|i: int| 0 <= i < dict.len() ==> (is_filter_pass(#[trigger] dict[i]) <==> i == 0)
}

proof fn lemma_keys_differ()
    ensures
        "Dictionary"@ != "ID"@,
        "Description"@ != "ID"@,
        "Description"@ != "Dictionary"@,
{
    reveal_strlit("Dictionary");
    reveal_strlit("ID");
    reveal_strlit("Description");
    assert("Dictionary"@.len() == 10);
    assert("ID"@.len() == 2);
    assert("Description"@.len() == 11);
}

proof fn lemma_absorb_keeps_one_pass(h: HeaderModel, line: LineKind)
    requires
        one_pass(h.dict),
    ensures
        one_pass(absorb(h, line).dict),
{
    lemma_keys_differ();
}

/// A header holds the filter `PASS` once, in the first place of its
/// dictionary, however often its text declares it.
pub proof fn lemma_header_has_one_pass(text: Seq<char>)
    requires
        header_of(text) is Ok,
    ensures
        one_pass(header_of(text)->Ok_0.dict),
{
    lemma_lines_keep_one_pass(header_lines(text));
}

proof fn lemma_lines_keep_one_pass(lines: Seq<Seq<char>>)
    ensures
        one_pass(absorb_all(initial_model(), lines).dict),
    decreases lines.len(),
{
    lemma_keys_differ();
    if lines.len() == 0 {
        assert(is_filter_pass(pass_entry()));
    } else {
        lemma_lines_keep_one_pass(lines.drop_last());
        lemma_absorb_keeps_one_pass(
            absorb_all(initial_model(), lines.drop_last()),
            line_kind(lines.last()),
        );
    }
}

/// What the two strings of a pair hold.
pub open spec fn pair_text(p: (String, String)) -> (Seq<char>, Seq<char>) {
    (p.0@, p.1@)
}

/// The key and the value among the tokens of one attribute.
pub fn pair_of(tokens: &Vec<String>) -> (r: Option<(String, String)>)
    ensures
        match key_value(strings(tokens@)) {
            Some(kv) => r is Some && pair_text(r->0) == kv,
            None => r is None,
        },
{
    if tokens.len() >= 2 {
        Some((tokens[0].clone(), tokens[1].clone()))
    } else {
        None
    }
}

/// Reads the attributes of a bracketed body.
pub fn parse_attributes(body: &[char]) -> (r: Option<DictEntry>)
    ensures
        match attributes(body@) {
            Some(m) => r is Some && r->0@ == m,
            None => r is None,
        },
{
    let pieces = split_fields(body, ',', true);
    let ghost all = fields(body@, ',', true);
    let ghost pair_at = |i: int| attribute(all[i])->0;
    let mut entry = DictEntry::new();
    let mut i: usize = 0;
    while i < pieces.len()
        invariant
            i <= pieces.len(),
            texts(pieces@) == all,
            all == fields(body@, ',', true),
            pair_at == |i: int| attribute(all[i])->0,
            forall|j: int| 0 <= j < i ==> (#[trigger] attribute(all[j])) is Some,
            entry@ == map_of(Seq::new(i as nat, pair_at)),
        decreases pieces.len() - i,
    {
        assert(pieces@[i as int]@ == all[i as int]);
        let piece = string_of(trimmed(pieces[i]));
        let tokens = split_unquoted(piece.as_str(), '=', true);
        match pair_of(&tokens) {
            None => {
                assert(attribute(all[i as int]) is None);
                return None;
            },
            Some(kv) => {
                assert(Seq::new((i + 1) as nat, pair_at).drop_last() == Seq::new(
                    i as nat,
                    pair_at,
                ));
                entry.insert(kv.0, kv.1);
            },
        }
        i = i + 1;
    }
    Some(entry)
}

/// One line of the header, read.
#[derive(Debug)]
pub enum HeaderLine {
    /// The column line, with the sample names that it gives.
    Samples(Vec<String>),
    /// A structured line: the dictionary's name and the attributes.
    Entry(String, DictEntry),
    /// A line that the header has no use for.
    Ignored,
    /// A structured line that cannot be read.
    Malformed,
}

impl View for HeaderLine {
    type V = LineKind;

    open spec fn view(&self) -> LineKind {
        match self {
            HeaderLine::Samples(names) => LineKind::Samples(strings(names@)),
            HeaderLine::Entry(name, entry) => LineKind::Entry(name@, entry@),
            HeaderLine::Ignored => LineKind::Ignored,
            HeaderLine::Malformed => LineKind::Malformed,
        }
    }
}

/// Reads one line of the header.
pub fn parse_line(line: &[char]) -> (r: HeaderLine)
    ensures
        r@ == line_kind(line@),
{
    let chrom = to_chars("#CHROM");
    if starts_with(line, chrom.as_slice()) {
        let columns = split_fields(line, '\t', false);
        let mut names: Vec<String> = Vec::new();
        let mut i: usize = 8;
        while i < columns.len()
            invariant
                8 <= i,
                i <= columns.len() || columns.len() < 8,
                columns.len() > 8 ==> strings(names@) == texts(columns@).subrange(8, i as int),
                columns.len() <= 8 ==> names@.len() == 0,
            decreases columns.len() - i,
        {
            let ghost before = names@;
            let name = string_of(columns[i]);
            names.push(name);
            assert(strings(names@) == strings(before).push(name@));
            assert(texts(columns@).subrange(8, i + 1) == texts(columns@).subrange(8, i as int).push(
                columns@[i as int]@,
            ));
            i = i + 1;
        }
        assert(strings(names@) == line_kind(line@)->Samples_0);
        return HeaderLine::Samples(names);
    }
    if trimmed(line).len() == 0 {
        return HeaderLine::Ignored;
    }
    let hashes = to_chars("##");
    if !starts_with(line, hashes.as_slice()) {
        return HeaderLine::Ignored;
    }
    let rest = slice_subrange(line, hashes.len(), line.len());
    let eq = scan_field(rest, '=', false);
    if eq >= rest.len() || rest.len() - eq < 2 || rest[eq + 1] != '<' {
        return HeaderLine::Ignored;
    }
    let value = slice_subrange(rest, eq + 2, rest.len());
    let tail = count_suffix(value, CharClass::IsNot('>'));
    if tail >= value.len() {
        return HeaderLine::Malformed;
    }
    let body = slice_subrange(value, 0, value.len() - tail - 1);
    match parse_attributes(body) {
        Some(entry) => HeaderLine::Entry(string_of(slice_subrange(rest, 0, eq)), entry),
        None => HeaderLine::Malformed,
    }
}

/// The header of a stream: its dictionaries, its contigs and its samples.
#[derive(Debug)]
pub struct Header {
    dict_strings: Vec<DictEntry>,
    dict_contigs: Vec<DictEntry>,
    samples: Vec<String>,
    fmt_gt_idx: usize,
}

impl View for Header {
    type V = HeaderModel;

    closed spec fn view(&self) -> HeaderModel {
        HeaderModel {
            dict: entries(self.dict_strings@),
            contigs: entries(self.dict_contigs@),
            samples: strings(self.samples@),
            gt: self.fmt_gt_idx as nat,
        }
    }
}

/// The entry that every header starts with.
fn default_pass() -> (e: DictEntry)
    ensures
        e@ == pass_entry(),
{
    let mut e = DictEntry::new();
    e.insert("Dictionary".to_owned(), "FILTER".to_owned());
    e.insert("ID".to_owned(), "PASS".to_owned());
    e.insert("Description".to_owned(), "\"All filters passed\"".to_owned());
    e
}

/// Whether `entry` has the attribute `key` with the value `value`.
fn entry_has(entry: &DictEntry, key: &str, value: &str) -> (b: bool)
    ensures
        b == has(entry@, key@, value@),
{
    match entry.get(key) {
        Some(v) => same_text(v, value),
        None => false,
    }
}

/// Finds the genotype format in a dictionary.
fn find_format_gt(dict: &Vec<DictEntry>) -> (idx: usize)
    ensures
        idx == gt_index(entries(dict@)),
{
    let mut idx: usize = 0;
    let mut i: usize = 0;
    while i < dict.len()
        invariant
            i <= dict.len(),
            idx == gt_index(entries(dict@).take(i as int)),
        decreases dict.len() - i,
    {
        assert(entries(dict@).take(i + 1).drop_last() == entries(dict@).take(i as int));
        if entry_has(&dict[i], "Dictionary", "FORMAT") && entry_has(&dict[i], "ID", "GT") {
            idx = i;
        }
        i = i + 1;
    }
    assert(entries(dict@).take(dict.len() as int) == entries(dict@));
    idx
}

impl Header {
    #[verifier::type_invariant]
    spec fn holds_one_pass(&self) -> bool {
        one_pass(entries(self.dict_strings@))
    }

    /// Reads a header from its text.
    ///
    /// Fails, with a format error, exactly where a line of the text is
    /// malformed.
    pub fn from_string(text: &str) -> (r: Result<Header, Bcf2Error>)
        ensures
            match header_of(text@) {
                Ok(h) => r is Ok && r->Ok_0@ == h,
                Err(e) => r == Err::<Header, Bcf2Error>(e),
            },
    {
        let chars = to_chars(text);
        let nuls = count_suffix(chars.as_slice(), CharClass::Is('\0'));
        let lines = split_fields(
            trimmed(slice_subrange(chars.as_slice(), 0, chars.len() - nuls)),
            '\n',
            false,
        );
        let ghost all = header_lines(text@);
        assert(texts(lines@) == all);

        let mut dict_strings: Vec<DictEntry> = Vec::new();
        let mut dict_contigs: Vec<DictEntry> = Vec::new();
        let mut samples: Vec<String> = Vec::new();
        dict_strings.push(default_pass());
        assert(entries(dict_strings@) == initial_model().dict);
        assert(entries(dict_contigs@) == initial_model().contigs);
        assert(strings(samples@) == initial_model().samples);

        let mut i: usize = 0;
        while i < lines.len()
            invariant
                i <= lines.len(),
                texts(lines@) == all,
                all == header_lines(text@),
                forall|j: int| 0 <= j < i ==> !((#[trigger] line_kind(all[j])) is Malformed),
                entries(dict_strings@) == absorb_all(initial_model(), all.take(i as int)).dict,
                entries(dict_contigs@) == absorb_all(initial_model(), all.take(i as int)).contigs,
                strings(samples@) == absorb_all(initial_model(), all.take(i as int)).samples,
            decreases lines.len() - i,
        {
            assert(lines@[i as int]@ == all[i as int]);
            assert(all.take(i + 1).drop_last() == all.take(i as int));
            let ghost before = absorb_all(initial_model(), all.take(i as int));
            match parse_line(lines[i]) {
                HeaderLine::Samples(names) => {
                    let ghost old_samples = samples@;
                    let mut names = names;
                    let ghost added = names@;
                    samples.append(&mut names);
                    assert(strings(samples@) == strings(old_samples) + strings(added));
                },
                HeaderLine::Entry(name, entry) => {
                    if same_text(name.as_str(), "contig") {
                        let ghost old_contigs = dict_contigs@;
                        dict_contigs.push(entry);
                        assert(entries(dict_contigs@) == entries(old_contigs).push(entry@));
                    } else if same_text(name.as_str(), "FILTER") && entry_has(
                        &entry,
                        "ID",
                        "PASS",
                    ) {
                    } else {
                        let ghost old_dict = dict_strings@;
                        let mut entry = entry;
                        entry.insert("Dictionary".to_owned(), name);
                        dict_strings.push(entry);
                        assert(entries(dict_strings@) == entries(old_dict).push(entry@));
                    }
                },
                HeaderLine::Ignored => {},
                HeaderLine::Malformed => {
                    assert(line_kind(all[i as int]) is Malformed);
                    return Err(Bcf2Error::Format);
                },
            }
            i = i + 1;
        }
        assert(all.take(lines.len() as int) == all);
        proof {
            lemma_lines_keep_one_pass(all);
        }
        let fmt_gt_idx = find_format_gt(&dict_strings);
        Ok(Header { dict_strings, dict_contigs, samples, fmt_gt_idx })
    }

    /// The name of the contig with the chromosome index `idx`: the `ID` of
    /// the contig in that position, where there is one and it has an `ID`.
    pub fn get_chrname(&self, idx: usize) -> (r: Option<&str>)
        ensures
            match r {
                Some(name) => idx < self@.contigs.len() && self@.contigs[idx as int].dom().contains(
                    "ID"@,
                ) && name@ == self@.contigs[idx as int]["ID"@],
                None => idx >= self@.contigs.len() || !self@.contigs[idx as int].dom().contains(
                    "ID"@,
                ),
            },
    {
        if idx < self.dict_contigs.len() {
            self.dict_contigs[idx].get("ID")
        } else {
            None
        }
    }

    /// The position of the genotype format in the dictionary, 0 where the
    /// header declares none.
    pub fn get_fmt_gt_id(&self) -> (idx: usize)
        ensures
            idx == self@.gt,
    {
        self.fmt_gt_idx
    }

    /// The contigs, each in the place of its chromosome index.
    pub fn get_contigs(&self) -> (r: &Vec<DictEntry>)
        ensures
            entries(r@) == self@.contigs,
    {
        &self.dict_contigs
    }

    /// The dictionary, each entry in the place by which records name it.
    /// Its first entry, and no other, is the filter `PASS`.
    pub fn get_dict_strings(&self) -> (r: &Vec<DictEntry>)
        ensures
            entries(r@) == self@.dict,
            one_pass(self@.dict),
    {
        proof {
            use_type_invariant(self);
        }
        &self.dict_strings
    }

    /// The sample names, in the order of their columns.
    pub fn get_samples(&self) -> (r: &Vec<String>)
        ensures
            strings(r@) == self@.samples,
    {
        &self.samples
    }
}

} // verus!
