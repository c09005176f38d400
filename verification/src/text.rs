//! Character sequences: the small vocabulary in which the header grammar is
//! written. Every function here takes a slice of characters and says what it
//! returns over the sequence that the slice holds.

use vstd::prelude::*;
use vstd::slice::slice_subrange;

verus! {

/// `String::push` appends one character.
pub assume_specification[ String::push ](s: &mut String, ch: char)
    ensures
        final(s)@ == old(s)@.push(ch),
;

/// The characters that Unicode gives the property `White_Space`.
pub open spec fn is_space(c: char) -> bool {
    let u = c as u32;
    ||| 0x09 <= u <= 0x0D
    ||| u == 0x20
    ||| u == 0x85
    ||| u == 0xA0
    ||| u == 0x1680
    ||| 0x2000 <= u <= 0x200A
    ||| u == 0x2028
    ||| u == 0x2029
    ||| u == 0x202F
    ||| u == 0x205F
    ||| u == 0x3000
}

/// A set of characters that a scan can run over.
#[derive(Clone, Copy, Debug)]
pub enum CharClass {
    /// White space.
    Space,
    /// The one character given.
    Is(char),
    /// Every character but the one given.
    IsNot(char),
}

impl CharClass {
    pub open spec fn holds(self, c: char) -> bool {
        match self {
            CharClass::Space => is_space(c),
            CharClass::Is(d) => c == d,
            CharClass::IsNot(d) => c != d,
        }
    }

    /// Whether `c` belongs to the class.
    pub fn test(&self, c: char) -> (b: bool)
        ensures
            b == self.holds(c),
    {
        match *self {
            CharClass::Space => {
                let u: u32 = c as u32;
                (0x09 <= u && u <= 0x0D) || u == 0x20 || u == 0x85 || u == 0xA0 || u == 0x1680 || (
                0x2000 <= u && u <= 0x200A) || u == 0x2028 || u == 0x2029 || u == 0x202F || u
                    == 0x205F || u == 0x3000
            },
            CharClass::Is(d) => c == d,
            CharClass::IsNot(d) => c != d,
        }
    }
}

/// How many characters at the front of `s` belong to `class` before the
/// first one that does not.
pub open spec fn prefix_len(s: Seq<char>, class: CharClass) -> nat
    decreases s.len(),
{
    if s.len() > 0 && class.holds(s[0]) {
        1 + prefix_len(s.drop_first(), class)
    } else {
        0
    }
}

/// How many characters at the back of `s` belong to `class` after the last
/// one that does not.
pub open spec fn suffix_len(s: Seq<char>, class: CharClass) -> nat
    decreases s.len(),
{
    if s.len() > 0 && class.holds(s.last()) {
        1 + suffix_len(s.drop_last(), class)
    } else {
        0
    }
}

/// `s` without the characters of `class` at its back.
pub open spec fn strip_suffix(s: Seq<char>, class: CharClass) -> Seq<char> {
    s.take(s.len() - suffix_len(s, class))
}

/// `s` without the white space at its front and at its back.
pub open spec fn trim(s: Seq<char>) -> Seq<char> {
    strip_suffix(s.skip(prefix_len(s, CharClass::Space) as int), CharClass::Space)
}

/// The length of the first field of `s`: the characters before the first
/// separator, or all of `s` where it holds none.
///
/// With `quotes` set, a double quote opens a stretch that runs to the next
/// double quote, and a separator inside such a stretch is an ordinary
/// character. `inside` says whether `s` starts within one.
pub open spec fn field_len(s: Seq<char>, sep: char, quotes: bool, inside: bool) -> nat
    decreases s.len(),
{
    if s.len() == 0 {
        0
    } else if s[0] == sep && !inside {
        0
    } else {
        1 + field_len(s.drop_first(), sep, quotes, inside != (quotes && s[0] == '"'))
    }
}

/// The fields of `s`: what stands between one separator and the next, the
/// empty fields too. A sequence with `k` separators has `k + 1` fields.
pub open spec fn fields(s: Seq<char>, sep: char, quotes: bool) -> Seq<Seq<char>>
    decreases s.len(),
{
    let n = field_len(s, sep, quotes, false);
    if n >= s.len() {
        seq![s]
    } else {
        seq![s.take(n as int)] + fields(s.skip(n as int + 1), sep, quotes)
    }
}

/// What each of the slices holds.
pub open spec fn texts(v: Seq<&[char]>) -> Seq<Seq<char>> {
    Seq::new(v.len(), |i: int| v[i]@)
}

/// The characters of `s`, in order.
pub fn to_chars(s: &str) -> (v: Vec<char>)
    ensures
        v@ == s@,
{
    let mut v: Vec<char> = Vec::new();
    for c in it: s.chars()
        invariant
            v@ == it.seq().take(it.index()),
    {
        v.push(c);
    }
    v
}

/// The string made of the characters of `s`.
pub fn string_of(s: &[char]) -> (r: String)
    ensures
        r@ == s@,
{
    let mut r = String::new();
    let mut i: usize = 0;
    while i < s.len()
        invariant
            i <= s.len(),
            r@ == s@.take(i as int),
        decreases s.len() - i,
    {
        r.push(s[i]);
        i = i + 1;
    }
    r
}

/// Counts the characters of `class` at the front of `s`.
pub fn count_prefix(s: &[char], class: CharClass) -> (n: usize)
    ensures
        n == prefix_len(s@, class),
        n <= s.len(),
{
    let mut i: usize = 0;
    assert(s@.skip(0) == s@);
    while i < s.len() && class.test(s[i])
        invariant
            i <= s.len(),
            prefix_len(s@, class) == i + prefix_len(s@.skip(i as int), class),
        decreases s.len() - i,
    {
        assert(s@.skip(i as int).drop_first() == s@.skip(i + 1));
        i = i + 1;
    }
    i
}

/// Counts the characters of `class` at the back of `s`.
pub fn count_suffix(s: &[char], class: CharClass) -> (n: usize)
    ensures
        n == suffix_len(s@, class),
        n <= s.len(),
{
    let len = s.len();
    let mut i: usize = 0;
    assert(s@.take(len as int) == s@);
    while i < len && class.test(s[len - 1 - i])
        invariant
            len == s.len(),
            i <= len,
            suffix_len(s@, class) == i + suffix_len(s@.take(len - i), class),
        decreases len - i,
    {
        assert(s@.take(len - i).drop_last() == s@.take(len - (i + 1)));
        i = i + 1;
    }
    i
}

/// Cuts the white space off both ends of `s`.
pub fn trimmed(s: &[char]) -> (t: &[char])
    ensures
        t@ == trim(s@),
{
    let a = count_prefix(s, CharClass::Space);
    let rest = slice_subrange(s, a, s.len());
    let b = count_suffix(rest, CharClass::Space);
    slice_subrange(rest, 0, rest.len() - b)
}

/// The length of the first field of `s`.
pub fn scan_field(s: &[char], sep: char, quotes: bool) -> (n: usize)
    ensures
        n == field_len(s@, sep, quotes, false),
        n <= s.len(),
{
    let mut i: usize = 0;
    let mut inside = false;
    assert(s@.skip(0) == s@);
    while i < s.len() && !(s[i] == sep && !inside)
        invariant
            i <= s.len(),
            field_len(s@, sep, quotes, false) == i + field_len(
                s@.skip(i as int),
                sep,
                quotes,
                inside,
            ),
        decreases s.len() - i,
    {
        assert(s@.skip(i as int).drop_first() == s@.skip(i + 1));
        if quotes && s[i] == '"' {
            inside = !inside;
        }
        i = i + 1;
    }
    i
}

/// Cuts `s` at its separators.
pub fn split_fields<'a>(s: &'a [char], sep: char, quotes: bool) -> (v: Vec<&'a [char]>)
    ensures
        texts(v@) == fields(s@, sep, quotes),
{
    let mut v: Vec<&'a [char]> = Vec::new();
    let mut start: usize = 0;
    assert(s@.skip(0) == s@);
    assert(texts(v@) + fields(s@, sep, quotes) == fields(s@, sep, quotes));
    loop
        invariant
            start <= s.len(),
            fields(s@, sep, quotes) == texts(v@) + fields(s@.skip(start as int), sep, quotes),
        decreases s.len() - start,
    {
        let rest = slice_subrange(s, start, s.len());
        let n = scan_field(rest, sep, quotes);
        let ghost before = v@;
        if n >= rest.len() {
            v.push(rest);
            assert(texts(v@) == texts(before) + seq![rest@]);
            return v;
        }
        let field = slice_subrange(rest, 0, n);
        v.push(field);
        assert(texts(v@) == texts(before) + seq![field@]);
        assert(s@.skip(start as int).skip(n + 1) == s@.skip(start + n + 1));
        start = start + n + 1;
    }
}

/// Whether two slices hold the same characters.
pub fn same_chars(a: &[char], b: &[char]) -> (r: bool)
    ensures
        r == (a@ == b@),
{
    if a.len() != b.len() {
        return false;
    }
    let mut i: usize = 0;
    while i < a.len()
        invariant
            a.len() == b.len(),
            i <= a.len(),
            a@.take(i as int) == b@.take(i as int),
        decreases a.len() - i,
    {
        if a[i] != b[i] {
            return false;
        }
        assert(a@.take(i + 1) == a@.take(i as int).push(a@[i as int]));
        assert(b@.take(i + 1) == b@.take(i as int).push(b@[i as int]));
        i = i + 1;
    }
    assert(a@ == a@.take(a.len() as int));
    assert(b@ == b@.take(b.len() as int));
    true
}

/// Whether `s` begins with `prefix`.
pub fn starts_with(s: &[char], prefix: &[char]) -> (r: bool)
    ensures
        r == prefix@.is_prefix_of(s@),
{
    if prefix.len() > s.len() {
        return false;
    }
    same_chars(slice_subrange(s, 0, prefix.len()), prefix)
}

/// Whether two strings hold the same characters.
#[verifier::loop_isolation(false)]
pub fn same_text(a: &str, b: &str) -> (r: bool)
    ensures
        r == (a@ == b@),
{
    let x = a.as_bytes();
    let y = b.as_bytes();
    proof {
        vstd::utf8::encode_utf8_decode_utf8(a@);
        vstd::utf8::encode_utf8_decode_utf8(b@);
    }
    if x.len() != y.len() {
        return false;
    }
    let mut i: usize = 0;
    while i < x.len()
        invariant
            x.len() == y.len(),
            i <= x.len(),
            x@.take(i as int) == y@.take(i as int),
        decreases x.len() - i,
    {
        if x[i] != y[i] {
            assert(x@[i as int] != y@[i as int]);
            return false;
        }
        assert(x@.take(i + 1) == x@.take(i as int).push(x@[i as int]));
        assert(y@.take(i + 1) == y@.take(i as int).push(y@[i as int]));
        i = i + 1;
    }
    assert(x@ == x@.take(x.len() as int));
    assert(y@ == y@.take(y.len() as int));
    true
}

} // verus!
