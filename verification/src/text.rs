//! Text primitives: white space, ASCII case, searching, lines and words.
//!
//! Strings are modelled as sequences of characters. Every function here states its result
//! over such sequences, so that callers can reason about text without touching UTF-8.

use vstd::prelude::*;
use vstd::slice::slice_subrange;

verus! {

broadcast use vstd::string::group_string_axioms;

// ---------------------------------------------------------------------------
// Building strings
// ---------------------------------------------------------------------------

/// `String::push`, which appends the given character to the end of the string.
pub assume_specification[ String::push ](s: &mut String, c: char)
    ensures
        final(s)@ == old(s)@.push(c),
;

/// The characters of a string.
pub fn chars_of(s: &str) -> (r: Vec<char>)
    ensures
        r@ == s@,
{
    let mut out: Vec<char> = Vec::new();
    for c in it: s.chars()
        invariant
            it.seq() == s@,
            out@ == s@.take(it.index() as int),
    {
        out.push(c);
    }
    out
}

/// The string made of the given characters.
pub fn string_of(cs: &[char]) -> (r: String)
    ensures
        r@ == cs@,
{
    let mut out = String::new();
    let mut i: usize = 0;
    while i < cs.len()
        invariant
            i <= cs.len(),
            out@ == cs@.take(i as int),
        decreases cs.len() - i,
    {
        out.push(cs[i]);
        i = i + 1;
    }
    out
}

/// Two strings, one after the other.
pub fn concat2(a: &str, b: &str) -> (r: String)
    ensures
        r@ == a@ + b@,
{
    let mut out = a.to_owned();
    out.append(b);
    out
}

/// Three strings, one after the other.
pub fn concat3(a: &str, b: &str, c: &str) -> (r: String)
    ensures
        r@ == a@ + b@ + c@,
{
    let mut out = concat2(a, b);
    out.append(c);
    out
}

/// A copy of a string that may be absent.
pub fn copy_opt(o: &Option<String>) -> (r: Option<String>)
    ensures
        opt_text(r) == opt_text(*o),
{
    match o {
        Some(s) => Some(s.clone()),
        None => None,
    }
}

/// A copy of a list of strings.
pub fn copy_strings(v: &Vec<String>) -> (r: Vec<String>)
    ensures
        texts(r@) == texts(v@),
{
    let mut out: Vec<String> = Vec::new();
    let mut i: usize = 0;
    while i < v.len()
        invariant
            i <= v.len(),
            out@.len() == i,
            forall|j: int| 0 <= j < i ==> (#[trigger] out@[j])@ == v@[j]@,
        decreases v.len() - i,
    {
        out.push(v[i].clone());
        i = i + 1;
    }
    out
}

/// The characters of both strings of each pair of a sequence.
pub open spec fn pairs(v: Seq<(String, String)>) -> Seq<(Seq<char>, Seq<char>)> {
    Seq::new(v.len(), |i: int| (v[i].0@, v[i].1@))
}

/// A copy of a list of pairs of strings.
pub fn copy_pairs(v: &[(String, String)]) -> (r: Vec<(String, String)>)
    ensures
        pairs(r@) == pairs(v@),
{
    let mut out: Vec<(String, String)> = Vec::new();
    let mut i: usize = 0;
    while i < v.len()
        invariant
            i <= v@.len(),
            out@.len() == i,
            forall|j: int|
                0 <= j < i ==> (#[trigger] out@[j]).0@ == v@[j].0@ && out@[j].1@ == v@[j].1@,
        decreases v@.len() - i,
    {
        out.push((v[i].0.clone(), v[i].1.clone()));
        i = i + 1;
    }
    out
}

/// The characters of each string of a sequence.
pub open spec fn texts(v: Seq<String>) -> Seq<Seq<char>> {
    Seq::new(v.len(), |i: int| v[i]@)
}

/// The characters of each character vector of a sequence.
pub open spec fn char_texts(v: Seq<Vec<char>>) -> Seq<Seq<char>> {
    Seq::new(v.len(), |i: int| v[i]@)
}

/// The characters of a string that may be absent.
pub open spec fn opt_text(o: Option<String>) -> Option<Seq<char>> {
    match o {
        Some(s) => Some(s@),
        None => None,
    }
}

/// The characters of a borrowed string that may be absent.
pub open spec fn opt_str(o: Option<&str>) -> Option<Seq<char>> {
    match o {
        Some(s) => Some(s@),
        None => None,
    }
}

// ---------------------------------------------------------------------------
// Characters
// ---------------------------------------------------------------------------

/// The Unicode property `White_Space`.
pub open spec fn white_space(c: char) -> bool {
    let u = c as u32;
    ||| 0x09 <= u <= 0x0d
    ||| u == 0x20
    ||| u == 0x85
    ||| u == 0xa0
    ||| u == 0x1680
    ||| 0x2000 <= u <= 0x200a
    ||| u == 0x2028
    ||| u == 0x2029
    ||| u == 0x202f
    ||| u == 0x205f
    ||| u == 0x3000
}

/// Whether a character has the Unicode property `White_Space`.
pub fn is_white_space(c: char) -> (r: bool)
    ensures
        r == white_space(c),
{
    let u: u32 = c as u32;
    (0x09 <= u && u <= 0x0d) || u == 0x20 || u == 0x85 || u == 0xa0 || u == 0x1680 || (0x2000 <= u
        && u <= 0x200a) || u == 0x2028 || u == 0x2029 || u == 0x202f || u == 0x205f || u == 0x3000
}

/// A character with `A` to `Z` mapped to `a` to `z`, and nothing else changed.
pub open spec fn lower_char(c: char) -> char {
    if 'A' <= c && c <= 'Z' {
        ((c as u8) + 32) as char
    } else {
        c
    }
}

/// A text with `A` to `Z` mapped to `a` to `z`, and nothing else changed.
pub open spec fn ascii_lower(s: Seq<char>) -> Seq<char> {
    Seq::new(s.len(), |i: int| lower_char(s[i]))
}

/// Maps `A` to `Z` to `a` to `z`, and nothing else.
pub fn lowered_char(c: char) -> (r: char)
    ensures
        r == lower_char(c),
{
    if 'A' <= c && c <= 'Z' {
        ((c as u8) + 32) as char
    } else {
        c
    }
}

/// Whether two texts are equal when the case of ASCII letters is ignored.
pub open spec fn same_ignoring_case(a: Seq<char>, b: Seq<char>) -> bool {
    ascii_lower(a) == ascii_lower(b)
}

/// Lowers the ASCII letters of a text.
pub fn lowered(cs: &[char]) -> (r: Vec<char>)
    ensures
        r@ == ascii_lower(cs@),
{
    let mut out: Vec<char> = Vec::new();
    let mut i: usize = 0;
    while i < cs.len()
        invariant
            i <= cs.len(),
            out@ == ascii_lower(cs@.take(i as int)),
        decreases cs.len() - i,
    {
        out.push(lowered_char(cs[i]));
        i = i + 1;
    }
    out
}

/// Lowers the ASCII letters of a string.
pub fn to_ascii_lowercase(s: &str) -> (r: String)
    ensures
        r@ == ascii_lower(s@),
{
    string_of(lowered(chars_of(s).as_slice()).as_slice())
}

/// Whether two texts are the same.
pub fn same_chars(a: &[char], b: &[char]) -> (r: bool)
    ensures
        r == (a@ == b@),
{
    if a.len() != b.len() {
        return false;
    }
    let mut i: usize = 0;
    while i < a.len()
        invariant
            i <= a.len(),
            a.len() == b.len(),
            forall|j: int| 0 <= j < i ==> a@[j] == b@[j],
        decreases a.len() - i,
    {
        if a[i] != b[i] {
            return false;
        }
        i = i + 1;
    }
    assert(a@ =~= b@);
    true
}

/// Whether two strings are the same.
pub fn same_str(a: &str, b: &str) -> (r: bool)
    ensures
        r == (a@ == b@),
{
    same_chars(chars_of(a).as_slice(), chars_of(b).as_slice())
}

/// Whether two strings are equal when the case of ASCII letters is ignored.
pub fn eq_ignore_ascii_case(a: &str, b: &str) -> (r: bool)
    ensures
        r == same_ignoring_case(a@, b@),
{
    let la = lowered(chars_of(a).as_slice());
    let lb = lowered(chars_of(b).as_slice());
    same_chars(la.as_slice(), lb.as_slice())
}

/// The lowercase form that `str::to_lowercase` gives to a text with non-ASCII characters.
pub uninterp spec fn unicode_lower(s: Seq<char>) -> Seq<char>;

/// The lowercase form of a text by Unicode's rules.
pub open spec fn lowercase(s: Seq<char>) -> Seq<char> {
    if vstd::utf8::is_ascii_chars(s) {
        ascii_lower(s)
    } else {
        unicode_lower(s)
    }
}

/// `str::to_lowercase`, which returns the lowercase equivalent of a string.
///
/// The result depends on the characters of the string alone. Of a string that holds ASCII
/// characters only, it is the string with `A` to `Z` mapped to `a` to `z`.
#[verifier::external_body]
pub(crate) fn to_lowercase(s: &str) -> (r: String)
    ensures
        vstd::utf8::is_ascii_chars(s@) ==> r@ == ascii_lower(s@),
        !vstd::utf8::is_ascii_chars(s@) ==> r@ == unicode_lower(s@),
{
    s.to_lowercase()
}

// ---------------------------------------------------------------------------
// Trimming
// ---------------------------------------------------------------------------

/// A text without its leading white space.
pub open spec fn trim_start(s: Seq<char>) -> Seq<char>
    decreases s.len(),
{
    if s.len() > 0 && white_space(s[0]) {
        trim_start(s.drop_first())
    } else {
        s
    }
}

/// A text without its trailing white space.
pub open spec fn trim_end(s: Seq<char>) -> Seq<char>
    decreases s.len(),
{
    if s.len() > 0 && white_space(s.last()) {
        trim_end(s.drop_last())
    } else {
        s
    }
}

/// A text without its leading and trailing white space.
pub open spec fn trim(s: Seq<char>) -> Seq<char> {
    trim_end(trim_start(s))
}

/// Removes leading and trailing white space.
pub fn trimmed(cs: &[char]) -> (r: &[char])
    ensures
        r@ == trim(cs@),
{
    let n = cs.len();
    let mut a: usize = 0;
    assert(cs@.subrange(0, n as int) =~= cs@);
    while a < n && is_white_space(cs[a])
        invariant
            a <= n,
            n == cs@.len(),
            trim_start(cs@) == trim_start(cs@.subrange(a as int, n as int)),
        decreases n - a,
    {
        assert(cs@.subrange(a as int, n as int).drop_first() =~= cs@.subrange(a + 1, n as int));
        a = a + 1;
    }
    let mut b: usize = n;
    let ghost rest = cs@.subrange(a as int, n as int);
    while b > a && is_white_space(cs[b - 1])
        invariant
            a <= b <= n,
            n == cs@.len(),
            trim_end(rest) == trim_end(cs@.subrange(a as int, b as int)),
        decreases b,
    {
        assert(cs@.subrange(a as int, b as int).drop_last() =~= cs@.subrange(a as int, b - 1));
        b = b - 1;
    }
    slice_subrange(cs, a, b)
}

/// Removes leading and trailing white space from a string.
pub fn trim_str(s: &str) -> (r: String)
    ensures
        r@ == trim(s@),
{
    string_of(trimmed(chars_of(s).as_slice()))
}

// ---------------------------------------------------------------------------
// Searching
// ---------------------------------------------------------------------------

/// Whether `needle` stands in `hay` at position `i`.
pub open spec fn occurs_at(hay: Seq<char>, needle: Seq<char>, i: int) -> bool {
    &&& 0 <= i <= hay.len() - needle.len()
    &&& hay.subrange(i, i + needle.len()) == needle
}

/// Whether `needle` stands anywhere in `hay`.
pub open spec fn contains(hay: Seq<char>, needle: Seq<char>) -> bool {
    exists|i: int| occurs_at(hay, needle, i)
}

/// Whether `s` begins with `prefix`.
pub open spec fn starts_with(s: Seq<char>, prefix: Seq<char>) -> bool {
    occurs_at(s, prefix, 0)
}

fn matches_at(hay: &[char], needle: &[char], at: usize) -> (r: bool)
    requires
        at + needle@.len() <= hay@.len(),
    ensures
        r == occurs_at(hay@, needle@, at as int),
{
    let mut j: usize = 0;
    while j < needle.len()
        invariant
            j <= needle.len(),
            at + needle.len() <= hay.len(),
            forall|k: int| 0 <= k < j ==> hay@[at + k] == needle@[k],
        decreases needle.len() - j,
    {
        if hay[at + j] != needle[j] {
            return false;
        }
        j = j + 1;
    }
    assert(hay@.subrange(at as int, at + needle@.len()) =~= needle@);
    true
}

/// Whether `needle` stands anywhere in `hay`.
pub fn contains_chars(hay: &[char], needle: &[char]) -> (r: bool)
    ensures
        r == contains(hay@, needle@),
{
    if needle.len() > hay.len() {
        return false;
    }
    let last = hay.len() - needle.len();
    let mut i: usize = 0;
    loop
        invariant
            i <= last,
            last == hay@.len() - needle@.len(),
            forall|k: int| 0 <= k < i ==> !occurs_at(hay@, needle@, k),
        decreases last - i,
    {
        if matches_at(hay, needle, i) {
            return true;
        }
        if i == last {
            return false;
        }
        i = i + 1;
    }
}

/// Whether the string `needle` stands anywhere in `hay`.
pub fn contains_str(hay: &[char], needle: &str) -> (r: bool)
    ensures
        r == contains(hay@, needle@),
{
    contains_chars(hay, chars_of(needle).as_slice())
}

/// Whether `s` begins with the string `prefix`.
pub fn starts_with_str(s: &[char], prefix: &str) -> (r: bool)
    ensures
        r == starts_with(s@, prefix@),
{
    let p = chars_of(prefix);
    if p.len() > s.len() {
        return false;
    }
    matches_at(s, p.as_slice(), 0)
}

// ---------------------------------------------------------------------------
// Lines
// ---------------------------------------------------------------------------

/// The position of the first `c` in `s`, or the length of `s` where there is none.
pub open spec fn find_char(s: Seq<char>, c: char) -> int
    decreases s.len(),
{
    if s.len() == 0 || s[0] == c {
        0
    } else {
        1 + find_char(s.drop_first(), c)
    }
}

/// A line without the carriage return that its line ending may have left on it.
pub open spec fn strip_cr(s: Seq<char>) -> Seq<char> {
    if s.len() > 0 && s.last() == '\r' {
        s.drop_last()
    } else {
        s
    }
}

/// The lines of a text.
///
/// A line ends at `\n` or `\r\n`, which are no part of it. The ending of the last line is
/// optional, and a carriage return that no `\n` follows is kept.
pub open spec fn lines(s: Seq<char>) -> Seq<Seq<char>>
    decreases s.len(),
{
    let k = find_char(s, '\n');
    if s.len() == 0 {
        seq![]
    } else if 0 <= k < s.len() {
        seq![strip_cr(s.subrange(0, k))] + lines(s.subrange(k + 1, s.len() as int))
    } else {
        seq![s]
    }
}

/// What `find_char` finds.
pub proof fn lemma_find_char(s: Seq<char>, c: char)
    ensures
        0 <= find_char(s, c) <= s.len(),
        find_char(s, c) < s.len() ==> s[find_char(s, c)] == c,
        forall|j: int| 0 <= j < find_char(s, c) ==> s[j] != c,
    decreases s.len(),
{
    if s.len() > 0 && s[0] != c {
        lemma_find_char(s.drop_first(), c);
        assert forall|j: int| 0 <= j < find_char(s, c) implies s[j] != c by {
            if j > 0 {
                assert(s.drop_first()[j - 1] == s[j]);
            }
        }
    }
}

/// The lines of a text that consists of two texts with a line ending between them.
pub proof fn lemma_lines_behind_newline(a: Seq<char>, b: Seq<char>)
    ensures
        lines(a.push('\n') + b) == lines(a.push('\n')) + lines(b),
    decreases a.len(),
{
    let s = a.push('\n');
    let t = s + b;
    let k = find_char(s, '\n');
    lemma_find_char(s, '\n');
    lemma_find_char(t, '\n');
    assert(s[a.len() as int] == '\n');
    assert(find_char(t, '\n') == k) by {
        let f = find_char(t, '\n');
        if k < f {
            assert(t[k] == s[k]);
        }
    }
    assert(t.subrange(0, k) =~= s.subrange(0, k));
    let rest = s.subrange(k + 1, s.len() as int);
    let more = t.subrange(k + 1, t.len() as int);
    let line = seq![strip_cr(s.subrange(0, k))];
    if k < a.len() {
        let after = a.subrange(k + 1, a.len() as int);
        assert(rest =~= after.push('\n'));
        assert(more =~= after.push('\n') + b);
        lemma_lines_behind_newline(after, b);
    } else {
        assert(more =~= b);
    }
    assert(line + (lines(rest) + lines(b)) =~= (line + lines(rest)) + lines(b));
}

/// A carriage return at the end of a text is trimmed away.
pub proof fn lemma_trim_cr(s: Seq<char>)
    ensures
        trim(strip_cr(s)) == trim(s),
    decreases s.len(),
{
    if s.len() > 0 && s.last() == '\r' {
        let front = s.drop_last();
        if front.len() == 0 {
            assert(s.drop_first() =~= seq![]);
            assert(front =~= seq![]);
        } else if white_space(s[0]) {
            let rest = s.drop_first();
            assert(rest.drop_last() =~= front.drop_first());
            lemma_trim_cr(rest);
        }
    }
}

/// The position of the first `c` at or after `from`, or the length where there is none.
pub fn find_from(cs: &[char], from: usize, c: char) -> (r: usize)
    requires
        from <= cs@.len(),
    ensures
        from <= r <= cs@.len(),
        r == from + find_char(cs@.subrange(from as int, cs@.len() as int), c),
{
    let n = cs.len();
    let mut i: usize = from;
    while i < n && cs[i] != c
        invariant
            from <= i <= n,
            n == cs@.len(),
            from + find_char(cs@.subrange(from as int, n as int), c) == i + find_char(
                cs@.subrange(i as int, n as int),
                c,
            ),
        decreases n - i,
    {
        assert(cs@.subrange(i as int, n as int).drop_first() =~= cs@.subrange(i + 1, n as int));
        i = i + 1;
    }
    i
}

/// Splits a text into its lines.
pub fn lines_of(cs: &[char]) -> (r: Vec<Vec<char>>)
    ensures
        char_texts(r@) == lines(cs@),
{
    let n = cs.len();
    let mut out: Vec<Vec<char>> = Vec::new();
    let mut i: usize = 0;
    assert(cs@.subrange(0, n as int) =~= cs@);
    while i < n
        invariant
            i <= n,
            n == cs@.len(),
            char_texts(out@) + lines(cs@.subrange(i as int, n as int)) == lines(cs@),
        decreases n - i,
    {
        let ghost rest = cs@.subrange(i as int, n as int);
        let k = find_from(cs, i, '\n');
        let mut e: usize = k;
        if k < n && k > i && cs[k - 1] == '\r' {
            e = k - 1;
        }
        let line = vstd::slice::slice_to_vec(slice_subrange(cs, i, e));
        let ghost text = line@;
        out.push(line);
        if k < n {
            assert(text =~= strip_cr(rest.subrange(0, k - i)));
            assert(rest.subrange(k - i + 1, rest.len() as int) =~= cs@.subrange(k + 1, n as int));
            i = k + 1;
        } else {
            i = n;
        }
    }
    out
}

// ---------------------------------------------------------------------------
// Encoded length
// ---------------------------------------------------------------------------

/// How many bytes a character takes in UTF-8.
pub open spec fn utf8_width(c: char) -> int {
    if (c as u32) < 0x80 {
        1
    } else if (c as u32) < 0x800 {
        2
    } else if (c as u32) < 0x10000 {
        3
    } else {
        4
    }
}

/// How many characters of a text fit into `max` bytes of UTF-8.
pub open spec fn fitting(s: Seq<char>, max: int) -> int
    decreases s.len(),
{
    if s.len() == 0 || utf8_width(s[0]) > max {
        0
    } else {
        1 + fitting(s.drop_first(), max - utf8_width(s[0]))
    }
}

/// How many bytes a character takes in UTF-8.
pub fn width_of(c: char) -> (r: usize)
    ensures
        r == utf8_width(c),
        1 <= r <= 4,
{
    if (c as u32) < 0x80 {
        1
    } else if (c as u32) < 0x800 {
        2
    } else if (c as u32) < 0x10000 {
        3
    } else {
        4
    }
}

/// How many characters of a text fit into `max` bytes of UTF-8.
pub fn fitting_chars(cs: &[char], max: usize) -> (r: usize)
    ensures
        r == fitting(cs@, max as int),
        r <= cs@.len(),
{
    let mut left: usize = max;
    let mut i: usize = 0;
    assert(cs@.skip(0) =~= cs@);
    while i < cs.len() && width_of(cs[i]) <= left
        invariant
            i <= cs@.len(),
            fitting(cs@, max as int) == i + fitting(cs@.skip(i as int), left as int),
        decreases cs@.len() - i,
    {
        assert(cs@.skip(i as int).drop_first() =~= cs@.skip(i + 1));
        left = left - width_of(cs[i]);
        i = i + 1;
    }
    i
}

/// The text that `String::from_utf8_lossy` gives for bytes that are not UTF-8.
pub uninterp spec fn repaired(bytes: Seq<u8>) -> Seq<char>;

/// The text of bytes: what they encode, where they are UTF-8.
pub open spec fn lossy(bytes: Seq<u8>) -> Seq<char> {
    if vstd::utf8::valid_utf8(bytes) {
        vstd::utf8::decode_utf8(bytes)
    } else {
        repaired(bytes)
    }
}

/// `String::from_utf8_lossy`, which turns bytes into a string, with replacement characters for
/// what is not UTF-8.
///
/// The result depends on the bytes alone. Of bytes that are UTF-8, it is the text that they
/// encode.
#[verifier::external_body]
pub(crate) fn from_utf8_lossy(bytes: &[u8]) -> (r: String)
    ensures
        vstd::utf8::valid_utf8(bytes@) ==> r@ == vstd::utf8::decode_utf8(bytes@),
        !vstd::utf8::valid_utf8(bytes@) ==> r@ == repaired(bytes@),
{
    String::from_utf8_lossy(bytes).into_owned()
}

// ---------------------------------------------------------------------------
// Words
// ---------------------------------------------------------------------------

/// How many characters of `s` stand before its first white space.
pub open spec fn word_len(s: Seq<char>) -> int
    decreases s.len(),
{
    if s.len() == 0 || white_space(s[0]) {
        0
    } else {
        1 + word_len(s.drop_first())
    }
}

/// The words of a text: its longest runs of characters that are not white space.
pub open spec fn words(s: Seq<char>) -> Seq<Seq<char>>
    decreases s.len(),
{
    let k = word_len(s);
    if s.len() == 0 {
        seq![]
    } else if 0 < k <= s.len() {
        seq![s.subrange(0, k)] + words(s.subrange(k, s.len() as int))
    } else {
        words(s.drop_first())
    }
}

/// What `word_len` counts.
pub proof fn lemma_word_len(s: Seq<char>)
    ensures
        0 <= word_len(s) <= s.len(),
        word_len(s) < s.len() ==> white_space(s[word_len(s)]),
        forall|j: int| 0 <= j < word_len(s) ==> !white_space(s[j]),
    decreases s.len(),
{
    if s.len() > 0 && !white_space(s[0]) {
        lemma_word_len(s.drop_first());
        assert forall|j: int| 0 <= j < word_len(s) implies !white_space(s[j]) by {
            if j > 0 {
                assert(s.drop_first()[j - 1] == s[j]);
            }
        }
    }
}

/// Splits a text into its words.
pub fn words_of(cs: &[char]) -> (r: Vec<Vec<char>>)
    ensures
        char_texts(r@) == words(cs@),
{
    let n = cs.len();
    let mut out: Vec<Vec<char>> = Vec::new();
    let mut i: usize = 0;
    assert(cs@.subrange(0, n as int) =~= cs@);
    while i < n
        invariant
            i <= n,
            n == cs@.len(),
            char_texts(out@) + words(cs@.subrange(i as int, n as int)) == words(cs@),
        decreases n - i,
    {
        let ghost rest = cs@.subrange(i as int, n as int);
        let mut k: usize = i;
        while k < n && !is_white_space(cs[k])
            invariant
                i <= k <= n,
                n == cs@.len(),
                rest == cs@.subrange(i as int, n as int),
                word_len(rest) == (k - i) + word_len(cs@.subrange(k as int, n as int)),
            decreases n - k,
        {
            assert(cs@.subrange(k as int, n as int).drop_first() =~= cs@.subrange(
                k + 1,
                n as int,
            ));
            k = k + 1;
        }
        if k > i {
            let word = vstd::slice::slice_to_vec(slice_subrange(cs, i, k));
            let ghost text = word@;
            out.push(word);
            assert(rest.subrange(0, k - i) =~= text);
            assert(rest.subrange(k - i, rest.len() as int) =~= cs@.subrange(k as int, n as int));
            i = k;
        } else {
            assert(rest.drop_first() =~= cs@.subrange(i + 1, n as int));
            i = i + 1;
        }
    }
    out
}

/// Whether a text is white space only.
pub open spec fn blank(s: Seq<char>) -> bool {
    forall|i: int| 0 <= i < s.len() ==> white_space(#[trigger] s[i])
}

/// White space before a text does not change its words.
pub proof fn lemma_words_after_blank(b: Seq<char>, s: Seq<char>)
    requires
        blank(b),
    ensures
        words(b + s) == words(s),
    decreases b.len(),
{
    if b.len() == 0 {
        assert(b + s =~= s);
    } else {
        assert((b + s)[0] == b[0]);
        assert((b + s).drop_first() =~= b.drop_first() + s);
        assert forall|i: int| 0 <= i < b.drop_first().len() implies white_space(
            #[trigger] b.drop_first()[i],
        ) by {
            assert(b.drop_first()[i] == b[i + 1]);
        }
        lemma_words_after_blank(b.drop_first(), s);
    }
}

proof fn lemma_word_len_before_blank(s: Seq<char>, b: Seq<char>)
    requires
        blank(b),
    ensures
        word_len(s + b) == word_len(s),
    decreases s.len(),
{
    if s.len() == 0 {
        assert(s + b =~= b);
    } else if !white_space(s[0]) {
        assert((s + b)[0] == s[0]);
        assert((s + b).drop_first() =~= s.drop_first() + b);
        lemma_word_len_before_blank(s.drop_first(), b);
    } else {
        assert((s + b)[0] == s[0]);
    }
}

/// White space after a text does not change its words.
pub proof fn lemma_words_before_blank(s: Seq<char>, b: Seq<char>)
    requires
        blank(b),
    ensures
        words(s + b) == words(s),
    decreases s.len(),
{
    let k = word_len(s);
    lemma_word_len(s);
    lemma_word_len_before_blank(s, b);
    if s.len() == 0 {
        lemma_words_after_blank(b, Seq::empty());
    } else if 0 < k {
        assert((s + b).subrange(0, k) =~= s.subrange(0, k));
        assert((s + b).subrange(k, (s + b).len() as int) =~= s.subrange(k, s.len() as int) + b);
        lemma_words_before_blank(s.subrange(k, s.len() as int), b);
    } else {
        assert((s + b).drop_first() =~= s.drop_first() + b);
        lemma_words_before_blank(s.drop_first(), b);
    }
}

proof fn lemma_word_len_lower(s: Seq<char>)
    ensures
        word_len(ascii_lower(s)) == word_len(s),
    decreases s.len(),
{
    if s.len() > 0 && !white_space(s[0]) {
        assert(ascii_lower(s).drop_first() =~= ascii_lower(s.drop_first()));
        lemma_word_len_lower(s.drop_first());
    }
}

/// The words of a text in lower case are its words, each in lower case.
pub proof fn lemma_words_lower(s: Seq<char>)
    ensures
        words(ascii_lower(s)) == Seq::new(words(s).len(), |i: int| ascii_lower(words(s)[i])),
    decreases s.len(),
{
    let low = ascii_lower(s);
    let k = word_len(s);
    lemma_word_len(s);
    lemma_word_len_lower(s);
    if s.len() == 0 {
        assert(words(low) =~= Seq::new(words(s).len(), |i: int| ascii_lower(words(s)[i])));
    } else if 0 < k {
        let rest = s.subrange(k, s.len() as int);
        lemma_words_lower(rest);
        assert(low.subrange(k, low.len() as int) =~= ascii_lower(rest));
        assert(low.subrange(0, k) =~= ascii_lower(s.subrange(0, k)));
        assert(words(low) =~= Seq::new(words(s).len(), |i: int| ascii_lower(words(s)[i])));
    } else {
        lemma_words_lower(s.drop_first());
        assert(low.drop_first() =~= ascii_lower(s.drop_first()));
    }
}

// ---------------------------------------------------------------------------
// Laws
// ---------------------------------------------------------------------------

/// A text contains another exactly where it can be cut into what precedes the other, the other
/// itself and what follows it.
pub proof fn law_contains_is_a_cut(hay: Seq<char>, needle: Seq<char>)
    ensures
        contains(hay, needle) <==> exists|before: Seq<char>, after: Seq<char>|
            hay == #[trigger] (before + needle + after),
{
    if contains(hay, needle) {
        let i = choose|i: int| occurs_at(hay, needle, i);
        let before = hay.subrange(0, i);
        let after = hay.subrange(i + needle.len(), hay.len() as int);
        assert(hay =~= before + hay.subrange(i, i + needle.len()) + after);
        assert(hay == before + needle + after);
    }
    if exists|before: Seq<char>, after: Seq<char>| hay == #[trigger] (before + needle + after) {
        let (before, after) = choose|before: Seq<char>, after: Seq<char>|
            hay == #[trigger] (before + needle + after);
        assert(hay.subrange(before.len() as int, (before.len() + needle.len()) as int) =~= needle);
        assert(occurs_at(hay, needle, before.len() as int));
    }
}

/// A text begins with another exactly where it is the other with something behind it.
pub proof fn law_starts_with_is_a_cut(s: Seq<char>, prefix: Seq<char>)
    ensures
        starts_with(s, prefix) <==> exists|after: Seq<char>| s == #[trigger] (prefix + after),
{
    if starts_with(s, prefix) {
        let after = s.subrange(prefix.len() as int, s.len() as int);
        assert(s =~= s.subrange(0, prefix.len() as int) + after);
        assert(s == prefix + after);
    }
    if exists|after: Seq<char>| s == #[trigger] (prefix + after) {
        assert(s.subrange(0, prefix.len() as int) =~= prefix);
    }
}

/// White space is these characters and no others.
pub proof fn law_white_space_is_listed(c: char)
    ensures
        white_space(c) <==> seq![
            '\u{9}',
            '\u{a}',
            '\u{b}',
            '\u{c}',
            '\u{d}',
            ' ',
            '\u{85}',
            '\u{a0}',
            '\u{1680}',
            '\u{2000}',
            '\u{2001}',
            '\u{2002}',
            '\u{2003}',
            '\u{2004}',
            '\u{2005}',
            '\u{2006}',
            '\u{2007}',
            '\u{2008}',
            '\u{2009}',
            '\u{200a}',
            '\u{2028}',
            '\u{2029}',
            '\u{202f}',
            '\u{205f}',
            '\u{3000}',
        ].contains(c),
{
    let all = seq![
        '\u{9}',
        '\u{a}',
        '\u{b}',
        '\u{c}',
        '\u{d}',
        ' ',
        '\u{85}',
        '\u{a0}',
        '\u{1680}',
        '\u{2000}',
        '\u{2001}',
        '\u{2002}',
        '\u{2003}',
        '\u{2004}',
        '\u{2005}',
        '\u{2006}',
        '\u{2007}',
        '\u{2008}',
        '\u{2009}',
        '\u{200a}',
        '\u{2028}',
        '\u{2029}',
        '\u{202f}',
        '\u{205f}',
        '\u{3000}',
    ];
    if white_space(c) {
        let u = c as u32 as int;
        let at = if u <= 0x0d {
            u - 9
        } else if u == 0x20 {
            5
        } else if u == 0x85 {
            6
        } else if u == 0xa0 {
            7
        } else if u == 0x1680 {
            8
        } else if u <= 0x200a {
            u - 0x2000 + 9
        } else if u <= 0x2029 {
            u - 0x2028 + 20
        } else if u == 0x202f {
            22
        } else if u == 0x205f {
            23
        } else {
            24
        };
        assert(all[at] as u32 == c as u32);
        assert(all[at] == c);
    }
}

/// In lower case, the letters `A` to `Z` are 32 code points further on, and every other character
/// stays as it is.
pub proof fn law_lower_case_moves_capitals(s: Seq<char>, i: int)
    requires
        0 <= i < s.len(),
    ensures
        ascii_lower(s).len() == s.len(),
        0x41 <= s[i] as u32 <= 0x5a ==> ascii_lower(s)[i] as u32 == s[i] as u32 + 32,
        !(0x41 <= s[i] as u32 <= 0x5a) ==> ascii_lower(s)[i] == s[i],
{
}

/// The lower case of an ASCII text changes its ASCII letters only. That of another text is what
/// the Unicode mapping gives.
pub proof fn law_lower_case_of_ascii(s: Seq<char>)
    ensures
        (forall|i: int| 0 <= i < s.len() ==> #[trigger] s[i] <= '\u{7f}') ==> lowercase(s)
            == ascii_lower(s),
        (exists|i: int| 0 <= i < s.len() && #[trigger] s[i] > '\u{7f}') ==> lowercase(s)
            == unicode_lower(s),
{
    assert forall|i: int| 0 <= i < s.len() implies '\0' <= #[trigger] s[i] by {
        lemma_first_character(s[i]);
    }
}

proof fn lemma_first_character(c: char)
    ensures
        '\0' <= c,
{
}

/// Trimming takes away the white space around a text, all of it and nothing else.
pub proof fn law_trim_takes_what_surrounds(before: Seq<char>, s: Seq<char>, after: Seq<char>)
    requires
        forall|i: int| 0 <= i < before.len() ==> white_space(#[trigger] before[i]),
        forall|i: int| 0 <= i < after.len() ==> white_space(#[trigger] after[i]),
        s.len() > 0 ==> !white_space(s[0]) && !white_space(s.last()),
    ensures
        trim(before + s + after) == s,
    decreases before.len() + after.len(),
{
    let t = before + s + after;
    if before.len() > 0 {
        assert(t[0] == before[0]);
        assert(t.drop_first() =~= before.drop_first() + s + after);
        law_trim_takes_what_surrounds(before.drop_first(), s, after);
    } else if s.len() > 0 {
        assert(t =~= s + after);
        assert(t[0] == s[0]);
        lemma_trim_end_of_blank(s, after);
    } else if after.len() > 0 {
        assert(t =~= after);
        assert(t.drop_first() =~= before + s + after.drop_first());
        law_trim_takes_what_surrounds(before, s, after.drop_first());
    } else {
        assert(t =~= s);
    }
}

proof fn lemma_trim_end_of_blank(s: Seq<char>, after: Seq<char>)
    requires
        blank(after),
        s.len() > 0,
        !white_space(s.last()),
    ensures
        trim_end(s + after) == s,
    decreases after.len(),
{
    if after.len() == 0 {
        assert(s + after =~= s);
    } else {
        assert((s + after).last() == after[after.len() - 1]);
        assert((s + after).drop_last() =~= s + after.drop_last());
        lemma_trim_end_of_blank(s, after.drop_last());
    }
}

/// A line break ends a line, with a carriage return before it or without, and stands in no line.
pub proof fn law_line_breaks_end_lines(line: Seq<char>, rest: Seq<char>)
    requires
        forall|i: int| 0 <= i < line.len() ==> #[trigger] line[i] != '\n',
    ensures
        lines(line + seq!['\r', '\n'] + rest) == seq![line] + lines(rest),
        !(line.len() > 0 && line.last() == '\r') ==> lines(line + seq!['\n'] + rest) == seq![line]
            + lines(rest),
{
    let dos = line + seq!['\r', '\n'] + rest;
    let unix = line + seq!['\n'] + rest;
    lemma_find_char(dos, '\n');
    lemma_find_char(unix, '\n');
    assert(dos[line.len() as int + 1] == '\n');
    assert(unix[line.len() as int] == '\n');
    let k = find_char(dos, '\n');
    assert(k == line.len() + 1) by {
        if k < line.len() {
            assert(dos[k] == line[k]);
        } else if k == line.len() {
            assert(dos[k] == '\r');
        }
    }
    let m = find_char(unix, '\n');
    assert(m == line.len()) by {
        if m < line.len() {
            assert(unix[m] == line[m]);
        }
    }
    assert(dos.subrange(0, k) =~= line.push('\r'));
    assert(line.push('\r').drop_last() =~= line);
    assert(dos.subrange(k + 1, dos.len() as int) =~= rest);
    assert(unix.subrange(0, m) =~= line);
    assert(unix.subrange(m + 1, unix.len() as int) =~= rest);
}

/// What stands behind the last line break is a line, unless it is empty.
pub proof fn law_last_line_needs_no_break(line: Seq<char>)
    requires
        forall|i: int| 0 <= i < line.len() ==> #[trigger] line[i] != '\n',
    ensures
        line.len() > 0 ==> lines(line) == seq![line],
        line.len() == 0 ==> lines(line).len() == 0,
{
    lemma_find_char(line, '\n');
}

/// White space separates words: the words of a text in two parts with white space between them
/// are those of the first part, and then those of the second.
pub proof fn law_white_space_separates_words(s: Seq<char>, gap: Seq<char>, t: Seq<char>)
    requires
        gap.len() > 0,
        forall|i: int| 0 <= i < gap.len() ==> white_space(#[trigger] gap[i]),
    ensures
        words(s + gap + t) == words(s) + words(t),
    decreases s.len(),
{
    let all = s + gap + t;
    lemma_word_len(s);
    lemma_word_len(all);
    let k = word_len(s);
    if s.len() == 0 {
        assert(all =~= gap + t);
        lemma_words_after_blank(gap, t);
        assert(words(s) + words(t) =~= words(t));
    } else if k > 0 {
        let m = word_len(all);
        assert(m == k) by {
            if m < k {
                assert(all[m] == s[m]);
            } else if m > k {
                if k < s.len() {
                    assert(all[k] == s[k]);
                } else {
                    assert(all[k] == gap[0]);
                }
            }
        }
        let rest = s.subrange(k, s.len() as int);
        assert(all.subrange(0, k) =~= s.subrange(0, k));
        assert(all.subrange(k, all.len() as int) =~= rest + gap + t);
        law_white_space_separates_words(rest, gap, t);
        let word = seq![s.subrange(0, k)];
        assert(word + (words(rest) + words(t)) =~= (word + words(rest)) + words(t));
    } else {
        assert(all[0] == s[0]);
        assert(all.drop_first() =~= s.drop_first() + gap + t);
        law_white_space_separates_words(s.drop_first(), gap, t);
    }
}

/// A text without white space is one word, unless it is empty. White space holds no word.
pub proof fn law_words_hold_no_white_space(s: Seq<char>)
    ensures
        s.len() > 0 && (forall|i: int| 0 <= i < s.len() ==> !white_space(#[trigger] s[i])) ==> words(
            s,
        ) == seq![s],
        (forall|i: int| 0 <= i < s.len() ==> white_space(#[trigger] s[i])) ==> words(s).len() == 0,
{
    lemma_word_len(s);
    if s.len() > 0 && (forall|i: int| 0 <= i < s.len() ==> !white_space(#[trigger] s[i])) {
        let k = word_len(s);
        assert(k == s.len());
        assert(s.subrange(0, k) =~= s);
        assert(s.subrange(k, k) =~= Seq::<char>::empty());
        assert(words(s) == seq![s.subrange(0, k)] + words(s.subrange(k, s.len() as int)));
        assert(words(s) =~= seq![s]);
    }
    if blank(s) {
        lemma_words_after_blank(s, Seq::empty());
        assert(s + Seq::<char>::empty() =~= s);
    }
}

proof fn lemma_encoded_in_turn(s: Seq<char>)
    requires
        s.len() > 0,
    ensures
        vstd::utf8::encode_utf8(s).len() == utf8_width(s[0]) + vstd::utf8::encode_utf8(
            s.drop_first(),
        ).len(),
{
    vstd::utf8::char_is_scalar(s[0]);
}

/// As many characters fit into a number of bytes as can be encoded in them: one more would not fit.
pub proof fn law_fitting_characters_are_the_most(s: Seq<char>, max: int)
    requires
        max >= 0,
    ensures
        0 <= fitting(s, max) <= s.len(),
        vstd::utf8::encode_utf8(s.take(fitting(s, max))).len() <= max,
        fitting(s, max) < s.len() ==> vstd::utf8::encode_utf8(s.take(fitting(s, max) + 1)).len()
            > max,
    decreases s.len(),
{
    let n = fitting(s, max);
    if s.len() == 0 {
        assert(s.take(0).len() == 0);
    } else if utf8_width(s[0]) > max {
        assert(s.take(0).len() == 0);
        lemma_encoded_in_turn(s.take(1));
    } else {
        let rest = s.drop_first();
        let left = max - utf8_width(s[0]);
        law_fitting_characters_are_the_most(rest, left);
        lemma_encoded_in_turn(s.take(n));
        assert(s.take(n).drop_first() =~= rest.take(n - 1));
        if n < s.len() {
            lemma_encoded_in_turn(s.take(n + 1));
            assert(s.take(n + 1).drop_first() =~= rest.take(n));
        }
    }
}

/// What strings say is what their characters are, one text for one string, in order, and a string
/// that is absent says nothing.
pub proof fn law_texts_are_what_strings_hold(
    v: Seq<String>,
    cs: Seq<Vec<char>>,
    ps: Seq<(String, String)>,
    s: String,
    t: &str,
)
    ensures
        texts(v).len() == v.len(),
        forall|i: int| 0 <= i < v.len() ==> #[trigger] texts(v)[i] == v[i]@,
        char_texts(cs).len() == cs.len(),
        forall|i: int| 0 <= i < cs.len() ==> #[trigger] char_texts(cs)[i] == cs[i]@,
        pairs(ps).len() == ps.len(),
        forall|i: int| 0 <= i < ps.len() ==> (#[trigger] pairs(ps)[i]).0 == ps[i].0@,
        forall|i: int| 0 <= i < ps.len() ==> (#[trigger] pairs(ps)[i]).1 == ps[i].1@,
        opt_text(Some(s)) == Some(s@),
        opt_text(None) is None,
        opt_str(Some(t)) == Some(t@),
        opt_str(None) is None,
{
}

/// A longer beginning of a text takes at least as many bytes.
pub proof fn law_encoding_grows(s: Seq<char>, k: int)
    requires
        0 <= k <= s.len(),
    ensures
        vstd::utf8::encode_utf8(s.take(k)).len() <= vstd::utf8::encode_utf8(s).len(),
    decreases s.len(),
{
    if k > 0 {
        lemma_encoded_in_turn(s);
        lemma_encoded_in_turn(s.take(k));
        assert(s.take(k).drop_first() =~= s.drop_first().take(k - 1));
        law_encoding_grows(s.drop_first(), k - 1);
    } else {
        assert(s.take(0).len() == 0);
    }
}

/// Two texts are the same but for case exactly where they have as many characters, and each pair of
/// characters at one place is the same, or the same letter in either case.
pub proof fn law_same_but_for_case(a: Seq<char>, b: Seq<char>)
    ensures
        same_ignoring_case(a, b) <==> a.len() == b.len() && forall|i: int|
            0 <= i < a.len() ==> lower_char(#[trigger] a[i]) == lower_char(b[i]),
{
    let x = ascii_lower(a);
    let y = ascii_lower(b);
    if same_ignoring_case(a, b) {
        assert(x.len() == y.len());
        assert forall|i: int| 0 <= i < a.len() implies lower_char(#[trigger] a[i]) == lower_char(
            b[i],
        ) by {
            assert(x[i] == y[i]);
        }
    }
    if a.len() == b.len() && forall|i: int|
        0 <= i < a.len() ==> lower_char(#[trigger] a[i]) == lower_char(b[i]) {
        assert(x =~= y);
    }
}

} // verus!
