//! Text as sequences of characters.
//!
//! Strings are compared, cut and joined here by what they hold, character by
//! character. The character classes come from the standard library; everything
//! built on them is proved.

use vstd::prelude::*;

verus! {

// ── Character classes ───────────────────────────────────────────────────

/// The answer of [`char::is_alphabetic`] for a character beyond ASCII.
pub uninterp spec fn other_alphabetic(c: char) -> bool;

/// The answer of [`char::is_numeric`] for a character beyond ASCII.
pub uninterp spec fn other_numeric(c: char) -> bool;

/// The answer of [`char::is_whitespace`] for a character beyond ASCII.
pub uninterp spec fn other_whitespace(c: char) -> bool;

pub open spec fn ascii(c: char) -> bool {
    c <= '\x7f'
}

pub open spec fn ascii_letter(c: char) -> bool {
    'a' <= c <= 'z' || 'A' <= c <= 'Z'
}

pub open spec fn ascii_digit(c: char) -> bool {
    '0' <= c <= '9'
}

pub open spec fn ascii_space(c: char) -> bool {
    c == ' ' || '\t' <= c <= '\r'
}

/// Whether a character is alphabetic: among the ASCII characters the letters.
pub open spec fn char_alphabetic(c: char) -> bool {
    if ascii(c) {
        ascii_letter(c)
    } else {
        other_alphabetic(c)
    }
}

/// Whether a character is numeric: among the ASCII characters the digits.
pub open spec fn char_numeric(c: char) -> bool {
    if ascii(c) {
        ascii_digit(c)
    } else {
        other_numeric(c)
    }
}

/// Whether a character is alphanumeric: alphabetic or numeric.
pub open spec fn char_alphanumeric(c: char) -> bool {
    char_alphabetic(c) || char_numeric(c)
}

/// Whether a character is white space: among the ASCII characters the space and
/// the controls from tab to carriage return.
pub open spec fn char_whitespace(c: char) -> bool {
    if ascii(c) {
        ascii_space(c)
    } else {
        other_whitespace(c)
    }
}

/// [`char::is_alphabetic`]: a fixed property of the character, which among the
/// ASCII characters exactly the letters have.
pub assume_specification[ char::is_alphabetic ](c: char) -> (r: bool)
    ensures
        ascii(c) ==> r == ascii_letter(c),
        !ascii(c) ==> r == other_alphabetic(c),
;

/// [`char::is_alphanumeric`]: a character has it that satisfies either
/// [`char::is_alphabetic`] or [`char::is_numeric`], which are fixed properties of
/// the character; among the ASCII characters exactly the letters and the digits.
pub assume_specification[ char::is_alphanumeric ](c: char) -> (r: bool)
    ensures
        ascii(c) ==> r == (ascii_letter(c) || ascii_digit(c)),
        !ascii(c) ==> r == (other_alphabetic(c) || other_numeric(c)),
;

/// [`char::is_whitespace`]: a fixed property of the character, which among the
/// ASCII characters exactly the space and the controls from tab to carriage
/// return have.
pub assume_specification[ char::is_whitespace ](c: char) -> (r: bool)
    ensures
        ascii(c) ==> r == ascii_space(c),
        !ascii(c) ==> r == other_whitespace(c),
;

/// [`String::push`]: the character goes to the end.
pub assume_specification[ String::push ](s: &mut String, c: char)
    ensures
        final(s)@ == old(s)@.push(c),
;

/// The characters of a text.
pub fn chars_of(text: &str) -> (r: Vec<char>)
    ensures
        r@ == text@,
{
    let mut r: Vec<char> = Vec::new();
    for c in it: text.chars()
        invariant
            r@ == it.seq().take(it.index() as int),
            it.seq() == text@,
    {
        r.push(c);
    }
    r
}

/// The text that some characters in a row spell.
pub fn text_of(chars: &Vec<char>, from: usize, to: usize) -> (r: String)
    requires
        from <= to <= chars@.len(),
    ensures
        r@ == chars@.subrange(from as int, to as int),
{
    let mut r = String::new();
    let mut i: usize = from;
    while i < to
        invariant
            from <= i <= to <= chars@.len(),
            r@ == chars@.subrange(from as int, i as int),
        decreases to - i,
    {
        r.push(chars[i]);
        i += 1;
    }
    r
}

// ── Comparing ───────────────────────────────────────────────────────────

/// Whether two texts hold the same characters.
pub fn same(a: &str, b: &str) -> (r: bool)
    ensures
        r == (a@ == b@),
{
    let a = a.to_owned();
    let b = b.to_owned();
    a == b
}

/// Whether the characters from `at` on begin with `part`.
fn part_at(chars: &Vec<char>, at: usize, part: &Vec<char>) -> (r: bool)
    requires
        at + part@.len() <= chars@.len(),
    ensures
        r == (chars@.subrange(at as int, at + part@.len()) == part@),
{
    let end = chars.len();
    let mut i: usize = 0;
    while i < part.len()
        invariant
            i <= part@.len(),
            end == chars@.len(),
            at + part@.len() <= end,
            forall|k: int| 0 <= k < i ==> chars@[at + k] == part@[k],
        decreases part@.len() - i,
    {
        if chars[at + i] != part[i] {
            proof {
                assert(chars@.subrange(at as int, at + part@.len())[i as int] != part@[i as int]);
            }
            return false;
        }
        i += 1;
    }
    assert(chars@.subrange(at as int, at + part@.len()) =~= part@);
    true
}

/// Whether a text begins with `prefix`.
pub fn starts_with(text: &str, prefix: &str) -> (r: bool)
    ensures
        r == prefix@.is_prefix_of(text@),
{
    let chars = chars_of(text);
    let part = chars_of(prefix);
    part.len() <= chars.len() && part_at(&chars, 0, &part)
}

/// Whether a text ends with `suffix`.
pub fn ends_with(text: &str, suffix: &str) -> (r: bool)
    ensures
        r == suffix@.is_suffix_of(text@),
{
    let chars = chars_of(text);
    let part = chars_of(suffix);
    part.len() <= chars.len() && part_at(&chars, chars.len() - part.len(), &part)
}

/// Whether `part` stands somewhere in `text`.
pub open spec fn has_part(text: Seq<char>, part: Seq<char>) -> bool {
    exists|at: int|
        0 <= at <= text.len() - part.len() && #[trigger] text.subrange(at, at + part.len()) == part
}

/// Whether `part` stands somewhere in `text`.
pub fn contains(text: &str, part: &str) -> (r: bool)
    ensures
        r == has_part(text@, part@),
{
    let chars = chars_of(text);
    let wanted = chars_of(part);
    if wanted.len() > chars.len() {
        return false;
    }
    let last = chars.len() - wanted.len();
    let mut at: usize = 0;
    while at < last
        invariant
            chars@ == text@,
            wanted@ == part@,
            last == chars@.len() - wanted@.len(),
            at <= last,
            forall|k: int|
                0 <= k < at ==> #[trigger] chars@.subrange(k, k + wanted@.len()) != wanted@,
        decreases last - at,
    {
        if part_at(&chars, at, &wanted) {
            return true;
        }
        at += 1;
    }
    part_at(&chars, last, &wanted)
}

/// What follows `prefix` in `text`, where `text` begins with it.
pub open spec fn after_prefix(text: Seq<char>, prefix: Seq<char>) -> Option<Seq<char>> {
    if prefix.is_prefix_of(text) {
        Some(text.skip(prefix.len() as int))
    } else {
        None
    }
}

/// What follows `prefix` in `text`, where `text` begins with it.
pub fn strip_prefix(text: &str, prefix: &str) -> (r: Option<String>)
    ensures
        r.deep_view() == after_prefix(text@, prefix@),
{
    let chars = chars_of(text);
    let part = chars_of(prefix);
    if part.len() <= chars.len() && part_at(&chars, 0, &part) {
        let rest = text_of(&chars, part.len(), chars.len());
        assert(rest@ =~= text@.skip(prefix@.len() as int));
        Some(rest)
    } else {
        None
    }
}

/// Two texts in a row.
pub fn joined(a: &str, b: &str) -> (r: String)
    ensures
        r@ == a@ + b@,
{
    a.to_owned().concat(b)
}

// ── Finding and cutting ─────────────────────────────────────────────────

/// The first position from `from` on that holds `c`, or the text's length.
pub open spec fn find_char(s: Seq<char>, c: char, from: int) -> int
    decreases s.len() - from,
{
    if from < 0 || from >= s.len() {
        s.len() as int
    } else if s[from] == c {
        from
    } else {
        find_char(s, c, from + 1)
    }
}

pub proof fn lemma_find_char(s: Seq<char>, c: char, from: int)
    requires
        0 <= from <= s.len(),
    ensures
        from <= find_char(s, c, from) <= s.len(),
        forall|k: int| from <= k < find_char(s, c, from) ==> s[k] != c,
        find_char(s, c, from) < s.len() ==> s[find_char(s, c, from)] == c,
    decreases s.len() - from,
{
    if from < s.len() && s[from] != c {
        lemma_find_char(s, c, from + 1);
    }
}

/// Where the first `c` is found, given that none stands before it.
pub proof fn lemma_find_char_at(s: Seq<char>, c: char, from: int, at: int)
    requires
        0 <= from <= at <= s.len(),
        forall|k: int| from <= k < at ==> s[k] != c,
        at < s.len() ==> s[at] == c,
    ensures
        find_char(s, c, from) == at,
    decreases at - from,
{
    if from < at {
        lemma_find_char_at(s, c, from + 1, at);
    }
}

/// The first position from `from` on that holds `c`, or the text's length.
pub fn find(chars: &Vec<char>, c: char, from: usize) -> (r: usize)
    requires
        from <= chars@.len(),
    ensures
        r == find_char(chars@, c, from as int),
        from <= r <= chars@.len(),
{
    let mut i: usize = from;
    while i < chars.len()
        invariant
            from <= i <= chars@.len(),
            find_char(chars@, c, from as int) == find_char(chars@, c, i as int),
        decreases chars@.len() - i,
    {
        if chars[i] == c {
            return i;
        }
        i += 1;
    }
    i
}

/// The pieces between the separators, from `from` on: one more than there are
/// separators.
pub open spec fn pieces(s: Seq<char>, sep: char, from: int) -> Seq<Seq<char>>
    decreases s.len() - from,
{
    let end = find_char(s, sep, from);
    if from < 0 || end < from || end >= s.len() {
        seq![s.subrange(from, s.len() as int)]
    } else {
        seq![s.subrange(from, end)] + pieces(s, sep, end + 1)
    }
}

/// The pieces of a text between the separators.
pub fn split(chars: &Vec<char>, sep: char) -> (r: Vec<Vec<char>>)
    ensures
        r@.map_values(|p: Vec<char>| p@) == pieces(chars@, sep, 0),
{
    let mut r: Vec<Vec<char>> = Vec::new();
    let mut from: usize = 0;
    loop
        invariant
            from <= chars@.len(),
            r@.map_values(|p: Vec<char>| p@) + pieces(chars@, sep, from as int) == pieces(
                chars@,
                sep,
                0,
            ),
        decreases chars@.len() - from,
    {
        let end = find(chars, sep, from);
        let piece = part_of(chars, from, end);
        let ghost before = r@.map_values(|p: Vec<char>| p@);
        r.push(piece);
        proof {
            assert(r@.map_values(|p: Vec<char>| p@) =~= before.push(piece@));
        }
        if end >= chars.len() {
            assert(before + pieces(chars@, sep, from as int) =~= before.push(piece@));
            return r;
        }
        proof {
            assert(before + pieces(chars@, sep, from as int) =~= before.push(piece@) + pieces(
                chars@,
                sep,
                end + 1,
            ));
        }
        from = end + 1;
    }
}

/// Some characters in a row.
pub fn part_of(chars: &Vec<char>, from: usize, to: usize) -> (r: Vec<char>)
    requires
        from <= to <= chars@.len(),
    ensures
        r@ == chars@.subrange(from as int, to as int),
{
    let mut r: Vec<char> = Vec::new();
    let mut i: usize = from;
    while i < to
        invariant
            from <= i <= to <= chars@.len(),
            r@ == chars@.subrange(from as int, i as int),
        decreases to - i,
    {
        r.push(chars[i]);
        i += 1;
    }
    r
}

/// A line without the carriage return that ends it.
pub open spec fn without_return(line: Seq<char>) -> Seq<char> {
    if line.len() > 0 && line.last() == '\r' {
        line.drop_last()
    } else {
        line
    }
}

/// The lines of a text from `from` on. A line ends at a line feed, alone or
/// after a carriage return; the last one may end with the text.
pub open spec fn lines_from(s: Seq<char>, from: int) -> Seq<Seq<char>>
    decreases s.len() - from,
{
    let end = find_char(s, '\n', from);
    if from < 0 || from >= s.len() || end < from {
        Seq::empty()
    } else if end >= s.len() {
        seq![s.subrange(from, s.len() as int)]
    } else {
        seq![without_return(s.subrange(from, end))] + lines_from(s, end + 1)
    }
}

/// The lines of a text.
pub open spec fn lines_of(s: Seq<char>) -> Seq<Seq<char>> {
    lines_from(s, 0)
}

/// The lines of a text.
pub fn lines(text: &str) -> (r: Vec<Vec<char>>)
    ensures
        r@.map_values(|l: Vec<char>| l@) == lines_of(text@),
        text@.len() <= usize::MAX,
{
    let chars = chars_of(text);
    let mut r: Vec<Vec<char>> = Vec::new();
    let mut from: usize = 0;
    while from < chars.len()
        invariant
            from <= chars@.len(),
            r@.map_values(|l: Vec<char>| l@) + lines_from(chars@, from as int) == lines_of(chars@),
        decreases chars@.len() - from,
    {
        let end = find(&chars, '\n', from);
        let ghost before = r@.map_values(|l: Vec<char>| l@);
        if end >= chars.len() {
            let line = part_of(&chars, from, end);
            r.push(line);
            proof {
                assert(r@.map_values(|l: Vec<char>| l@) =~= before.push(line@));
                assert(before + lines_from(chars@, from as int) =~= before.push(line@));
                assert(lines_from(chars@, end as int) =~= Seq::empty());
                assert(before.push(line@) + lines_from(chars@, end as int) =~= before.push(line@));
            }
            from = end;
        } else {
            let mut line = part_of(&chars, from, end);
            let ghost whole = line@;
            if line.len() > 0 && line[line.len() - 1] == '\r' {
                line.pop();
            }
            assert(line@ =~= without_return(whole));
            r.push(line);
            proof {
                assert(r@.map_values(|l: Vec<char>| l@) =~= before.push(line@));
                assert(before + lines_from(chars@, from as int) =~= before.push(line@)
                    + lines_from(chars@, end + 1));
            }
            from = end + 1;
        }
    }
    proof {
        assert(r@.map_values(|l: Vec<char>| l@) + lines_from(chars@, from as int)
            =~= r@.map_values(|l: Vec<char>| l@));
    }
    r
}

// ── Trimming ────────────────────────────────────────────────────────────

/// The first position from `from` on that holds no whitespace, or the length.
pub open spec fn content_start(s: Seq<char>, from: int) -> int
    decreases s.len() - from,
{
    if from < 0 || from >= s.len() || !char_whitespace(s[from]) {
        from
    } else {
        content_start(s, from + 1)
    }
}

/// The position after the last one before `to` that holds no whitespace.
pub open spec fn content_end(s: Seq<char>, from: int, to: int) -> int
    decreases to,
{
    if to <= from || to <= 0 || !char_whitespace(s[to - 1]) {
        to
    } else {
        content_end(s, from, to - 1)
    }
}

/// The text without the whitespace at both ends.
pub open spec fn trimmed(s: Seq<char>) -> Seq<char> {
    let from = content_start(s, 0);
    s.subrange(from, content_end(s, from, s.len() as int))
}

/// The first position that holds no whitespace, or the length.
pub fn skip_space(chars: &Vec<char>) -> (r: usize)
    ensures
        r == content_start(chars@, 0),
        r <= chars@.len(),
{
    let mut i: usize = 0;
    while i < chars.len() && chars[i].is_whitespace()
        invariant
            i <= chars@.len(),
            content_start(chars@, 0) == content_start(chars@, i as int),
        decreases chars@.len() - i,
    {
        i += 1;
    }
    i
}

/// The text without the whitespace at both ends.
pub fn trim(text: &str) -> (r: String)
    ensures
        r@ == trimmed(text@),
{
    let chars = chars_of(text);
    let from = skip_space(&chars);
    let mut to: usize = chars.len();
    while to > from && chars[to - 1].is_whitespace()
        invariant
            from <= to <= chars@.len(),
            content_end(chars@, from as int, chars@.len() as int) == content_end(
                chars@,
                from as int,
                to as int,
            ),
        decreases to,
    {
        to -= 1;
    }
    text_of(&chars, from, to)
}

// ── Letter case ─────────────────────────────────────────────────────────

/// The lower-case form of an ASCII letter; any other character itself.
pub open spec fn lower_char(c: char) -> char {
    if 'A' <= c <= 'Z' {
        ((c as u32) + 32) as char
    } else {
        c
    }
}

/// The text with its ASCII letters in lower case.
pub open spec fn lowered(s: Seq<char>) -> Seq<char> {
    s.map_values(|c: char| lower_char(c))
}

fn to_lower(c: char) -> (r: char)
    ensures
        r == lower_char(c),
{
    if 'A' <= c && c <= 'Z' {
        let code: u8 = c as u8;
        (code + 32) as char
    } else {
        c
    }
}

/// The text with its ASCII letters in lower case.
pub fn lower(text: &str) -> (r: String)
    ensures
        r@ == lowered(text@),
{
    let chars = chars_of(text);
    let mut r = String::new();
    let mut i: usize = 0;
    while i < chars.len()
        invariant
            i <= chars@.len(),
            r@ == lowered(chars@.take(i as int)),
        decreases chars@.len() - i,
    {
        let c = to_lower(chars[i]);
        r.push(c);
        proof {
            assert(chars@.take(i + 1) =~= chars@.take(i as int).push(chars@[i as int]));
            assert(lowered(chars@.take(i + 1)) =~= lowered(chars@.take(i as int)).push(c));
        }
        i += 1;
    }
    assert(chars@.take(i as int) =~= chars@);
    r
}

/// Whether a text comes before another in the order of their characters.
pub open spec fn precedes(a: Seq<char>, b: Seq<char>) -> bool {
    exists|i: int|
        {
            &&& 0 <= i <= a.len()
            &&& i < b.len()
            &&& #[trigger] a.take(i) == b.take(i)
            &&& (i == a.len() || a[i] < b[i])
        }
}

/// The text that [`String::from_utf8_lossy`] reads from bytes.
pub uninterp spec fn lossy(bytes: Seq<u8>) -> Seq<char>;

/// Calls [`String::from_utf8_lossy`]. Bytes that are UTF-8 are read as what they
/// spell; of others the standard library replaces what is none.
#[verifier::external_body]
pub(crate) fn read_lossy(bytes: &Vec<u8>) -> (r: String)
    ensures
        r@ == lossy(bytes@),
        vstd::utf8::valid_utf8(bytes@) ==> r@ == vstd::utf8::decode_utf8(bytes@),
{
    String::from_utf8_lossy(bytes).into_owned()
}

// ── What cutting and trimming promise ───────────────────────────────────

proof fn lemma_find_behind(front: Seq<char>, s: Seq<char>, c: char, from: int)
    requires
        0 <= from <= s.len(),
    ensures
        find_char(front + s, c, front.len() + from) == front.len() + find_char(s, c, from),
    decreases s.len() - from,
{
    if from < s.len() {
        assert((front + s)[front.len() + from] == s[from]);
        if s[from] != c {
            lemma_find_behind(front, s, c, from + 1);
        }
    }
}

proof fn lemma_lines_behind(front: Seq<char>, s: Seq<char>, from: int)
    requires
        0 <= from <= s.len(),
    ensures
        lines_from(front + s, front.len() + from) == lines_from(s, from),
    decreases s.len() - from,
{
    let all = front + s;
    let n = front.len();
    lemma_find_behind(front, s, '\n', from);
    lemma_find_char(s, '\n', from);
    let end = find_char(s, '\n', from);
    if from < s.len() {
        if end >= s.len() {
            assert(all.subrange(n + from, all.len() as int) =~= s.subrange(from, s.len() as int));
        } else {
            assert(all.subrange(n + from, n + end) =~= s.subrange(from, end));
            lemma_lines_behind(front, s, end + 1);
        }
    }
}

/// A text is its first line, and the lines behind the line feed that ends it. A
/// carriage return before the line feed is no part of the line. A text without a line
/// feed is one line, and an empty one is none.
pub proof fn text_is_cut_at_line_feeds(line: Seq<char>, rest: Seq<char>)
    requires
        !line.contains('\n'),
    ensures
        line.len() == 0 ==> lines_of(line).len() == 0,
        line.len() > 0 ==> lines_of(line) == seq![line],
        line.len() == 0 || line.last() != '\r' ==> lines_of(line.push('\n') + rest) == seq![line]
            + lines_of(rest),
        lines_of(line.push('\r').push('\n') + rest) == seq![line] + lines_of(rest),
{
    assert forall|k: int| 0 <= k < line.len() implies line[k] != '\n' by {
        assert(line.contains(line[k]));
    }
    lemma_find_char(line, '\n', 0);
    if line.len() > 0 {
        assert(line.subrange(0, line.len() as int) =~= line);
    }
    let plain = line.push('\n');
    let whole = plain + rest;
    let n = line.len() as int;
    lemma_find_char_at(whole, '\n', 0, n);
    assert(whole.subrange(0, n) =~= line);
    lemma_lines_behind(plain, rest, 0);
    let returned = line.push('\r').push('\n');
    let other = returned + rest;
    assert forall|k: int| 0 <= k < n + 1 implies other[k] != '\n' by {
        if k < n {
            assert(other[k] == line[k]);
        }
    }
    lemma_find_char_at(other, '\n', 0, n + 1);
    assert(other.subrange(0, n + 1) =~= line.push('\r'));
    assert(line.push('\r').drop_last() =~= line);
    lemma_lines_behind(returned, rest, 0);
}

proof fn lemma_content_start(s: Seq<char>, from: int)
    requires
        0 <= from <= s.len(),
    ensures
        from <= content_start(s, from) <= s.len(),
        forall|k: int| from <= k < content_start(s, from) ==> char_whitespace(#[trigger] s[k]),
        content_start(s, from) < s.len() ==> !char_whitespace(s[content_start(s, from)]),
    decreases s.len() - from,
{
    if from < s.len() && char_whitespace(s[from]) {
        lemma_content_start(s, from + 1);
    }
}

proof fn lemma_content_end(s: Seq<char>, from: int, to: int)
    requires
        0 <= from <= to <= s.len(),
    ensures
        from <= content_end(s, from, to) <= to,
        forall|k: int| content_end(s, from, to) <= k < to ==> char_whitespace(#[trigger] s[k]),
        content_end(s, from, to) > from ==> !char_whitespace(s[content_end(s, from, to) - 1]),
    decreases to,
{
    if to > from && char_whitespace(s[to - 1]) {
        lemma_content_end(s, from, to - 1);
    }
}

/// Trimming takes off whitespace at both ends, all of it, and nothing else.
pub proof fn only_whitespace_is_trimmed(s: Seq<char>)
    ensures
        exists|from: int, to: int|
            {
                &&& 0 <= from <= to <= s.len()
                &&& trimmed(s) == #[trigger] s.subrange(from, to)
                &&& forall|k: int| 0 <= k < from ==> char_whitespace(#[trigger] s[k])
                &&& forall|k: int| to <= k < s.len() ==> char_whitespace(#[trigger] s[k])
            },
        trimmed(s).len() > 0 ==> !char_whitespace(trimmed(s).first()) && !char_whitespace(
            trimmed(s).last(),
        ),
{
    lemma_content_start(s, 0);
    let from = content_start(s, 0);
    lemma_content_end(s, from, s.len() as int);
    let to = content_end(s, from, s.len() as int);
    assert(trimmed(s) == s.subrange(from, to));
}

/// A text has a part where it is that part with something before it and something behind
/// it, and only there.
pub proof fn part_stands_between_the_rest(
    text: Seq<char>,
    part: Seq<char>,
    a: Seq<char>,
    b: Seq<char>,
)
    ensures
        has_part(a + part + b, part),
        has_part(text, part) ==> exists|before: Seq<char>, behind: Seq<char>|
            text == #[trigger] (before + part + behind),
{
    let whole = a + part + b;
    let start = a.len() as int;
    assert(whole.subrange(start, start + part.len()) =~= part);
    if has_part(text, part) {
        let at = choose|at: int|
            0 <= at <= text.len() - part.len() && #[trigger] text.subrange(at, at + part.len())
                == part;
        let before = text.take(at);
        let behind = text.skip(at + part.len());
        assert(text =~= before + part + behind);
    }
}

} // verus!
