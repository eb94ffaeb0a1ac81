//! Finding identifiers and member expressions in a line of source text.

use vstd::prelude::*;

use crate::text;
use crate::text::{chars_of, skip_space, text_of};

verus! {

/// Whether a character can start an identifier.
pub open spec fn starts_identifier(c: char) -> bool {
    text::char_alphabetic(c) || c == '_'
}

/// Whether a character can stand in an identifier.
pub open spec fn in_identifier(c: char) -> bool {
    text::char_alphanumeric(c) || c == '_'
}

fn is_identifier_start(c: char) -> (r: bool)
    ensures
        r == starts_identifier(c),
        c == '"' ==> !r,
{
    c.is_alphabetic() || c == '_'
}

fn is_identifier_char(c: char) -> (r: bool)
    ensures
        r == in_identifier(c),
{
    c.is_alphanumeric() || c == '_'
}

/// Whether a line is a comment, by how it begins.
pub open spec fn is_comment(line: Seq<char>) -> bool {
    let content = line.skip(text::content_start(line, 0));
    "//"@.is_prefix_of(content) || "/*"@.is_prefix_of(content) || "*"@.is_prefix_of(content)
}

/// Whether there is a quote that is not escaped at `i`.
pub open spec fn quote_at(line: Seq<char>, i: int) -> bool {
    line[i] == '"' && (i == 0 || line[i - 1] != '\\')
}

/// Whether the place `i` is inside a string literal: an odd number of quotes
/// that are not escaped stand before it.
pub open spec fn in_string(line: Seq<char>, i: int) -> bool
    decreases i,
{
    if i <= 0 {
        false
    } else if quote_at(line, i - 1) {
        !in_string(line, i - 1)
    } else {
        in_string(line, i - 1)
    }
}

/// Whether an identifier starts at `i`, outside string literals.
pub open spec fn identifier_at(line: Seq<char>, i: int) -> bool {
    &&& starts_identifier(line[i])
    &&& (i == 0 || !in_identifier(line[i - 1]))
    &&& !in_string(line, i)
}

/// The places before `n` where an identifier starts, in order.
pub open spec fn identifiers_before(line: Seq<char>, n: int) -> Seq<u32>
    decreases n,
{
    if n <= 0 {
        Seq::empty()
    } else if identifier_at(line, n - 1) {
        identifiers_before(line, n - 1).push((n - 1) as u32)
    } else {
        identifiers_before(line, n - 1)
    }
}

/// The places of a line where an identifier starts, in order: none in a comment.
pub open spec fn identifier_positions(line: Seq<char>) -> Seq<u32> {
    if is_comment(line) {
        Seq::empty()
    } else {
        identifiers_before(line, line.len() as int)
    }
}

/// What is listed before `n` is exactly where an identifier starts, in order.
proof fn lemma_identifiers_before(line: Seq<char>, n: int)
    requires
        0 <= n <= line.len(),
        line.len() <= u32::MAX,
    ensures
        ({
            let listed = identifiers_before(line, n);
            &&& forall|k: int|
                0 <= k < listed.len() ==> (#[trigger] listed[k]) < n && identifier_at(
                    line,
                    listed[k] as int,
                )
            &&& forall|k: int, l: int| 0 <= k < l < listed.len() ==> listed[k] < listed[l]
            &&& forall|i: int|
                0 <= i < n && #[trigger] identifier_at(line, i) ==> listed.contains(i as u32)
        }),
    decreases n,
{
    if n > 0 {
        lemma_identifiers_before(line, n - 1);
        let before = identifiers_before(line, n - 1);
        let listed = identifiers_before(line, n);
        assert forall|i: int| 0 <= i < n && #[trigger] identifier_at(line, i) implies listed.contains(
            i as u32,
        ) by {
            if i == n - 1 {
                assert(listed.last() == i as u32);
            } else {
                let k = choose|k: int| 0 <= k < before.len() && before[k] == i as u32;
                assert(listed[k] == i as u32);
            }
        }
    }
}

/// The positions of a line are exactly the places where an identifier starts
/// outside comments and string literals, each once, from left to right.
pub proof fn positions_are_identifier_starts(line: Seq<char>)
    requires
        line.len() <= u32::MAX,
    ensures
        ({
            let positions = identifier_positions(line);
            &&& forall|i: int|
                0 <= i < line.len() ==> (positions.contains(i as u32) <==> !is_comment(line)
                    && #[trigger] identifier_at(line, i))
            &&& forall|k: int| 0 <= k < positions.len() ==> (#[trigger] positions[k]) < line.len()
            &&& forall|k: int, l: int| 0 <= k < l < positions.len() ==> positions[k] < positions[l]
        }),
{
    lemma_identifiers_before(line, line.len() as int);
    let positions = identifier_positions(line);
    assert forall|i: int| 0 <= i < line.len() implies (positions.contains(i as u32)
        <==> !is_comment(line) && #[trigger] identifier_at(line, i)) by {
        if positions.contains(i as u32) {
            let k = choose|k: int| 0 <= k < positions.len() && positions[k] == i as u32;
            assert(positions[k] as int == i);
        }
    }
}

/// Whether a character stands at a place.
fn char_at(chars: &Vec<char>, at: usize, c: char) -> (r: bool)
    ensures
        r == (at < chars@.len() && chars@[at as int] == c),
{
    at < chars.len() && chars[at] == c
}

/// Whether a line is a comment.
fn line_is_comment(chars: &Vec<char>) -> (r: bool)
    ensures
        r == is_comment(chars@),
{
    let at: usize = skip_space(chars);
    proof {
        reveal_strlit("//");
        reveal_strlit("/*");
        reveal_strlit("*");
    }
    let ghost content = chars@.skip(at as int);
    let slash = char_at(chars, at, '/');
    let star = char_at(chars, at, '*');
    let second_slash = at < chars.len() && char_at(chars, at + 1, '/');
    let second_star = at < chars.len() && char_at(chars, at + 1, '*');
    proof {
        assert("*"@.is_prefix_of(content) <==> star) by {
            if star {
                assert(content.subrange(0, 1) =~= "*"@);
            }
            if "*"@.is_prefix_of(content) {
                assert(content.subrange(0, 1)[0] == '*');
            }
        }
        assert("//"@.is_prefix_of(content) <==> slash && second_slash) by {
            if slash && second_slash {
                assert(content.subrange(0, 2) =~= "//"@);
            }
            if "//"@.is_prefix_of(content) {
                assert(content.subrange(0, 2)[0] == '/');
                assert(content.subrange(0, 2)[1] == '/');
            }
        }
        assert("/*"@.is_prefix_of(content) <==> slash && second_star) by {
            if slash && second_star {
                assert(content.subrange(0, 2) =~= "/*"@);
            }
            if "/*"@.is_prefix_of(content) {
                assert(content.subrange(0, 2)[0] == '/');
                assert(content.subrange(0, 2)[1] == '*');
            }
        }
    }
    star || (slash && (second_slash || second_star))
}

/// The places of a line where an identifier starts.
pub fn positions_in(chars: &Vec<char>) -> (r: Vec<u32>)
    ensures
        r@ == identifier_positions(chars@),
{
    let mut positions: Vec<u32> = Vec::new();
    if line_is_comment(chars) {
        return positions;
    }
    let n: usize = chars.len();
    let mut col: usize = 0;
    let mut quoted = false;
    while col < n
        invariant
            col <= n == chars@.len(),
            !is_comment(chars@),
            quoted == in_string(chars@, col as int),
            positions@ == identifiers_before(chars@, col as int),
        decreases n - col,
    {
        let c = chars[col];
        let starts = is_identifier_start(c);
        if c == '"' && (col == 0 || chars[col - 1] != '\\') {
            quoted = !quoted;
        } else if !quoted && starts && (col == 0 || !is_identifier_char(chars[col - 1])) {
            positions.push(col as u32);
        }
        col += 1;
    }
    positions
}

/// Return the starting columns for identifier-like tokens in a single line.
///
/// This skips obvious comments and string literals at the token-scan level and
/// returns word starts so callers can probe LSP features at real symbol
/// positions instead of line 0.
pub fn identifier_positions_in_line(line_text: &str) -> (r: Vec<u32>)
    ensures
        r@ == identifier_positions(line_text@),
{
    positions_in(&chars_of(line_text))
}

/// The end of the run of identifier characters from `from` on.
pub open spec fn word_end(line: Seq<char>, from: int) -> int
    decreases line.len() - from,
{
    if from < 0 || from >= line.len() || !in_identifier(line[from]) {
        from
    } else {
        word_end(line, from + 1)
    }
}

fn find_word_end(chars: &Vec<char>, from: usize) -> (r: usize)
    requires
        from <= chars@.len(),
    ensures
        r == word_end(chars@, from as int),
        from <= r <= chars@.len(),
{
    let n: usize = chars.len();
    let mut i: usize = from;
    while i < n && is_identifier_char(chars[i])
        invariant
            from <= i <= n == chars@.len(),
            word_end(chars@, from as int) == word_end(chars@, i as int),
        decreases n - i,
    {
        i += 1;
    }
    i
}

/// A member expression: what is before the dot, and what is after it.
pub struct MemberView {
    pub receiver: Seq<char>,
    pub member_col: u32,
    pub member: Seq<char>,
}

/// The member expression that the identifier at `start` opens, if it opens one:
/// identifier, dot, identifier.
pub open spec fn member_opened(line: Seq<char>, start: int) -> Option<MemberView> {
    let dot = word_end(line, start);
    let end = word_end(line, dot + 1);
    if {
        &&& 0 <= start < line.len()
        &&& starts_identifier(line[start])
        &&& dot + 1 < line.len()
        &&& line[dot] == '.'
        &&& starts_identifier(line[dot + 1])
    } {
        Some(
            MemberView {
                receiver: line.subrange(start, dot),
                member_col: (dot + 1) as u32,
                member: line.subrange(dot + 1, end),
            },
        )
    } else {
        None
    }
}

proof fn lemma_word_end(line: Seq<char>, from: int)
    requires
        0 <= from <= line.len(),
    ensures
        from <= word_end(line, from) <= line.len(),
        forall|k: int| from <= k < word_end(line, from) ==> in_identifier(#[trigger] line[k]),
        from < line.len() && in_identifier(line[from]) ==> word_end(line, from) > from,
    decreases line.len() - from,
{
    if from < line.len() && in_identifier(line[from]) {
        lemma_word_end(line, from + 1);
    }
}

proof fn lemma_no_quote_between(line: Seq<char>, from: int, to: int)
    requires
        0 <= from <= to <= line.len(),
        forall|k: int| from <= k < to ==> #[trigger] line[k] != '"',
    ensures
        in_string(line, to) == in_string(line, from),
    decreases to - from,
{
    if from < to {
        lemma_no_quote_between(line, from, to - 1);
        assert(line[to - 1] != '"');
    }
}

/// The member that an identifier opens is an identifier of its own: its position
/// is one that the scanner lists. It stands behind the receiver and the dot, and
/// neither half is empty.
pub proof fn members_are_listed(line: Seq<char>, col: u32)
    requires
        line.len() <= u32::MAX,
        identifier_positions(line).contains(col),
        member_opened(line, col as int) is Some,
    ensures
        ({
            let m = member_opened(line, col as int)->0;
            &&& identifier_positions(line).contains(m.member_col)
            &&& m.member_col == col + m.receiver.len() + 1
            &&& m.receiver.len() > 0
            &&& m.member.len() > 0
        }),
{
    let start = col as int;
    let dot = word_end(line, start);
    positions_are_identifier_starts(line);
    assert(identifier_at(line, start));
    lemma_word_end(line, start);
    lemma_word_end(line, dot + 1);
    assert forall|k: int| start <= k < dot + 1 implies #[trigger] line[k] != '"' by {
        if k < dot {
            assert(in_identifier(line[k]));
        }
    }
    lemma_no_quote_between(line, start, dot + 1);
    assert(identifier_at(line, dot + 1));
}

/// What a member expression's three parts say.
pub open spec fn member_view(m: Option<(String, u32, String)>) -> Option<MemberView> {
    match m {
        Some((receiver, member_col, member)) => Some(
            MemberView { receiver: receiver@, member_col, member: member@ },
        ),
        None => None,
    }
}

/// The member expression that an identifier of a line opens.
pub fn member_in(chars: &Vec<char>, col: u32) -> (r: Option<(String, u32, String)>)
    ensures
        member_view(r) == member_opened(chars@, col as int),
{
    let n: usize = chars.len();
    let start: usize = col as usize;
    if start >= n || !is_identifier_start(chars[start]) {
        return None;
    }
    let dot: usize = find_word_end(chars, start);
    if dot >= n || chars[dot] != '.' {
        return None;
    }
    let member: usize = dot + 1;
    if member >= n || !is_identifier_start(chars[member]) {
        return None;
    }
    let end: usize = find_word_end(chars, member);
    Some((text_of(chars, start, dot), member as u32, text_of(chars, member, end)))
}

/// The member expression an identifier position opens, when it opens one.
///
/// Returns the receiver text, the member's column, and the member's text for
/// `express.Router` asked at `express`. Returns `None` for a bare identifier,
/// for the member half of an expression (which is not itself a receiver), and
/// for a dot followed by anything that is not an identifier.
pub fn member_expression_at(line_text: &str, col: u32) -> (r: Option<(String, u32, String)>)
    ensures
        member_view(r) == member_opened(line_text@, col as int),
{
    member_in(&chars_of(line_text), col)
}

// ── What the scanner promises, character by character ───────────────────

/// The places before `n` that hold a quote which is not escaped.
pub open spec fn quotes_before(line: Seq<char>, n: int) -> Set<int> {
    Set::new(
        |i: int| 0 <= i < n && line[i] == '"' && (i == 0 || line[i - 1] != '\\'),
    )
}

proof fn lemma_quotes_before(line: Seq<char>, n: int)
    requires
        0 <= n <= line.len(),
    ensures
        quotes_before(line, n).finite(),
        in_string(line, n) == (quotes_before(line, n).len() % 2 == 1),
    decreases n,
{
    if n > 0 {
        lemma_quotes_before(line, n - 1);
        let before = quotes_before(line, n - 1);
        if quote_at(line, n - 1) {
            assert(quotes_before(line, n) =~= before.insert(n - 1));
        } else {
            assert(quotes_before(line, n) =~= before);
        }
    } else {
        assert(quotes_before(line, n) =~= Set::empty());
    }
}

/// Whether a line has nothing but whitespace before a text that stands in it.
pub open spec fn begins_with(line: Seq<char>, mark: Seq<char>) -> bool {
    exists|at: int|
        {
            &&& 0 <= at <= line.len() - mark.len()
            &&& #[trigger] line.subrange(at, at + mark.len()) == mark
            &&& forall|k: int| 0 <= k < at ==> text::char_whitespace(#[trigger] line[k])
        }
}

proof fn lemma_content_begins(line: Seq<char>, from: int)
    requires
        0 <= from <= line.len(),
    ensures
        from <= text::content_start(line, from) <= line.len(),
        forall|k: int|
            from <= k < text::content_start(line, from) ==> text::char_whitespace(
                #[trigger] line[k],
            ),
        text::content_start(line, from) < line.len() ==> !text::char_whitespace(
            line[text::content_start(line, from)],
        ),
    decreases line.len() - from,
{
    if from < line.len() && text::char_whitespace(line[from]) {
        lemma_content_begins(line, from + 1);
    }
}

proof fn lemma_begins_with(line: Seq<char>, mark: Seq<char>)
    requires
        mark.len() > 0,
        !text::char_whitespace(mark[0]),
    ensures
        begins_with(line, mark) == mark.is_prefix_of(line.skip(text::content_start(line, 0))),
{
    let start = text::content_start(line, 0);
    lemma_content_begins(line, 0);
    let content = line.skip(start);
    if mark.is_prefix_of(content) {
        assert(line.subrange(start, start + mark.len()) =~= mark) by {
            assert(content.subrange(0, mark.len() as int) == mark);
            assert forall|i: int| 0 <= i < mark.len() implies line[start + i] == mark[i] by {
                assert(content[i] == mark[i]);
            }
        }
    }
    if begins_with(line, mark) {
        let at = choose|at: int|
            {
                &&& 0 <= at <= line.len() - mark.len()
                &&& #[trigger] line.subrange(at, at + mark.len()) == mark
                &&& forall|k: int| 0 <= k < at ==> text::char_whitespace(#[trigger] line[k])
            };
        assert(line[at] == mark[0]);
        if start < at {
            assert(text::char_whitespace(line[start]));
        }
        if at < start {
            assert(text::char_whitespace(line[at]));
        }
        assert(content.subrange(0, mark.len() as int) =~= mark) by {
            assert forall|i: int| 0 <= i < mark.len() implies content[i] == mark[i] by {
                assert(line.subrange(at, at + mark.len())[i] == line[at + i]);
            }
        }
    }
}

/// A place is listed where a letter or an underscore stands that has no letter, digit
/// or underscore before it, behind an even number of quotes that are not escaped, in a
/// line that does not begin, after its whitespace, with one of the marks of a comment;
/// and only there.
pub proof fn identifiers_are_told_by_their_characters(line: Seq<char>, i: int)
    requires
        line.len() <= u32::MAX,
        0 <= i < line.len(),
    ensures
        identifier_positions(line).contains(i as u32) <==> {
            &&& text::char_alphabetic(line[i]) || line[i] == '_'
            &&& i == 0 || !(text::char_alphanumeric(line[i - 1]) || line[i - 1] == '_')
            &&& quotes_before(line, i).len() % 2 == 0
            &&& !begins_with(line, "//"@)
            &&& !begins_with(line, "/*"@)
            &&& !begins_with(line, "*"@)
        },
{
    positions_are_identifier_starts(line);
    lemma_quotes_before(line, i);
    reveal_strlit("//");
    reveal_strlit("/*");
    reveal_strlit("*");
    lemma_begins_with(line, "//"@);
    lemma_begins_with(line, "/*"@);
    lemma_begins_with(line, "*"@);
    assert(identifier_positions(line).contains(i as u32) <==> !is_comment(line) && identifier_at(
        line,
        i,
    ));
}

/// Whether the characters from `from` up to `to` are letters, digits and underscores,
/// and no more of them follow.
pub open spec fn is_word(line: Seq<char>, from: int, to: int) -> bool {
    &&& 0 <= from <= to <= line.len()
    &&& forall|k: int|
        from <= k < to ==> text::char_alphanumeric(#[trigger] line[k]) || line[k] == '_'
    &&& to < line.len() ==> !(text::char_alphanumeric(line[to]) || line[to] == '_')
}

proof fn lemma_word_ends(line: Seq<char>, from: int, to: int)
    requires
        is_word(line, from, to),
    ensures
        word_end(line, from) == to,
    decreases to - from,
{
    if from < to {
        assert(in_identifier(line[from]));
        lemma_word_ends(line, from + 1, to);
    }
}

proof fn lemma_word_end_is_word(line: Seq<char>, from: int)
    requires
        0 <= from <= line.len(),
    ensures
        is_word(line, from, word_end(line, from)),
    decreases line.len() - from,
{
    if from < line.len() && in_identifier(line[from]) {
        lemma_word_end_is_word(line, from + 1);
        let end = word_end(line, from);
        assert forall|k: int| from <= k < end implies text::char_alphanumeric(#[trigger] line[k])
            || line[k] == '_' by {
            if k == from {
                assert(in_identifier(line[from]));
            }
        }
    }
}

/// An identifier opens a member expression where its word ends at a dot behind which
/// another identifier starts: the receiver is the one word, the member the other, and
/// its column is the one behind the dot. It opens none otherwise.
pub proof fn member_expression_is_word_dot_word(line: Seq<char>, start: int, dot: int, end: int)
    requires
        0 <= start < line.len(),
        text::char_alphabetic(line[start]) || line[start] == '_',
        is_word(line, start, dot),
        dot < line.len() && line[dot] == '.' ==> is_word(line, dot + 1, end),
    ensures
        if dot + 1 < line.len() && line[dot] == '.' && (text::char_alphabetic(line[dot + 1])
            || line[dot + 1] == '_') {
            member_opened(line, start) == Some(
                MemberView {
                    receiver: line.subrange(start, dot),
                    member_col: (dot + 1) as u32,
                    member: line.subrange(dot + 1, end),
                },
            )
        } else {
            member_opened(line, start) is None
        },
{
    lemma_word_ends(line, start, dot);
    if dot < line.len() && line[dot] == '.' {
        lemma_word_ends(line, dot + 1, end);
    }
}

} // verus!
