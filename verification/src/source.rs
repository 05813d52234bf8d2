//! What the generator reads from the source text around a node: ignore
//! comments, the line breaks and blank lines before it, and the spaces and
//! punctuation at its edges.
use vstd::prelude::*;

use crate::chars::{is_whitespace, is_ws};
use crate::text::{chars_eq, starts_with, starts_with_exec, trim, trim_exec};

verus! {

/// What a comment asks of the generator.
#[derive(Clone, Copy, PartialEq, Eq, Structural, Debug)]
pub enum IgnoreKind {
    /// Nothing.
    NotIgnore,
    /// Keep the next node as it is.
    Ignore,
    /// Keep everything up to the end comment as it is.
    IgnoreStart,
    /// End a region kept as it is.
    IgnoreEnd,
}

/// `s` ends with `p`.
pub open spec fn ends_with(s: Seq<char>, p: Seq<char>) -> bool {
    p.len() <= s.len() && s.skip(s.len() - p.len()) == p
}

/// The trimmed text inside a comment: an HTML comment `<!-- … -->` or an
/// MDX comment `{/* … */}`, around which only white space stands.
pub open spec fn comment_body(text: Seq<char>) -> Option<Seq<char>> {
    let t = trim(text);
    if t.len() >= 7 && starts_with(t, seq!['<', '!', '-', '-']) && ends_with(t, seq!['-', '-', '>']) {
        Some(trim(t.subrange(4, t.len() - 3)))
    } else if t.len() >= 6 && starts_with(t, seq!['{', '/', '*']) && ends_with(t, seq!['*', '/', '}']) {
        Some(trim(t.subrange(3, t.len() - 3)))
    } else {
        None
    }
}

/// What the comment `text` asks, for the ignore directive `directive`: a
/// comment holding the directive keeps the next node, one holding it
/// followed by `-start` starts a kept region, and one holding it followed
/// by `-end` ends one.
pub open spec fn ignore_kind(text: Seq<char>, directive: Seq<char>) -> IgnoreKind {
    match comment_body(text) {
        Some(b) => if b == directive {
            IgnoreKind::Ignore
        } else if b == directive + seq!['-', 's', 't', 'a', 'r', 't'] {
            IgnoreKind::IgnoreStart
        } else if b == directive + seq!['-', 'e', 'n', 'd'] {
            IgnoreKind::IgnoreEnd
        } else {
            IgnoreKind::NotIgnore
        },
        None => IgnoreKind::NotIgnore,
    }
}

fn ends_with_exec(s: &[char], p: &[char]) -> (r: bool)
    ensures
        r == ends_with(s@, p@),
{
    if p.len() > s.len() {
        return false;
    }
    let tail = &s[s.len() - p.len()..s.len()];
    assert(tail@ =~= s@.skip(s@.len() - p@.len()));
    chars_eq(tail, p)
}

/// Returns the trimmed text inside a comment, if `text` is one.
pub fn comment_body_exec(text: &[char]) -> (r: Option<&[char]>)
    ensures
        match r {
            Some(b) => comment_body(text@) == Some(b@),
            None => comment_body(text@) is None,
        },
{
    let t = trim_exec(text);
    let html_open = ['<', '!', '-', '-'];
    let html_close = ['-', '-', '>'];
    let mdx_open = ['{', '/', '*'];
    let mdx_close = ['*', '/', '}'];
    assert(html_open@ =~= seq!['<', '!', '-', '-']);
    assert(html_close@ =~= seq!['-', '-', '>']);
    assert(mdx_open@ =~= seq!['{', '/', '*']);
    assert(mdx_close@ =~= seq!['*', '/', '}']);
    if t.len() >= 7 && starts_with_exec(t, html_open.as_slice()) && ends_with_exec(t, html_close.as_slice()) {
        Some(trim_exec(&t[4..t.len() - 3]))
    } else if t.len() >= 6 && starts_with_exec(t, mdx_open.as_slice()) && ends_with_exec(t, mdx_close.as_slice()) {
        Some(trim_exec(&t[3..t.len() - 3]))
    } else {
        None
    }
}

/// Returns what the comment `text` asks for the ignore directive `directive`.
pub fn ignore_comment_kind(text: &[char], directive: &[char]) -> (r: IgnoreKind)
    ensures
        r == ignore_kind(text@, directive@),
{
    match comment_body_exec(text) {
        Some(b) => {
            if chars_eq(b, directive) {
                return IgnoreKind::Ignore;
            }
            let mut start: Vec<char> = crate::chars::copy_chars(directive);
            start.push('-');
            start.push('s');
            start.push('t');
            start.push('a');
            start.push('r');
            start.push('t');
            assert(start@ =~= directive@ + seq!['-', 's', 't', 'a', 'r', 't']);
            if chars_eq(b, start.as_slice()) {
                return IgnoreKind::IgnoreStart;
            }
            let mut end: Vec<char> = crate::chars::copy_chars(directive);
            end.push('-');
            end.push('e');
            end.push('n');
            end.push('d');
            assert(end@ =~= directive@ + seq!['-', 'e', 'n', 'd']);
            if chars_eq(b, end.as_slice()) {
                return IgnoreKind::IgnoreEnd;
            }
            IgnoreKind::NotIgnore
        },
        None => IgnoreKind::NotIgnore,
    }
}

/// The number of line breaks in `s`.
pub open spec fn newline_count(s: Seq<char>) -> nat
    decreases s.len(),
{
    if s.len() == 0 {
        0
    } else {
        newline_count(s.drop_last()) + if s.last() == '\n' {
            1nat
        } else {
            0nat
        }
    }
}

/// Returns the number of line breaks in `s`.
pub fn newline_count_exec(s: &[char]) -> (r: usize)
    ensures
        r == newline_count(s@),
{
    let mut n: usize = 0;
    let mut i: usize = 0;
    while i < s.len()
        invariant
            i <= s@.len(),
            n == newline_count(s@.take(i as int)),
            n <= i,
        decreases s.len() - i,
    {
        assert(s@.take(i + 1).drop_last() =~= s@.take(i as int));
        if s[i] == '\n' {
            n += 1;
        }
        i += 1;
    }
    assert(s@.take(i as int) =~= s@);
    n
}

/// The start of the white space right before position `i`.
pub open spec fn ws_start(s: Seq<char>, i: int) -> int
    decreases i,
{
    if 0 < i <= s.len() && is_ws(s[i - 1]) {
        ws_start(s, i - 1)
    } else {
        i
    }
}

/// Returns the start of the white space right before position `i`.
pub fn ws_start_exec(s: &[char], i: usize) -> (r: usize)
    requires
        i <= s@.len(),
    ensures
        r == ws_start(s@, i as int),
        r <= i,
    decreases i,
{
    if i > 0 && is_whitespace(s[i - 1]) {
        ws_start_exec(s, i - 1)
    } else {
        i
    }
}

/// A blank line precedes position `i`: the white space before it holds at
/// least two line breaks.
pub open spec fn blank_line_before(s: Seq<char>, i: int) -> bool {
    0 <= i <= s.len() && newline_count(s.subrange(ws_start(s, i), i)) >= 2
}

/// White space precedes position `i`.
pub open spec fn space_before(s: Seq<char>, i: int) -> bool {
    0 < i <= s.len() && is_ws(s[i - 1])
}

/// An ASCII punctuation character (`char::is_ascii_punctuation`).
pub open spec fn ascii_punctuation(c: char) -> bool {
    ('!' <= c && c <= '/') || (':' <= c && c <= '@') || ('[' <= c && c <= '`') || ('{' <= c && c <= '~')
}

/// The text ending at `i` ends with punctuation.
pub open spec fn punctuation_before(s: Seq<char>, i: int) -> bool {
    0 < i <= s.len() && ascii_punctuation(s[i - 1])
}

/// The text starting at `i` starts with punctuation.
pub open spec fn punctuation_at(s: Seq<char>, i: int) -> bool {
    0 <= i < s.len() && ascii_punctuation(s[i])
}

/// Returns whether a blank line precedes position `i`.
pub fn blank_line_before_exec(s: &[char], i: usize) -> (r: bool)
    ensures
        r == blank_line_before(s@, i as int),
{
    if i > s.len() {
        return false;
    }
    let w = ws_start_exec(s, i);
    newline_count_exec(&s[w..i]) >= 2
}

/// Returns whether white space precedes position `i`.
pub fn space_before_exec(s: &[char], i: usize) -> (r: bool)
    ensures
        r == space_before(s@, i as int),
{
    i > 0 && i <= s.len() && is_whitespace(s[i - 1])
}

/// Returns whether the character is ASCII punctuation.
pub fn ascii_punctuation_exec(c: char) -> (r: bool)
    ensures
        r == ascii_punctuation(c),
{
    ('!' <= c && c <= '/') || (':' <= c && c <= '@') || ('[' <= c && c <= '`') || ('{' <= c && c <= '~')
}

/// Returns whether the text ending at `i` ends with punctuation.
pub fn punctuation_before_exec(s: &[char], i: usize) -> (r: bool)
    ensures
        r == punctuation_before(s@, i as int),
{
    i > 0 && i <= s.len() && ascii_punctuation_exec(s[i - 1])
}

/// Returns whether the text starting at `i` starts with punctuation.
pub fn punctuation_at_exec(s: &[char], i: usize) -> (r: bool)
    ensures
        r == punctuation_at(s@, i as int),
{
    i < s.len() && ascii_punctuation_exec(s[i])
}

} // verus!
