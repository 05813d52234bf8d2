//! Splitting text into lines.
use vstd::prelude::*;

use std::ops::Range;

use crate::chars::{is_ws, is_whitespace};
use crate::text::{all_ws, char_at, first_from, lemma_first_from, lemma_first_from_props};

verus! {

/// A byte-free view of a range: its two ends as integers.
pub open spec fn span(r: Range<usize>) -> (int, int) {
    (r.start as int, r.end as int)
}

/// The ends of each range of `v`.
pub open spec fn spans(v: Seq<Range<usize>>) -> Seq<(int, int)> {
    v.map_values(|r: Range<usize>| span(r))
}

/// Position of the first `'\n'` at or after `i`, or the length of `s`.
pub open spec fn next_newline(s: Seq<char>, i: int) -> int {
    first_from(i, s.len() as int, char_at(s, '\n'))
}

/// End of the piece of `str::split_inclusive('\n')` that starts at `i`:
/// just past the next `'\n'`, or the end of `s`.
pub open spec fn piece_end(s: Seq<char>, i: int) -> int {
    if next_newline(s, i) < s.len() {
        next_newline(s, i) + 1
    } else {
        s.len() as int
    }
}

/// End of `s[i..e]` once trailing `'\r'` and `'\n'` are removed
/// (`str::trim_end_matches(['\r', '\n'])`).
pub open spec fn content_end(s: Seq<char>, i: int, e: int) -> int
    decreases e - i,
{
    if e > i && (s[e - 1] == '\r' || s[e - 1] == '\n') {
        content_end(s, i, e - 1)
    } else {
        e
    }
}

/// A piece of `split_inclusive('\n')` ends after its start.
pub proof fn lemma_piece_end(s: Seq<char>, i: int)
    requires
        0 <= i < s.len(),
    ensures
        i < piece_end(s, i) <= s.len(),
        next_newline(s, i) < s.len() ==> s[next_newline(s, i)] == '\n',
        forall|j: int| i <= j < next_newline(s, i) ==> s[j] != '\n',
{
    lemma_first_from_props(i, s.len() as int, char_at(s, '\n'));
    assert forall|j: int| i <= j < next_newline(s, i) implies s[j] != '\n' by {
        assert(!char_at(s, '\n')(j));
    }
}

/// `content_end` lies between the start and the end it is given.
pub proof fn lemma_content_end(s: Seq<char>, i: int, e: int)
    requires
        i <= e,
    ensures
        i <= content_end(s, i, e) <= e,
    decreases e - i,
{
    if e > i && (s[e - 1] == '\r' || s[e - 1] == '\n') {
        lemma_content_end(s, i, e - 1);
    }
}

/// The line ranges that start at position `i`: each piece of
/// `split_inclusive('\n')` without its trailing `'\r'` and `'\n'` characters.
pub open spec fn line_ranges_from(s: Seq<char>, i: int) -> Seq<(int, int)>
    decreases s.len() - i,
{
    if i < 0 || i >= s.len() {
        Seq::empty()
    } else {
        proof {
            lemma_piece_end(s, i);
        }
        let e = piece_end(s, i);
        seq![(i, content_end(s, i, e))] + line_ranges_from(s, e)
    }
}

/// The ranges of the lines of `s`, line terminators excluded.
pub open spec fn line_ranges(s: Seq<char>) -> Seq<(int, int)> {
    line_ranges_from(s, 0)
}

/// Every line range lies in the text, in order, without line breaks.
pub proof fn lemma_line_ranges_bounds(s: Seq<char>, i: int)
    requires
        0 <= i,
    ensures
        forall|k: int|
            0 <= k < line_ranges_from(s, i).len() ==> i <= (#[trigger] line_ranges_from(s, i)[k]).0
                <= line_ranges_from(s, i)[k].1 <= s.len(),
    decreases s.len() - i,
{
    if i < s.len() {
        lemma_piece_end(s, i);
        let e = piece_end(s, i);
        lemma_content_end(s, i, e);
        lemma_line_ranges_bounds(s, e);
        let r = line_ranges_from(s, i);
        assert forall|k: int| 0 <= k < r.len() implies i <= (#[trigger] r[k]).0 <= r[k].1
            <= s.len() by {
            if k > 0 {
                assert(r[k] == line_ranges_from(s, e)[k - 1]);
            }
        }
    }
}

/// Splits `file_text` into lines and returns the range of each, without
/// its line terminator.
pub fn collect_line_ranges(file_text: &[char]) -> (ranges: Vec<Range<usize>>)
    ensures
        spans(ranges@) == line_ranges(file_text@),
{
    let ghost s = file_text@;
    let len = file_text.len();
    let mut ranges: Vec<Range<usize>> = Vec::new();
    let mut start: usize = 0;
    while start < len
        invariant
            len == s.len(),
            s == file_text@,
            start <= len,
            spans(ranges@) + line_ranges_from(s, start as int) == line_ranges(s),
        decreases len - start,
    {
        let mut j = start;
        while j < len && file_text[j] != '\n'
            invariant
                len == s.len(),
                s == file_text@,
                start <= j <= len,
                forall|k: int| start <= k < j ==> s[k] != '\n',
            decreases len - j,
        {
            j += 1;
        }
        proof {
            lemma_first_from(start as int, j as int, len as int, char_at(s, '\n'));
            lemma_piece_end(s, start as int);
        }
        let piece_end = if j < len {
            j + 1
        } else {
            len
        };
        let mut e = piece_end;
        while e > start && (file_text[e - 1] == '\r' || file_text[e - 1] == '\n')
            invariant
                len == s.len(),
                s == file_text@,
                start <= e <= piece_end <= len,
                content_end(s, start as int, e as int) == content_end(
                    s,
                    start as int,
                    piece_end as int,
                ),
            decreases e,
        {
            e -= 1;
        }
        let ghost old_ranges = ranges@;
        ranges.push(start..e);
        proof {
            assert(spans(ranges@) =~= spans(old_ranges) + seq![(start as int, e as int)]);
            assert(line_ranges_from(s, start as int) =~= seq![(start as int, e as int)]
                + line_ranges_from(s, piece_end as int));
            assert(spans(ranges@) + line_ranges_from(s, piece_end as int) =~= spans(old_ranges)
                + line_ranges_from(s, start as int));
        }
        start = piece_end;
    }
    assert(line_ranges_from(s, start as int) =~= Seq::<(int, int)>::empty());
    assert(spans(ranges@) =~= spans(ranges@) + line_ranges_from(s, start as int));
    ranges
}

/// End of the `str::lines` line that starts at `i`: before its `'\n'` and
/// before a `'\r'` that precedes that `'\n'`; a last line without `'\n'` is
/// kept whole.
pub open spec fn std_line_end(s: Seq<char>, i: int) -> int {
    let nl = next_newline(s, i);
    if nl < s.len() {
        if nl > i && s[nl - 1] == '\r' {
            nl - 1
        } else {
            nl
        }
    } else {
        s.len() as int
    }
}

/// The first line (in the sense of `str::lines`) at or after position `i`
/// that holds a character other than white space, or the empty sequence.
pub open spec fn first_nonblank_line_from(s: Seq<char>, i: int) -> Seq<char>
    decreases s.len() - i,
{
    if i < 0 || i >= s.len() {
        Seq::empty()
    } else {
        proof {
            lemma_piece_end(s, i);
        }
        let line = s.subrange(i, std_line_end(s, i));
        if !all_ws(line) {
            line
        } else {
            first_nonblank_line_from(s, piece_end(s, i))
        }
    }
}

/// `text.lines().find(|line| !line.trim().is_empty()).unwrap_or("")`.
pub open spec fn first_nonblank_line(s: Seq<char>) -> Seq<char> {
    first_nonblank_line_from(s, 0)
}

/// Returns the first line of `text` that is not blank, or an empty slice.
pub fn first_nonblank_line_exec(text: &[char]) -> (r: &[char])
    ensures
        r@ == first_nonblank_line(text@),
{
    let ghost s = text@;
    let len = text.len();
    let mut start: usize = 0;
    while start < len
        invariant
            len == s.len(),
            s == text@,
            start <= len,
            first_nonblank_line_from(s, start as int) == first_nonblank_line(s),
        decreases len - start,
    {
        let mut j = start;
        while j < len && text[j] != '\n'
            invariant
                len == s.len(),
                s == text@,
                start <= j <= len,
                forall|k: int| start <= k < j ==> s[k] != '\n',
            decreases len - j,
        {
            j += 1;
        }
        proof {
            lemma_first_from(start as int, j as int, len as int, char_at(s, '\n'));
            lemma_piece_end(s, start as int);
        }
        let line_end = if j < len {
            if j > start && text[j - 1] == '\r' {
                j - 1
            } else {
                j
            }
        } else {
            len
        };
        let mut k = start;
        while k < line_end && is_whitespace(text[k])
            invariant
                len == s.len(),
                s == text@,
                start <= k <= line_end <= len,
                forall|m: int| start <= m < k ==> is_ws(s[m]),
            decreases line_end - k,
        {
            k += 1;
        }
        if k < line_end {
            proof {
                let line = s.subrange(start as int, line_end as int);
                assert(!is_ws(line[k - start]));
            }
            return &text[start..line_end];
        }
        proof {
            let line = s.subrange(start as int, line_end as int);
            assert forall|m: int| 0 <= m < line.len() implies is_ws(#[trigger] line[m]) by {
                assert(line[m] == s[start + m]);
            }
        }
        start = if j < len {
            j + 1
        } else {
            len
        };
    }
    &text[len..len]
}

} // verus!
