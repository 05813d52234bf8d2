//! Finding the JSX elements of an MDX file whose children are Markdown
//! prose: those elements are kept verbatim rather than formatted.
use vstd::prelude::*;

use std::ops::Range;

use crate::lines::{collect_line_ranges, lemma_line_ranges_bounds, line_ranges, spans};
use crate::mdx::{
    fence_kind, fenced_code_delimiter_kind, has_leading_indent, is_markdown_child_line,
    is_mdx_jsx_closing_line, is_mdx_jsx_opening_line, jsx_closing_line, jsx_opening_line,
    jsx_tag_name, leading_indent, markdown_child_line, mdx_jsx_tag_name, single_line_closing,
    single_line_jsx_contains_markdown_child, single_line_jsx_has_closing_tag,
    single_line_markdown_child,
};
use crate::text::{chars_eq, trim_start, trim_start_exec};

verus! {

/// An optional index as an optional integer.
pub open spec fn opt_int(o: Option<usize>) -> Option<int> {
    match o {
        Some(i) => Some(i as int),
        None => None,
    }
}

/// Every range lies inside a text of length `n`.
pub open spec fn ranges_within(lines: Seq<(int, int)>, n: int) -> bool {
    forall|k: int| 0 <= k < lines.len() ==> 0 <= (#[trigger] lines[k]).0 <= lines[k].1 <= n
}

/// The fence state after a fence line of kind `k`: the same kind closes an
/// open fence, any kind opens a fence when none is open, and a different
/// kind inside an open fence changes nothing.
pub open spec fn next_fence(fence: Option<char>, k: char) -> Option<char> {
    if fence == Some(k) {
        None
    } else if fence is None {
        Some(k)
    } else {
        fence
    }
}

/// Line `i` without its leading white space.
pub open spec fn line_at(lines: Seq<(int, int)>, s: Seq<char>, i: int) -> Seq<char> {
    trim_start(s.subrange(lines[i].0, lines[i].1))
}

/// From line `i` on, the index of the line that closes `tag` at nesting
/// depth zero, skipping fenced code and counting nested openings of the
/// same tag that are not closed on their own line.
pub open spec fn closing_scan(
    lines: Seq<(int, int)>,
    s: Seq<char>,
    i: int,
    tag: Seq<char>,
    depth: nat,
    fence: Option<char>,
) -> Option<int>
    decreases lines.len() - i,
{
    if i < 0 || i >= lines.len() {
        None
    } else {
        let t = line_at(lines, s, i);
        match fence_kind(t) {
            Some(k) => closing_scan(lines, s, i + 1, tag, depth, next_fence(fence, k)),
            None => {
                if fence is Some {
                    closing_scan(lines, s, i + 1, tag, depth, fence)
                } else if jsx_opening_line(t) && jsx_tag_name(t) == Some(tag) && !single_line_closing(
                    t,
                    tag,
                ) {
                    closing_scan(lines, s, i + 1, tag, depth + 1, fence)
                } else if jsx_closing_line(t, tag) {
                    if depth == 0 {
                        Some(i)
                    } else {
                        closing_scan(lines, s, i + 1, tag, (depth - 1) as nat, fence)
                    }
                } else {
                    closing_scan(lines, s, i + 1, tag, depth, fence)
                }
            },
        }
    }
}

/// A closing line found by the scan lies at or after where the scan started.
pub proof fn lemma_closing_scan_bounds(
    lines: Seq<(int, int)>,
    s: Seq<char>,
    i: int,
    tag: Seq<char>,
    depth: nat,
    fence: Option<char>,
)
    ensures
        closing_scan(lines, s, i, tag, depth, fence) matches Some(e) ==> i <= e < lines.len(),
    decreases lines.len() - i,
{
    if 0 <= i < lines.len() {
        let t = line_at(lines, s, i);
        match fence_kind(t) {
            Some(k) => lemma_closing_scan_bounds(lines, s, i + 1, tag, depth, next_fence(fence, k)),
            None => {
                if depth > 0 {
                    lemma_closing_scan_bounds(lines, s, i + 1, tag, (depth - 1) as nat, fence);
                }
                lemma_closing_scan_bounds(lines, s, i + 1, tag, depth + 1, fence);
                lemma_closing_scan_bounds(lines, s, i + 1, tag, depth, fence);
            },
        }
    }
}

/// Returns the index of the line, from `start_index` on, that closes the
/// top-level element `tag_name`.
pub fn find_top_level_jsx_closing_line(
    lines: &[Range<usize>],
    file_text: &[char],
    start_index: usize,
    tag_name: &[char],
) -> (r: Option<usize>)
    requires
        ranges_within(spans(lines@), file_text@.len() as int),
    ensures
        opt_int(r) == closing_scan(spans(lines@), file_text@, start_index as int, tag_name@, 0, None),
{
    let ghost ls = spans(lines@);
    let ghost s = file_text@;
    let mut nested_same_tag_depth: usize = 0;
    let mut fenced_code_kind: Option<char> = None;
    let mut index = start_index;
    while index < lines.len()
        invariant
            ls == spans(lines@),
            s == file_text@,
            ranges_within(ls, s.len() as int),
            nested_same_tag_depth <= index,
            closing_scan(ls, s, index as int, tag_name@, nested_same_tag_depth as nat, fenced_code_kind)
                == closing_scan(ls, s, start_index as int, tag_name@, 0, None),
        decreases lines.len() - index,
    {
        assert(ls[index as int] == (lines@[index as int].start as int, lines@[index as int].end as int));
        let line = &file_text[lines[index].start..lines[index].end];
        let text = trim_start_exec(line);
        assert(text@ == line_at(ls, s, index as int));
        if let Some(kind) = fenced_code_delimiter_kind(text) {
            if fenced_code_kind == Some(kind) {
                fenced_code_kind = None;
            } else if fenced_code_kind.is_none() {
                fenced_code_kind = Some(kind);
            }
            index += 1;
            continue;
        }
        if fenced_code_kind.is_some() {
            index += 1;
            continue;
        }
        let opens_same = if is_mdx_jsx_opening_line(text) {
            match mdx_jsx_tag_name(text) {
                Some(name) => chars_eq(name, tag_name) && !single_line_jsx_has_closing_tag(text, tag_name),
                None => false,
            }
        } else {
            false
        };
        if opens_same {
            nested_same_tag_depth += 1;
            index += 1;
            continue;
        }
        if is_mdx_jsx_closing_line(text, tag_name) {
            if nested_same_tag_depth == 0 {
                return Some(index);
            }
            nested_same_tag_depth -= 1;
        }
        index += 1;
    }
    None
}

/// Some line in `[a, b)` is Markdown prose.
pub open spec fn range_has_markdown_child(lines: Seq<(int, int)>, s: Seq<char>, a: int, b: int) -> bool {
    exists|k: int| a <= k < b && #[trigger] markdown_child_line(line_at(lines, s, k))
}

/// Whether one of the lines with index in `[start_index, end_index)` is Markdown prose.
pub fn jsx_range_contains_markdown_child(
    lines: &[Range<usize>],
    file_text: &[char],
    start_index: usize,
    end_index: usize,
) -> (r: bool)
    requires
        start_index <= end_index <= lines@.len(),
        ranges_within(spans(lines@), file_text@.len() as int),
    ensures
        r == range_has_markdown_child(spans(lines@), file_text@, start_index as int, end_index as int),
{
    let ghost ls = spans(lines@);
    let mut k = start_index;
    while k < end_index
        invariant
            ls == spans(lines@),
            ranges_within(ls, file_text@.len() as int),
            start_index <= k <= end_index <= lines@.len(),
            forall|j: int| start_index <= j < k ==> !#[trigger] markdown_child_line(line_at(ls, file_text@, j)),
        decreases end_index - k,
    {
        assert(ls[k as int] == (lines@[k as int].start as int, lines@[k as int].end as int));
        let text = trim_start_exec(&file_text[lines[k].start..lines[k].end]);
        if is_markdown_child_line(text) {
            assert(markdown_child_line(line_at(ls, file_text@, k as int)));
            return true;
        }
        k += 1;
    }
    false
}

/// From line `i` on, the ranges to keep verbatim: each unindented line,
/// outside fenced code, that opens a JSX element whose children include
/// Markdown prose, either on the same line (the range is that line) or on
/// the lines up to the element's top-level closing line (the range runs
/// from the opening line to that closing line).
pub open spec fn preserve_scan(lines: Seq<(int, int)>, s: Seq<char>, i: int, fence: Option<char>) -> Seq<
    (int, int),
>
    decreases lines.len() - i,
{
    if i < 0 || i >= lines.len() {
        Seq::empty()
    } else {
        let text = s.subrange(lines[i].0, lines[i].1);
        let t = trim_start(text);
        match fence_kind(t) {
            Some(k) => preserve_scan(lines, s, i + 1, next_fence(fence, k)),
            None => {
                let rest = preserve_scan(lines, s, i + 1, fence);
                if fence is Some || leading_indent(text) || !jsx_opening_line(t) {
                    rest
                } else {
                    match jsx_tag_name(t) {
                        None => rest,
                        Some(tag) => {
                            if single_line_markdown_child(t, tag) {
                                seq![lines[i]] + rest
                            } else {
                                match closing_scan(lines, s, i + 1, tag, 0, None) {
                                    None => rest,
                                    Some(e) => {
                                        if range_has_markdown_child(lines, s, i + 1, e) {
                                            seq![(lines[i].0, lines[e].1)] + rest
                                        } else {
                                            rest
                                        }
                                    },
                                }
                            }
                        },
                    }
                }
            },
        }
    }
}

/// The ranges of `s` that an MDX file keeps verbatim.
pub open spec fn preserve_ranges(s: Seq<char>) -> Seq<(int, int)> {
    preserve_scan(line_ranges(s), s, 0, None)
}

/// Returns the ranges of `file_text` that hold JSX elements with Markdown
/// prose children, which are kept as they are.
pub fn mdx_line_boundary_preserve_ranges(file_text: &[char]) -> (r: Vec<Range<usize>>)
    ensures
        spans(r@) == preserve_ranges(file_text@),
{
    let ghost s = file_text@;
    let lines = collect_line_ranges(file_text);
    let ghost ls = spans(lines@);
    proof {
        lemma_line_ranges_bounds(s, 0);
    }
    let mut preserve: Vec<Range<usize>> = Vec::new();
    let mut fenced_code_kind: Option<char> = None;
    let mut index: usize = 0;
    while index < lines.len()
        invariant
            s == file_text@,
            ls == spans(lines@),
            ls == line_ranges(s),
            ranges_within(ls, s.len() as int),
            index <= lines@.len(),
            spans(preserve@) + preserve_scan(ls, s, index as int, fenced_code_kind) == preserve_ranges(s),
        decreases lines.len() - index,
    {
        let ghost old_preserve = preserve@;
        let ghost old_fence = fenced_code_kind;
        assert(ls[index as int] == (lines@[index as int].start as int, lines@[index as int].end as int));
        let text = &file_text[lines[index].start..lines[index].end];
        let trimmed = trim_start_exec(text);
        if let Some(kind) = fenced_code_delimiter_kind(trimmed) {
            if fenced_code_kind == Some(kind) {
                fenced_code_kind = None;
            } else if fenced_code_kind.is_none() {
                fenced_code_kind = Some(kind);
            }
            index += 1;
            continue;
        }
        if fenced_code_kind.is_some() || has_leading_indent(text) || !is_mdx_jsx_opening_line(trimmed) {
            index += 1;
            continue;
        }
        let tag_name = match mdx_jsx_tag_name(trimmed) {
            Some(t) => t,
            None => {
                index += 1;
                continue;
            },
        };
        if single_line_jsx_contains_markdown_child(trimmed, tag_name) {
            preserve.push(lines[index].start..lines[index].end);
            proof {
                assert(spans(preserve@) =~= spans(old_preserve) + seq![ls[index as int]]);
            }
            index += 1;
            continue;
        }
        let end_index = match find_top_level_jsx_closing_line(lines.as_slice(), file_text, index + 1, tag_name) {
            Some(e) => e,
            None => {
                index += 1;
                continue;
            },
        };
        proof {
            lemma_closing_scan_bounds(ls, s, index + 1, tag_name@, 0, None);
        }
        if jsx_range_contains_markdown_child(lines.as_slice(), file_text, index + 1, end_index) {
            assert(ls[end_index as int] == (lines@[end_index as int].start as int, lines@[end_index as int].end as int));
            preserve.push(lines[index].start..lines[end_index].end);
            proof {
                assert(spans(preserve@) =~= spans(old_preserve) + seq![(ls[index as int].0, ls[end_index as int].1)]);
            }
        }
        index += 1;
    }
    assert(spans(preserve@) =~= spans(preserve@) + preserve_scan(ls, s, index as int, fenced_code_kind));
    preserve
}

} // verus!
