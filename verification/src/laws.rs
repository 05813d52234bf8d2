//! Properties of the library that span several functions or every input.
use vstd::prelude::*;

use crate::blocks::{
    embedded_block, preserve_from, preserve_only_range, skip_covered, advance_ranges, merge_embedded,
    merge_preserve_only, lemma_merge_embedded, lemma_merge_preserve_only, BlockNode, ChildView,
};
use crate::embed::{
    accepted_text, candidates_from, format_candidates, lemma_candidates_share_no_position, lemma_free_blocks_are_candidates,
    overlaps_any, safe_formatted, splice_from,
};
use crate::format::{parse_error_text, changed, eq_ignore_ascii_case, mdx_extension, mode_for, bom, without_bom, FormatMode};
use crate::gen_block::{atx_prefix, cell_lead, row_text};
use crate::gen_code::{fence_len, lemma_longest_run, run_before};
use crate::gen_inline::{
    decoration_delimiter, newline_wrapping, space_or_newline, word_break, word_char, word_separator, words_from, DecorationChar, Separator,
    TextDecorationKind, TextWrap,
};
use crate::gen_nodes::{ends_ignored, gap, next_node, not_soft_break, plan_from, plan_node, GapFacts, NodeInfo, NodeKind, StepView};
use crate::lines::{content_end, lemma_content_end, lemma_piece_end, line_ranges_from, next_newline, piece_end};
use crate::mdx::{jsx_opening_line, leading_indent};
use crate::preserve::{line_at, next_fence, preserve_ranges, preserve_scan};
use crate::run::{accepts, parsed_text, start_view, step, ActionView, EventView, FormatStage, ParseView, RunView};
use crate::text::lemma_first_from_props;
use crate::balance::{
    bal, counts_ok, lemma_children_neutral, lemma_neutral_printable, lemma_neutral_quoted, lemma_node_neutral, lemma_quoted_bal,
    neutral, within_printer,
};
use crate::gen_block::quote_from;
use crate::generate::{
    block_quote_context, children_items, node_items, quote_kinds, quote_step_items, quoted, top_context, GenConfig, GenContext,
    MdNode,
};
use crate::soft_breaks::{lemma_children_strip, strips_soft_break_nodes};
use crate::print::{printable, Levels, PrintItemView};

verus! {

/// A run never ends with the text it was given: an unchanged file gives no result.
pub proof fn law_finish_is_never_the_input(r: RunView, e: EventView)
    requires
        accepts(r, e),
    ensures
        step(r, e).1 matches ActionView::Finish(Some(t)) ==> t != r.file_text,
{
}

/// The output of a run is nothing when it equals the input, and the output otherwise.
pub proof fn law_changed_output(file_text: Seq<char>, output: Seq<char>)
    ensures
        changed(file_text, Some(output)) == (if output == file_text {
            None
        } else {
            Some(output)
        }),
{
}

/// A run starts from the text without its byte order mark: in Markdown mode
/// it parses that text, in MDX mode it first formats the embedded blocks of it.
pub proof fn law_run_starts_without_bom(r: RunView)
    requires
        r.stage == FormatStage::Start,
    ensures
        r.mode == FormatMode::Markdown ==> step(r, EventView::Begin).1 == ActionView::Parse(without_bom(r.file_text)),
        r.mode == FormatMode::Mdx ==> step(r, EventView::Begin).1 == ActionView::FormatEmbedded(without_bom(r.file_text)),
        step(r, EventView::Begin).0.original == without_bom(r.file_text),
{
}

/// Exactly one leading byte order mark is removed.
pub proof fn law_strip_one_bom(s: Seq<char>)
    ensures
        without_bom(seq![bom()] + s) == s,
        (s.len() == 0 || s[0] != bom()) ==> without_bom(s) == s,
{
    assert((seq![bom()] + s).drop_first() =~= s);
}

/// A file with the ignore-file directive is left as it is.
pub proof fn law_ignored_file_is_not_formatted(r: RunView)
    requires
        r.stage == FormatStage::Parsing || r.stage == FormatStage::Reparsing,
    ensures
        step(r, EventView::Parsed(ParseView::IgnoreFile)).1 == ActionView::Finish(None),
{
}

/// When the text with formatted embedded blocks fails to parse, the text
/// without them is parsed instead; any other parse failure ends the run with
/// the diagnostic of the error in the text that failed.
pub proof fn law_failed_parse_falls_back_to_original(r: RunView, start: int, end: int, message: Seq<char>)
    requires
        r.stage == FormatStage::Parsing || r.stage == FormatStage::Reparsing,
    ensures
        step(r, EventView::Parsed(ParseView::Failed(start, end, message))).1 == (if r.stage == FormatStage::Parsing
            && r.embedded is Some {
            ActionView::Parse(r.original)
        } else {
            ActionView::Fail(parse_error_text(parsed_text(r), start, end, message))
        }),
{
}

/// A file is handled as MDX exactly when its extension is `mdx` in any ASCII case.
pub proof fn law_mdx_extension(e: Seq<char>)
    ensures
        (mode_for(Some(e)) == FormatMode::Mdx) <==> eq_ignore_ascii_case(e, mdx_extension()),
        mode_for(None) == FormatMode::Markdown,
{
}

/// The fence of a code block has at least three backticks and is longer
/// than every run of backticks in the code, so the code cannot close it.
pub proof fn law_fence_is_longer_than_any_run(s: Seq<char>, i: int)
    requires
        0 <= i <= s.len(),
    ensures
        fence_len(s) >= 3,
        run_before(s, '`', i) < fence_len(s),
{
    lemma_longest_run(s, '`', s.len() as int, i);
}

/// The lines of a text lie in it, in order, and hold no line break.
pub proof fn law_lines_hold_no_newline(s: Seq<char>, i: int)
    requires
        0 <= i,
    ensures
        forall|k: int, j: int|
            0 <= k < line_ranges_from(s, i).len() && (#[trigger] line_ranges_from(s, i)[k]).0 <= j
                < line_ranges_from(s, i)[k].1 ==> #[trigger] s[j] != '\n',
        forall|k: int|
            0 <= k < line_ranges_from(s, i).len() ==> i <= (#[trigger] line_ranges_from(s, i)[k]).0
                <= line_ranges_from(s, i)[k].1 <= s.len(),
    decreases s.len() - i,
{
    if i < s.len() {
        lemma_piece_end(s, i);
        let e = piece_end(s, i);
        let nl = next_newline(s, i);
        lemma_content_end(s, i, e);
        if nl < s.len() {
            lemma_content_end(s, i, nl);
            assert(content_end(s, i, e) == content_end(s, i, nl));
        }
        law_lines_hold_no_newline(s, e);
        let r = line_ranges_from(s, i);
        assert forall|k: int, j: int| 0 <= k < r.len() && (#[trigger] r[k]).0 <= j < r[k].1 implies #[trigger] s[j] != '\n' by {
            if k > 0 {
                assert(r[k] == line_ranges_from(s, e)[k - 1]);
            }
        }
        assert forall|k: int| 0 <= k < r.len() implies i <= (#[trigger] r[k]).0 <= r[k].1 <= s.len() by {
            if k > 0 {
                assert(r[k] == line_ranges_from(s, e)[k - 1]);
            }
        }
    }
}

/// Every range kept verbatim in an MDX file starts at the start of an
/// unindented line, outside fenced code, that opens a JSX element.
pub proof fn law_preserve_ranges_start_at_jsx_lines(lines: Seq<(int, int)>, s: Seq<char>, i: int, fence: Option<char>)
    requires
        0 <= i,
    ensures
        forall|k: int|
            0 <= k < preserve_scan(lines, s, i, fence).len() ==> exists|m: int|
                #![trigger lines[m]]
                i <= m < lines.len() && (#[trigger] preserve_scan(lines, s, i, fence)[k]).0 == lines[m].0
                    && jsx_opening_line(line_at(lines, s, m)) && !leading_indent(
                    s.subrange(lines[m].0, lines[m].1),
                ),
    decreases lines.len() - i,
{
    if i < lines.len() {
        let t = line_at(lines, s, i);
        match crate::mdx::fence_kind(t) {
            Some(k) => {
                law_preserve_ranges_start_at_jsx_lines(lines, s, i + 1, next_fence(fence, k));
                let r = preserve_scan(lines, s, i, fence);
                assert forall|k2: int| 0 <= k2 < r.len() implies exists|m: int|
                    #![trigger lines[m]]
                    i <= m < lines.len() && (#[trigger] r[k2]).0 == lines[m].0 && jsx_opening_line(line_at(lines, s, m))
                        && !leading_indent(s.subrange(lines[m].0, lines[m].1)) by {
                    let rest = preserve_scan(lines, s, i + 1, next_fence(fence, k));
                    assert(r[k2] == rest[k2]);
                }
            },
            None => {
                law_preserve_ranges_start_at_jsx_lines(lines, s, i + 1, fence);
                let rest = preserve_scan(lines, s, i + 1, fence);
                let r = preserve_scan(lines, s, i, fence);
                assert forall|k2: int| 0 <= k2 < r.len() implies exists|m: int|
                    #![trigger lines[m]]
                    i <= m < lines.len() && (#[trigger] r[k2]).0 == lines[m].0 && jsx_opening_line(line_at(lines, s, m))
                        && !leading_indent(s.subrange(lines[m].0, lines[m].1)) by {
                    if r.len() == rest.len() {
                        assert(r[k2] == rest[k2]);
                    } else if k2 == 0 {
                        assert(r[0].0 == lines[i].0);
                    } else {
                        assert(r[k2] == rest[k2 - 1]);
                    }
                }
            },
        }
    }
}

/// A node that an MDX file keeps as a node holds no embedded block and is
/// not a verbatim-only paragraph.
pub proof fn law_kept_nodes_are_plain_markdown(
    nodes: Seq<BlockNode>,
    s: Seq<char>,
    ranges: Seq<(int, int)>,
    idx: int,
    pi: int,
)
    requires
        0 <= idx,
    ensures
        forall|k: int|
            0 <= k < preserve_from(nodes, s, ranges, idx, pi).len() ==> (#[trigger] preserve_from(nodes, s, ranges, idx, pi)[k]
                matches ChildView::Node(i) ==> 0 <= i < nodes.len() && embedded_block(nodes[i], s) is None
                && preserve_only_range(nodes[i], s) is None),
    decreases nodes.len() - idx,
{
    if idx < nodes.len() {
        let start = nodes[idx].range.start as int;
        let pj = advance_ranges(ranges, pi, start);
        let r = preserve_from(nodes, s, ranges, idx, pi);
        if 0 <= pj < ranges.len() && ranges[pj].0 <= start < ranges[pj].1 {
            lemma_first_from_props(idx + 1, nodes.len() as int, crate::blocks::starts_at_or_after(nodes, ranges[pj].1));
            let next = skip_covered(nodes, idx + 1, ranges[pj].1);
            law_kept_nodes_are_plain_markdown(nodes, s, ranges, next, pj);
            let rest = preserve_from(nodes, s, ranges, next, pj);
            assert forall|k: int| 0 <= k < r.len() implies (#[trigger] r[k] matches ChildView::Node(i) ==> 0 <= i
                < nodes.len() && embedded_block(nodes[i], s) is None && preserve_only_range(nodes[i], s) is None) by {
                if k > 0 {
                    assert(r[k] == rest[k - 1]);
                }
            }
        } else {
            match embedded_block(nodes[idx], s) {
                Some((kind, rg)) => {
                    lemma_merge_embedded(nodes, s, idx + 1, kind, rg.1);
                    let m = merge_embedded(nodes, s, idx + 1, kind, rg.1);
                    law_kept_nodes_are_plain_markdown(nodes, s, ranges, m.0, pj);
                    let rest = preserve_from(nodes, s, ranges, m.0, pj);
                    assert forall|k: int| 0 <= k < r.len() implies (#[trigger] r[k] matches ChildView::Node(i) ==> 0
                        <= i < nodes.len() && embedded_block(nodes[i], s) is None && preserve_only_range(nodes[i], s)
                        is None) by {
                        if k > 0 {
                            assert(r[k] == rest[k - 1]);
                        }
                    }
                },
                None => match preserve_only_range(nodes[idx], s) {
                    Some(rg) => {
                        lemma_merge_preserve_only(nodes, s, idx + 1, rg.1);
                        let m = merge_preserve_only(nodes, s, idx + 1, rg.1);
                        law_kept_nodes_are_plain_markdown(nodes, s, ranges, m.0, pj);
                        let rest = preserve_from(nodes, s, ranges, m.0, pj);
                        assert forall|k: int| 0 <= k < r.len() implies (#[trigger] r[k] matches ChildView::Node(i)
                            ==> 0 <= i < nodes.len() && embedded_block(nodes[i], s) is None && preserve_only_range(
                            nodes[i],
                            s,
                        ) is None) by {
                            if k > 0 {
                                assert(r[k] == rest[k - 1]);
                            }
                        }
                    },
                    None => {
                        law_kept_nodes_are_plain_markdown(nodes, s, ranges, idx + 1, pj);
                        let rest = preserve_from(nodes, s, ranges, idx + 1, pj);
                        assert forall|k: int| 0 <= k < r.len() implies (#[trigger] r[k] matches ChildView::Node(i)
                            ==> 0 <= i < nodes.len() && embedded_block(nodes[i], s) is None && preserve_only_range(
                            nodes[i],
                            s,
                        ) is None) by {
                            if k > 0 {
                                assert(r[k] == rest[k - 1]);
                            }
                        }
                    },
                },
            }
        }
    }
}

/// A formatted embedded block replaces the original only when it is safe:
/// it starts like a block of the same kind and parses into such blocks only.
pub proof fn law_replacements_are_safe(
    s: Seq<char>,
    c: (crate::blocks::MdxEmbeddedBlockKind, (int, int)),
    o: Option<(Seq<char>, Option<Seq<BlockNode>>)>,
)
    ensures
        accepted_text(s, c, o) matches Some(t) ==> match o {
            Some(f) => safe_formatted(c.0, t, f.1) && t != s.subrange(c.1.0, c.1.1),
            None => false,
        },
{
}

/// Where the formatter's result for no block is accepted, splicing keeps
/// the text as it was.
pub proof fn law_unreplaced_text_is_kept(
    s: Seq<char>,
    blocks: Seq<(crate::blocks::MdxEmbeddedBlockKind, (int, int))>,
    outs: Seq<Option<(Seq<char>, Option<Seq<BlockNode>>)>>,
    i: int,
    last: int,
)
    requires
        0 <= i,
        0 <= last <= s.len(),
        forall|j: int| i <= j < blocks.len() ==> (#[trigger] accepted_text(s, blocks[j], outs[j])) is None,
    ensures
        splice_from(s, blocks, outs, i, last) == s.subrange(last, s.len() as int),
    decreases blocks.len() - i,
{
    if i < blocks.len() {
        assert(accepted_text(s, blocks[i], outs[i]) is None);
        law_unreplaced_text_is_kept(s, blocks, outs, i + 1, last);
    }
}

/// The words of a text are never empty and hold no space or line break.
pub proof fn law_words_have_no_breaks(s: Seq<char>, i: int, nl: bool, maintain: bool)
    requires
        0 <= i,
    ensures
        forall|k: int|
            0 <= k < words_from(s, i, nl, maintain).len() ==> (#[trigger] words_from(s, i, nl, maintain)[k]).0.len() > 0
                && forall|j: int| 0 <= j < words_from(s, i, nl, maintain)[k].0.len() ==> !word_break(
                words_from(s, i, nl, maintain)[k].0[j],
            ),
    decreases s.len() - i,
{
    if i < s.len() {
        if word_break(s[i]) {
            let nl2 = nl || (maintain && s[i] == '\n');
            law_words_have_no_breaks(s, i + 1, nl2, maintain);
            assert(words_from(s, i, nl, maintain) == words_from(s, i + 1, nl2, maintain));
        } else {
            let p = crate::gen_inline::break_at(s);
            lemma_first_from_props(i, s.len() as int, p);
            let e = crate::text::first_from(i, s.len() as int, p);
            law_words_have_no_breaks(s, e, false, maintain);
            let r = words_from(s, i, nl, maintain);
            let rest = words_from(s, e, false, maintain);
            if e == i {
                assert(p(i));
            }
            assert(e > i);
            assert(r == seq![(s.subrange(i, e), nl)] + rest);
            assert forall|k: int| 0 <= k < r.len() implies (#[trigger] r[k]).0.len() > 0 && forall|j: int|
                0 <= j < r[k].0.len() ==> !word_break(r[k].0[j]) by {
                if k > 0 {
                    assert(r[k] == rest[k - 1]);
                } else {
                    assert forall|j: int| 0 <= j < r[0].0.len() implies !word_break(r[0].0[j]) by {
                        assert(r[0].0[j] == s[i + j]);
                        assert(!p(i + j));
                    }
                }
            }
        }
    }
}

/// No block given to the embedded formatter overlaps a range that is kept verbatim.
pub proof fn law_candidates_avoid_verbatim_ranges(nodes: Seq<BlockNode>, s: Seq<char>, ranges: Seq<(int, int)>, i: int)
    requires
        0 <= i,
    ensures
        forall|k: int|
            0 <= k < candidates_from(nodes, s, ranges, i).len() ==> !overlaps_any(
                ranges,
                (#[trigger] candidates_from(nodes, s, ranges, i)[k]).1,
            ),
    decreases nodes.len() - i,
{
    if i < nodes.len() {
        law_candidates_avoid_verbatim_ranges(nodes, s, ranges, i + 1);
        let r = candidates_from(nodes, s, ranges, i);
        let rest = candidates_from(nodes, s, ranges, i + 1);
        assert forall|k: int| 0 <= k < r.len() implies !overlaps_any(ranges, (#[trigger] r[k]).1) by {
            if r.len() != rest.len() && k > 0 {
                assert(r[k] == rest[k - 1]);
            } else if r.len() == rest.len() {
                assert(r[k] == rest[k]);
            }
        }
    }
}

/// A table row with cells starts with `| ` and ends with ` |`, and a cell
/// is followed by ` |` and preceded by a space.
pub proof fn law_table_row_delimiters(cells: Seq<Seq<char>>, n: int)
    requires
        0 < n <= cells.len(),
    ensures
        row_text(cells, n).take(2) == seq!['|', ' '],
        row_text(cells, n).skip(row_text(cells, n).len() - 2) == seq![' ', '|'],
        row_text(cells, n) == row_text(cells, n - 1) + cell_lead(n - 1) + cells[n - 1] + seq![' ', '|'],
    decreases n,
{
    let r = row_text(cells, n);
    if n > 1 {
        law_table_row_delimiters(cells, n - 1);
        let p = row_text(cells, n - 1);
        assert(r.take(2) =~= p.take(2));
    } else {
        assert(row_text(cells, 0) =~= Seq::<char>::empty());
        assert(r.take(2) =~= seq!['|', ' ']);
    }
    assert(r.skip(r.len() - 2) =~= seq![' ', '|']);
}

/// The node that a step prints, if it prints one.
pub open spec fn step_node(s: StepView) -> Option<int> {
    match s {
        StepView::Generate(k) => Some(k),
        StepView::GenerateAlternateList(k) => Some(k),
        StepView::RawNode(k) => Some(k),
        _ => None,
    }
}

/// The steps print nodes of `[lo, hi)` only, each after the ones before it.
pub open spec fn nodes_ascend(v: Seq<StepView>, lo: int, hi: int) -> bool {
    &&& forall|a: int| 0 <= a < v.len() && #[trigger] step_node(v[a]) is Some ==> lo <= step_node(v[a])->0 < hi
    &&& forall|a: int, b: int|
        0 <= a < b < v.len() && #[trigger] step_node(v[a]) is Some && #[trigger] step_node(v[b]) is Some
            ==> step_node(v[a])->0 < step_node(v[b])->0
}

proof fn lemma_ascend_concat(x: Seq<StepView>, y: Seq<StepView>, lo: int, m: int, hi: int)
    requires
        nodes_ascend(x, lo, m),
        nodes_ascend(y, m, hi),
        lo <= m <= hi,
    ensures
        nodes_ascend(x + y, lo, hi),
{
    let v = x + y;
    assert forall|a: int| 0 <= a < v.len() && #[trigger] step_node(v[a]) is Some implies lo <= step_node(v[a])->0 < hi by {
        if a < x.len() {
            assert(v[a] == x[a]);
        } else {
            assert(v[a] == y[a - x.len()]);
        }
    }
    assert forall|a: int, b: int|
        0 <= a < b < v.len() && #[trigger] step_node(v[a]) is Some && #[trigger] step_node(v[b]) is Some implies step_node(
        v[a],
    )->0 < step_node(v[b])->0 by {
        if b < x.len() {
            assert(v[a] == x[a] && v[b] == x[b]);
        } else if a < x.len() {
            assert(v[a] == x[a] && v[b] == y[b - x.len()]);
        } else {
            assert(v[a] == y[a - x.len()] && v[b] == y[b - x.len()]);
        }
    }
}

proof fn lemma_ascend_plan_from(nodes: Seq<NodeInfo>, i: int, last: Option<int>)
    requires
        0 <= i,
    ensures
        nodes_ascend(plan_from(nodes, i, last), i, nodes.len() as int),
    decreases nodes.len() - i, 1int,
{
    let n = nodes.len() as int;
    if i < n {
        crate::text::lemma_first_from_props(i, n, not_soft_break(nodes));
        let k = next_node(nodes, i);
        if k < n {
            let alternate = match last {
                Some(l) => 0 <= l < n && nodes[l].kind == NodeKind::List && nodes[k].kind == NodeKind::List
                    && nodes[l].ordered_list == nodes[k].ordered_list,
                None => false,
            };
            if alternate {
                crate::text::lemma_first_from_props(k + 1, n, not_soft_break(nodes));
                let pre = seq![
                    StepView::Separators(crate::gen_nodes::conditional_blank_line(nodes[k].facts)),
                    StepView::GenerateAlternateList(k),
                ];
                assert(step_node(pre[0]) is None);
                assert(nodes_ascend(pre, i, k + 1));
                let k2 = next_node(nodes, k + 1);
                if k2 < n {
                    lemma_ascend_plan_node(nodes, k2, Some(k));
                    lemma_ascend_concat(pre, plan_node(nodes, k2, Some(k)), i, k + 1, n);
                }
            } else {
                lemma_ascend_plan_node(nodes, k, last);
            }
        }
    }
}

proof fn lemma_ascend_plan_node(nodes: Seq<NodeInfo>, k: int, last: Option<int>)
    requires
        0 <= k,
    ensures
        nodes_ascend(plan_node(nodes, k, last), k, nodes.len() as int),
    decreases nodes.len() - k, 0int,
{
    let n = nodes.len() as int;
    if k < n {
        let node = nodes[k];
        let gap_steps = match last {
            Some(l) => if 0 <= l < n {
                seq![StepView::Separators(crate::gen_nodes::gap(nodes[l].kind, nodes[l].text@, node.kind, node.facts))]
            } else {
                Seq::empty()
            },
            None => Seq::empty(),
        };
        let head = gap_steps + seq![StepView::Generate(k)];
        assert forall|a: int| 0 <= a < gap_steps.len() implies step_node(#[trigger] gap_steps[a]) is None by {}
        assert(nodes_ascend(seq![StepView::Generate(k)], k, k + 1));
        lemma_ascend_concat(gap_steps, seq![StepView::Generate(k)], k, k, k + 1);
        if node.kind == NodeKind::Html && node.is_ignore {
            crate::text::lemma_first_from_props(k + 1, n, not_soft_break(nodes));
            let j = next_node(nodes, k + 1);
            if j < n {
                let blank = if nodes[j].facts.has_leading_blank_line {
                    seq![StepView::NewLine]
                } else {
                    Seq::empty()
                };
                let mid = seq![StepView::NewLine] + blank + seq![StepView::RawNode(j)];
                assert forall|a: int| 0 <= a < mid.len() && #[trigger] step_node(mid[a]) is Some implies a == mid.len() - 1 by {
                    if a < mid.len() - 1 {
                        assert(mid[a] == StepView::NewLine);
                    }
                }
                assert(nodes_ascend(mid, k + 1, j + 1));
                lemma_ascend_plan_from(nodes, j + 1, Some(j));
                lemma_ascend_concat(head, mid, k, k + 1, j + 1);
                lemma_ascend_concat(head + mid, plan_from(nodes, j + 1, Some(j)), k, j + 1, n);
                assert(head + seq![StepView::NewLine] + blank + seq![StepView::RawNode(j)] + plan_from(nodes, j + 1, Some(j))
                    =~= (head + mid) + plan_from(nodes, j + 1, Some(j)));
            } else {
                let tail = seq![StepView::NewLine];
                assert(nodes_ascend(tail, k + 1, n));
                lemma_ascend_concat(head, tail, k, k + 1, n);
            }
        } else if node.kind == NodeKind::Html && node.is_ignore_start {
            crate::text::lemma_first_from_props(k + 1, n, ends_ignored(nodes));
            let e = crate::text::first_from(k + 1, n, ends_ignored(nodes));
            if e < n {
                let mid = seq![StepView::RawText(node.end as int, nodes[e].start as int, false), StepView::Generate(e)];
                assert(step_node(mid[0]) is None);
                assert(nodes_ascend(mid, k + 1, e + 1));
                lemma_ascend_plan_from(nodes, e + 1, Some(e));
                lemma_ascend_concat(head, mid, k, k + 1, e + 1);
                lemma_ascend_concat(head + mid, plan_from(nodes, e + 1, Some(e)), k, e + 1, n);
            } else {
                let tail = seq![
                    StepView::RawText(node.end as int, nodes[crate::gen_nodes::last_node_after(nodes, k)].end as int, true),
                ];
                assert(step_node(tail[0]) is None);
                assert(nodes_ascend(tail, k + 1, n));
                lemma_ascend_concat(head, tail, k, k + 1, n);
            }
        } else {
            lemma_ascend_plan_from(nodes, k + 1, Some(k));
            lemma_ascend_concat(head, plan_from(nodes, k + 1, Some(k)), k, k + 1, n);
        }
    }
}

/// The steps for a sequence of sibling nodes print each node at most once,
/// in the order of the nodes, and only nodes of the sequence.
pub proof fn law_nodes_are_printed_once_in_order(nodes: Seq<NodeInfo>)
    ensures
        nodes_ascend(plan_from(nodes, 0, None), 0, nodes.len() as int),
{
    lemma_ascend_plan_from(nodes, 0, None);
}

/// A run ends with an error exactly when a parse fails that is not the
/// first parse of a text with formatted embedded blocks (which is retried
/// on the text without them).
pub proof fn law_run_fails_exactly_on_parse_failure(r: RunView, e: EventView)
    requires
        accepts(r, e),
    ensures
        (step(r, e).1 is Fail) <==> (e matches EventView::Parsed(ParseView::Failed(_, _, _)) && !(r.stage
            == FormatStage::Parsing && r.embedded is Some)),
{
}

/// Whatever the embedded formatter gave (nothing after an error), the run
/// goes on to parse, and a block for which it gave nothing is not replaced.
pub proof fn law_embedded_errors_never_fail(
    r: RunView,
    t: Option<Seq<char>>,
    s: Seq<char>,
    c: (crate::blocks::MdxEmbeddedBlockKind, (int, int)),
)
    ensures
        step(r, EventView::Embedded(t)).1 is Parse,
        accepted_text(s, c, None) is None,
{
}

/// The steps print no soft break of the nodes.
pub open spec fn no_soft_break_printed(v: Seq<StepView>, nodes: Seq<NodeInfo>) -> bool {
    forall|a: int|
        0 <= a < v.len() && #[trigger] step_node(v[a]) is Some ==> 0 <= step_node(v[a])->0 < nodes.len()
            && nodes[step_node(v[a])->0].kind != NodeKind::SoftBreak
}

proof fn lemma_no_soft_concat(x: Seq<StepView>, y: Seq<StepView>, nodes: Seq<NodeInfo>)
    requires
        no_soft_break_printed(x, nodes),
        no_soft_break_printed(y, nodes),
    ensures
        no_soft_break_printed(x + y, nodes),
{
    let v = x + y;
    assert forall|a: int| 0 <= a < v.len() && #[trigger] step_node(v[a]) is Some implies 0 <= step_node(v[a])->0
        < nodes.len() && nodes[step_node(v[a])->0].kind != NodeKind::SoftBreak by {
        if a < x.len() {
            assert(v[a] == x[a]);
        } else {
            assert(v[a] == y[a - x.len()]);
        }
    }
}

proof fn lemma_no_soft_plan_from(nodes: Seq<NodeInfo>, i: int, last: Option<int>)
    requires
        0 <= i,
    ensures
        no_soft_break_printed(plan_from(nodes, i, last), nodes),
    decreases nodes.len() - i, 1int,
{
    let n = nodes.len() as int;
    if i < n {
        crate::text::lemma_first_from_props(i, n, not_soft_break(nodes));
        let k = next_node(nodes, i);
        if k < n {
            assert(not_soft_break(nodes)(k));
            let alternate = match last {
                Some(l) => 0 <= l < n && nodes[l].kind == NodeKind::List && nodes[k].kind == NodeKind::List
                    && nodes[l].ordered_list == nodes[k].ordered_list,
                None => false,
            };
            if alternate {
                crate::text::lemma_first_from_props(k + 1, n, not_soft_break(nodes));
                let pre = seq![
                    StepView::Separators(crate::gen_nodes::conditional_blank_line(nodes[k].facts)),
                    StepView::GenerateAlternateList(k),
                ];
                assert(step_node(pre[0]) is None);
                assert(no_soft_break_printed(pre, nodes));
                let k2 = next_node(nodes, k + 1);
                if k2 < n {
                    lemma_no_soft_plan_node(nodes, k2, Some(k));
                    lemma_no_soft_concat(pre, plan_node(nodes, k2, Some(k)), nodes);
                }
            } else {
                lemma_no_soft_plan_node(nodes, k, last);
            }
        }
    }
}

proof fn lemma_no_soft_plan_node(nodes: Seq<NodeInfo>, k: int, last: Option<int>)
    requires
        0 <= k,
        k < nodes.len() ==> nodes[k].kind != NodeKind::SoftBreak,
    ensures
        no_soft_break_printed(plan_node(nodes, k, last), nodes),
    decreases nodes.len() - k, 0int,
{
    let n = nodes.len() as int;
    if k < n {
        let node = nodes[k];
        let gap_steps = match last {
            Some(l) => if 0 <= l < n {
                seq![StepView::Separators(crate::gen_nodes::gap(nodes[l].kind, nodes[l].text@, node.kind, node.facts))]
            } else {
                Seq::empty()
            },
            None => Seq::empty(),
        };
        let head = gap_steps + seq![StepView::Generate(k)];
        assert forall|a: int| 0 <= a < gap_steps.len() implies step_node(#[trigger] gap_steps[a]) is None by {}
        assert(no_soft_break_printed(seq![StepView::Generate(k)], nodes));
        lemma_no_soft_concat(gap_steps, seq![StepView::Generate(k)], nodes);
        if node.kind == NodeKind::Html && node.is_ignore {
            crate::text::lemma_first_from_props(k + 1, n, not_soft_break(nodes));
            let j = next_node(nodes, k + 1);
            if j < n {
                assert(not_soft_break(nodes)(j));
                let blank = if nodes[j].facts.has_leading_blank_line {
                    seq![StepView::NewLine]
                } else {
                    Seq::empty()
                };
                let mid = seq![StepView::NewLine] + blank + seq![StepView::RawNode(j)];
                assert forall|a: int| 0 <= a < mid.len() && #[trigger] step_node(mid[a]) is Some implies a == mid.len() - 1 by {
                    if a < mid.len() - 1 {
                        assert(mid[a] == StepView::NewLine);
                    }
                }
                assert(no_soft_break_printed(mid, nodes));
                lemma_no_soft_plan_from(nodes, j + 1, Some(j));
                lemma_no_soft_concat(head, mid, nodes);
                lemma_no_soft_concat(head + mid, plan_from(nodes, j + 1, Some(j)), nodes);
                assert(head + seq![StepView::NewLine] + blank + seq![StepView::RawNode(j)] + plan_from(nodes, j + 1, Some(j))
                    =~= (head + mid) + plan_from(nodes, j + 1, Some(j)));
            } else {
                let tail = seq![StepView::NewLine];
                assert(no_soft_break_printed(tail, nodes));
                lemma_no_soft_concat(head, tail, nodes);
            }
        } else if node.kind == NodeKind::Html && node.is_ignore_start {
            crate::text::lemma_first_from_props(k + 1, n, ends_ignored(nodes));
            let e = crate::text::first_from(k + 1, n, ends_ignored(nodes));
            if e < n {
                assert(ends_ignored(nodes)(e));
                let mid = seq![StepView::RawText(node.end as int, nodes[e].start as int, false), StepView::Generate(e)];
                assert(step_node(mid[0]) is None);
                assert(no_soft_break_printed(mid, nodes));
                lemma_no_soft_plan_from(nodes, e + 1, Some(e));
                lemma_no_soft_concat(head, mid, nodes);
                lemma_no_soft_concat(head + mid, plan_from(nodes, e + 1, Some(e)), nodes);
            } else {
                let tail = seq![
                    StepView::RawText(node.end as int, nodes[crate::gen_nodes::last_node_after(nodes, k)].end as int, true),
                ];
                assert(step_node(tail[0]) is None);
                assert(no_soft_break_printed(tail, nodes));
                lemma_no_soft_concat(head, tail, nodes);
            }
        } else {
            lemma_no_soft_plan_from(nodes, k + 1, Some(k));
            lemma_no_soft_concat(head, plan_from(nodes, k + 1, Some(k)), nodes);
        }
    }
}

/// Soft breaks are never printed: every node that the steps for a sequence
/// of siblings print is one of them and not a soft break.
pub proof fn law_soft_breaks_are_never_printed(nodes: Seq<NodeInfo>)
    ensures
        no_soft_break_printed(plan_from(nodes, 0, None), nodes),
{
    lemma_no_soft_plan_from(nodes, 0, None);
}

/// The generated items of any node, in any configuration, end only the
/// sections they started and leave none open, whatever sections are open
/// around them; so printing the items of a document starts and ends with
/// no section open.
pub proof fn law_generated_items_are_balanced(node: MdNode, cfg: GenConfig, file_text: Seq<char>, directive: Seq<char>)
    ensures
        neutral(node_items(node, top_context(cfg), file_text, directive)),
        bal(node_items(node, top_context(cfg), file_text, directive), 0, (0int, 0int, 0int, 0int)) == Some(
            (0int, 0int, 0int, 0int),
        ),
{
    lemma_node_neutral(node, top_context(cfg), file_text, directive);
    assert(counts_ok((0int, 0int, 0int, 0int)));
}

/// Prefixing the lines inside block quotes never changes which sections
/// the items open and close.
pub proof fn law_quote_prefixes_keep_sections(items: Seq<PrintItemView>, depth: usize, l: Levels)
    requires
        counts_ok(l),
    ensures
        bal(quoted(items, depth), 0, l) == bal(items, 0, l),
{
    lemma_quoted_bal(items, depth, l);
}

/// Soft breaks never change the output: the items of a node's children are
/// those of the same children with their soft breaks taken out (`idx`
/// lists the positions of the children that are kept).
pub proof fn law_soft_breaks_change_nothing(
    with_breaks: MdNode,
    without_breaks: MdNode,
    idx: Seq<int>,
    ctx: GenContext,
    file_text: Seq<char>,
    directive: Seq<char>,
)
    requires
        strips_soft_break_nodes(with_breaks.children@, without_breaks.children@, idx),
    ensures
        children_items(with_breaks, 0, with_breaks.children@.len() as int, ctx, file_text, directive) == children_items(
            without_breaks,
            0,
            without_breaks.children@.len() as int,
            ctx,
            file_text,
            directive,
        ),
{
    lemma_children_strip(with_breaks, without_breaks, idx, ctx, file_text, directive);
}

/// Inside a block quote, every line of the generated content gets its `>`
/// prefix: the content's items close every indentation they open, so the
/// prefixing plan always applies (for content of at most `u32::MAX` items).
pub proof fn law_block_quotes_prefix_every_line(node: MdNode, ctx: GenContext, file_text: Seq<char>, directive: Seq<char>)
    requires
        node.kind == NodeKind::BlockQuote,
        children_items(
            node,
            0,
            node.children@.len() as int,
            block_quote_context(ctx),
            file_text,
            directive,
        ).len() <= u32::MAX,
    ensures
        node_items(node, ctx, file_text, directive) == quote_step_items(
            quote_from(
                quote_kinds(children_items(node, 0, node.children@.len() as int, block_quote_context(ctx), file_text, directive)),
                block_quote_context(ctx).quote_depth,
                0,
                0,
            ),
            children_items(node, 0, node.children@.len() as int, block_quote_context(ctx), file_text, directive),
        ),
{
    let inner = block_quote_context(ctx);
    let content = children_items(node, 0, node.children@.len() as int, inner, file_text, directive);
    lemma_children_neutral(node, 0, node.children@.len() as int, inner, file_text, directive);
    lemma_neutral_quoted(content, inner.quote_depth);
}

/// A whole Markdown run: it parses the text without its byte order mark,
/// fails exactly when that parse fails, finishes with nothing when the file
/// is ignored, and otherwise prints and finishes with the printed text, or
/// with nothing where it equals the input.
pub proof fn law_markdown_run(file_text: Seq<char>, p: ParseView, printed: Seq<char>)
    ensures
        ({
            let (r1, a1) = step(start_view(file_text, FormatMode::Markdown), EventView::Begin);
            let (r2, a2) = step(r1, EventView::Parsed(p));
            &&& a1 == ActionView::Parse(without_bom(file_text))
            &&& (a2 is Fail <==> p is Failed)
            &&& (p is IgnoreFile ==> a2 == ActionView::Finish(None))
            &&& (p is SourceFile ==> a2 == ActionView::Print(without_bom(file_text)) && step(
                r2,
                EventView::Printed(printed),
            ).1 == ActionView::Finish(changed(file_text, Some(printed))))
        }),
{
}

/// A whole MDX run: whatever the embedded formatter gave (`embedded`,
/// nothing where it failed or changed nothing), the run fails only where
/// parsing fails: the text with the formatted blocks is parsed first, and
/// where that fails the original text is parsed again, and the run fails
/// exactly when that parse fails too.
pub proof fn law_mdx_run(file_text: Seq<char>, embedded: Option<Seq<char>>, p1: ParseView, p2: ParseView)
    ensures
        ({
            let (r1, a1) = step(start_view(file_text, FormatMode::Mdx), EventView::Begin);
            let (r2, a2) = step(r1, EventView::Embedded(embedded));
            let (r3, a3) = step(r2, EventView::Parsed(p1));
            let a4 = step(r3, EventView::Parsed(p2)).1;
            &&& a1 == ActionView::FormatEmbedded(without_bom(file_text))
            &&& a2 == ActionView::Parse(match embedded {
                Some(t) => t,
                None => without_bom(file_text),
            })
            &&& (p1 is Failed && embedded is Some ==> a3 == ActionView::Parse(without_bom(file_text)) && (a4 is Fail
                <==> p2 is Failed))
            &&& (a3 is Fail <==> p1 is Failed && embedded is None)
        }),
{
}

/// The generated items of a document are printed without a panic of the
/// printer exactly when none of their texts holds a line break or tab and
/// their sections nest no deeper than the printer's counters allow.
pub proof fn law_generated_items_printable(node: MdNode, cfg: GenConfig, file_text: Seq<char>, directive: Seq<char>)
    ensures
        printable(node_items(node, top_context(cfg), file_text, directive)) <==> within_printer(
            node_items(node, top_context(cfg), file_text, directive),
            0,
            (0int, 0int, 0int, 0int),
        ),
{
    lemma_node_neutral(node, top_context(cfg), file_text, directive);
    lemma_neutral_printable(node_items(node, top_context(cfg), file_text, directive));
}

/// No block given to the TSX formatter shares a position with a range kept
/// verbatim: for each candidate `[c, d)` and each preserved range `[a, b)`,
/// it is not the case that `a < d` and `c < b`. So a block that merely
/// overlaps a preserved range (without lying inside it) is not formatted.
pub proof fn law_candidates_never_touch_preserved_ranges(nodes: Seq<BlockNode>, s: Seq<char>)
    ensures
        forall|k: int, j: int|
            0 <= k < format_candidates(nodes, s).len() && 0 <= j < preserve_ranges(s).len() ==> !(
            #[trigger] preserve_ranges(s)[j].0 < (#[trigger] format_candidates(nodes, s)[k]).1.1
                && format_candidates(nodes, s)[k].1.0 < preserve_ranges(s)[j].1),
{
    lemma_candidates_share_no_position(nodes, s, preserve_ranges(s), 0);
}

/// Every embedded block of a top-level node that shares no position with a
/// preserved range is given to the TSX formatter.
pub proof fn law_untouched_blocks_are_candidates(nodes: Seq<BlockNode>, s: Seq<char>, m: int)
    requires
        0 <= m < nodes.len(),
        embedded_block(nodes[m], s) is Some,
        forall|j: int|
            0 <= j < preserve_ranges(s).len() ==> !(#[trigger] preserve_ranges(s)[j].0 < (embedded_block(nodes[m], s)->0).1.1
                && (embedded_block(nodes[m], s)->0).1.0 < preserve_ranges(s)[j].1),
    ensures
        format_candidates(nodes, s).contains(embedded_block(nodes[m], s)->0),
{
    lemma_free_blocks_are_candidates(nodes, s, preserve_ranges(s), 0, m);
}

/// After a block node (heading, paragraph, code block, footnote
/// definition, rule, list, table, metadata, block quote or display math),
/// any node but a hard break follows after a blank line, or after a single
/// line break inside a list where the source has no blank line; so does a
/// node that starts a block, whatever precedes it.
pub proof fn law_blocks_are_separated(last: NodeKind, last_text: Seq<char>, node: NodeKind, f: GapFacts)
    requires
        node == NodeKind::Heading || node == NodeKind::Paragraph || node == NodeKind::CodeBlock || node
            == NodeKind::FootnoteDefinition || node == NodeKind::HorizontalRule || node == NodeKind::List || node
            == NodeKind::Table || node == NodeKind::BlockQuote || (node != NodeKind::HardBreak && (last
            == NodeKind::Heading || last == NodeKind::Paragraph || last == NodeKind::CodeBlock || last
            == NodeKind::FootnoteDefinition || last == NodeKind::HorizontalRule || last == NodeKind::List || last
            == NodeKind::Table || last == NodeKind::MetadataBlock || last == NodeKind::BlockQuote || last
            == NodeKind::DisplayMath)),
    ensures
        gap(last, last_text, node, f) == (if !f.in_list || f.has_leading_blank_line {
            seq![Separator::NewLine, Separator::NewLine]
        } else {
            seq![Separator::NewLine]
        }),
        !f.in_list ==> gap(last, last_text, node, f).len() == 2,
{
}

/// Between two words on one line of the source, the separator is a plain
/// space unless wrapping is on (`always`) and not disabled, where it is a
/// space that may become a line break. A line break of the source becomes
/// such a space with `always`, a plain space with `never`, and stays a line
/// break with `maintain` (a space where line breaks are suppressed).
pub proof fn law_word_separators(wrap: TextWrap, wrap_disabled: bool, is_list_word: bool)
    ensures
        word_separator(false, is_list_word, false, wrap, wrap_disabled) == Some(
            if !is_list_word && wrap == TextWrap::Always && !wrap_disabled {
                Separator::SpaceOrNewLine
            } else {
                Separator::Space
            },
        ),
        space_or_newline(wrap, wrap_disabled) == Separator::SpaceOrNewLine <==> (wrap == TextWrap::Always
            && !wrap_disabled),
        wrap == TextWrap::Never ==> space_or_newline(wrap, wrap_disabled) == Separator::Space,
        wrap == TextWrap::Maintain ==> space_or_newline(wrap, wrap_disabled) == Separator::Space,
        word_separator(true, is_list_word, false, wrap, wrap_disabled) is None,
        newline_wrapping(TextWrap::Always, wrap_disabled) == Separator::SpaceOrNewLine,
        newline_wrapping(TextWrap::Never, wrap_disabled) == Separator::Space,
        newline_wrapping(TextWrap::Maintain, wrap_disabled) == (if wrap_disabled {
            Separator::SpaceIfNoNewLinesElseNewLine
        } else {
            Separator::NewLine
        }),
{
}

/// The `#` prefix of a heading of level `n` is `n` number signs and a space.
pub proof fn law_atx_prefix(level: u8)
    ensures
        atx_prefix(level).len() == level + 1,
        forall|i: int| 0 <= i < level ==> atx_prefix(level)[i] == '#',
        atx_prefix(level)[level as int] == ' ',
        atx_prefix(level).take(level as int) =~= Seq::new(level as nat, |i: int| '#'),
{
}

/// The delimiter of a decoration: asterisks where asterisks are configured,
/// whatever the source; underscores where underscores are configured,
/// except after an asterisk of the source that a letter or digit follows;
/// `~~` for strikethrough.
pub proof fn law_decoration_delimiters(
    kind: TextDecorationKind,
    emphasis: DecorationChar,
    strong: DecorationChar,
    s: Seq<char>,
    pos: int,
)
    requires
        1 <= pos <= s.len(),
    ensures
        kind == TextDecorationKind::Emphasis && emphasis == DecorationChar::Asterisks ==> decoration_delimiter(
            kind,
            emphasis,
            strong,
            s,
            pos,
        ) == seq!['*'],
        kind == TextDecorationKind::Strong && strong == DecorationChar::Asterisks ==> decoration_delimiter(
            kind,
            emphasis,
            strong,
            s,
            pos,
        ) == seq!['*', '*'],
        kind == TextDecorationKind::Strikethrough ==> decoration_delimiter(kind, emphasis, strong, s, pos) == seq![
            '~',
            '~',
        ],
        kind == TextDecorationKind::Emphasis && emphasis == DecorationChar::Underscores ==> decoration_delimiter(
            kind,
            emphasis,
            strong,
            s,
            pos,
        ) == (if s[pos - 1] == '*' && pos < s.len() && word_char(s[pos]) {
            seq!['*']
        } else {
            seq!['_']
        }),
        kind == TextDecorationKind::Strong && strong == DecorationChar::Underscores ==> decoration_delimiter(
            kind,
            emphasis,
            strong,
            s,
            pos,
        ) == (if s[pos - 1] == '*' && pos < s.len() && word_char(s[pos]) {
            seq!['*', '*']
        } else {
            seq!['_', '_']
        }),
        kind == TextDecorationKind::Emphasis && emphasis == DecorationChar::Underscores && (pos == s.len() || s[pos]
            == ' ' || s[pos - 1] != '*') ==> decoration_delimiter(kind, emphasis, strong, s, pos) == seq!['_'],
        kind == TextDecorationKind::Emphasis && emphasis == DecorationChar::Underscores && s[pos - 1] == '*' && pos
            < s.len() && (('a' <= s[pos] <= 'z') || ('A' <= s[pos] <= 'Z') || ('0' <= s[pos] <= '9'))
            ==> decoration_delimiter(kind, emphasis, strong, s, pos) == seq!['*'],
{
    assert(crate::chars::repeated('*', 1) =~= seq!['*']);
    assert(crate::chars::repeated('_', 1) =~= seq!['_']);
    assert(crate::chars::repeated('*', 2) =~= seq!['*', '*']);
    assert(crate::chars::repeated('_', 2) =~= seq!['_', '_']);
}

} // verus!
