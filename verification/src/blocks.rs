//! Top-level blocks of an MDX file: which of them hold ESM or JSX, which
//! are kept verbatim, and how runs of them are merged into raw blocks.
use vstd::prelude::*;

use std::ops::Range;

use crate::lines::spans;
use crate::mdx::{
    esm_keyword_start, import_like_non_esm, is_mdx_esm_block, is_mdx_import_like_non_esm_block,
    is_mdx_jsx_block, is_mdx_jsx_paragraph, is_standalone_mdx_expression_block, jsx_block,
    jsx_paragraph, standalone_expression,
};
use crate::preserve::{mdx_line_boundary_preserve_ranges, preserve_ranges};
use crate::text::{all_ws, first_from, lemma_first_from, lemma_first_from_props};
use crate::chars::is_whitespace;

verus! {

/// The kinds of top-level Markdown block that the MDX logic tells apart.
#[derive(Clone, Copy, PartialEq, Eq, Structural, Debug)]
pub enum BlockKind {
    Paragraph,
    Html,
    Other,
}

/// A top-level block of a parsed file: its kind and the range of the
/// file text that it spans (character positions).
#[derive(Debug)]
pub struct BlockNode {
    pub kind: BlockKind,
    pub range: Range<usize>,
}

/// The two kinds of embedded MDX block.
#[derive(Clone, Copy, PartialEq, Eq, Structural, Debug)]
pub enum MdxEmbeddedBlockKind {
    Esm,
    Jsx,
}

/// A block of ESM or JSX and the range of the file text that it spans.
#[derive(Debug)]
pub struct MdxEmbeddedBlock {
    pub kind: MdxEmbeddedBlockKind,
    pub range: Range<usize>,
}

/// The ends of a node's range.
pub open spec fn node_span(n: BlockNode) -> (int, int) {
    span_of(n.range)
}

/// The ends of a range.
pub open spec fn span_of(r: Range<usize>) -> (int, int) {
    (r.start as int, r.end as int)
}

/// The text of the node.
pub open spec fn node_text(n: BlockNode, s: Seq<char>) -> Seq<char> {
    s.subrange(n.range.start as int, n.range.end as int)
}

/// Every paragraph and HTML node lies in a text of length `len`.
pub open spec fn nodes_within(nodes: Seq<BlockNode>, len: int) -> bool {
    forall|k: int|
        0 <= k < nodes.len() && (#[trigger] nodes[k]).kind != BlockKind::Other ==> nodes[k].range.start
            <= nodes[k].range.end <= len
}

/// Every paragraph and HTML node lies in a text of length `len`, and the
/// nodes follow each other without overlap.
pub open spec fn nodes_ordered(nodes: Seq<BlockNode>, len: int) -> bool {
    &&& nodes_within(nodes, len)
    &&& forall|i: int, j: int| 0 <= i < j < nodes.len() ==> (#[trigger] nodes[i]).range.end <= (#[trigger] nodes[j]).range.start
}

/// The range of a paragraph that starts with an ESM `import` or `export`.
pub open spec fn esm_range(n: BlockNode, s: Seq<char>) -> Option<(int, int)> {
    if n.kind == BlockKind::Paragraph && esm_keyword_start(node_text(n, s)) {
        Some(node_span(n))
    } else {
        None
    }
}

/// The range of an HTML block that is JSX, or of a paragraph that is JSX.
pub open spec fn jsx_range(n: BlockNode, s: Seq<char>) -> Option<(int, int)> {
    if n.kind == BlockKind::Html && jsx_block(node_text(n, s)) {
        Some(node_span(n))
    } else if n.kind == BlockKind::Paragraph && jsx_paragraph(node_text(n, s)) {
        Some(node_span(n))
    } else {
        None
    }
}

/// The embedded block that a node holds: ESM first, then JSX.
pub open spec fn embedded_block(n: BlockNode, s: Seq<char>) -> Option<(MdxEmbeddedBlockKind, (int, int))> {
    match esm_range(n, s) {
        Some(r) => Some((MdxEmbeddedBlockKind::Esm, r)),
        None => match jsx_range(n, s) {
            Some(r) => Some((MdxEmbeddedBlockKind::Jsx, r)),
            None => None,
        },
    }
}

/// The range of a paragraph that MDX keeps verbatim without formatting it:
/// a standalone expression, or prose that starts with the word `import`.
pub open spec fn preserve_only_range(n: BlockNode, s: Seq<char>) -> Option<(int, int)> {
    if n.kind == BlockKind::Paragraph && (standalone_expression(node_text(n, s)) || import_like_non_esm(
        node_text(n, s),
    )) {
        Some(node_span(n))
    } else {
        None
    }
}

/// The view of an embedded block.
pub open spec fn embedded_view(b: MdxEmbeddedBlock) -> (MdxEmbeddedBlockKind, (int, int)) {
    (b.kind, span_of(b.range))
}

/// Returns the range of `node` when it is a paragraph of ESM.
pub fn mdx_esm_node_range(node: &BlockNode, file_text: &[char]) -> (r: Option<Range<usize>>)
    requires
        node.kind == BlockKind::Paragraph ==> node.range.start <= node.range.end <= file_text@.len(),
    ensures
        r matches Some(x) ==> esm_range(*node, file_text@) == Some(span_of(x)),
        r is None ==> esm_range(*node, file_text@) is None,
{
    match node.kind {
        BlockKind::Paragraph => {
            if is_mdx_esm_block(&file_text[node.range.start..node.range.end]) {
                Some(node.range.start..node.range.end)
            } else {
                None
            }
        },
        _ => None,
    }
}

/// Returns the range of `node` when it is an HTML block or paragraph of JSX.
pub fn mdx_jsx_node_range(node: &BlockNode, file_text: &[char]) -> (r: Option<Range<usize>>)
    requires
        node.kind != BlockKind::Other ==> node.range.start <= node.range.end <= file_text@.len(),
    ensures
        r matches Some(x) ==> jsx_range(*node, file_text@) == Some(span_of(x)),
        r is None ==> jsx_range(*node, file_text@) is None,
{
    match node.kind {
        BlockKind::Html => {
            if is_mdx_jsx_block(&file_text[node.range.start..node.range.end]) {
                Some(node.range.start..node.range.end)
            } else {
                None
            }
        },
        BlockKind::Paragraph => {
            if is_mdx_jsx_paragraph(&file_text[node.range.start..node.range.end]) {
                Some(node.range.start..node.range.end)
            } else {
                None
            }
        },
        BlockKind::Other => None,
    }
}

/// Returns the range of `node` when it is a paragraph kept verbatim.
pub fn mdx_preserve_only_node_range(node: &BlockNode, file_text: &[char]) -> (r: Option<Range<usize>>)
    requires
        node.kind == BlockKind::Paragraph ==> node.range.start <= node.range.end <= file_text@.len(),
    ensures
        r matches Some(x) ==> preserve_only_range(*node, file_text@) == Some(span_of(x)),
        r is None ==> preserve_only_range(*node, file_text@) is None,
{
    match node.kind {
        BlockKind::Paragraph => {
            let text = &file_text[node.range.start..node.range.end];
            if is_standalone_mdx_expression_block(text) || is_mdx_import_like_non_esm_block(text) {
                Some(node.range.start..node.range.end)
            } else {
                None
            }
        },
        _ => None,
    }
}

/// Returns the embedded block that `node` holds.
pub fn mdx_embedded_block(node: &BlockNode, file_text: &[char]) -> (r: Option<MdxEmbeddedBlock>)
    requires
        node.kind != BlockKind::Other ==> node.range.start <= node.range.end <= file_text@.len(),
    ensures
        r matches Some(b) ==> embedded_block(*node, file_text@) == Some(embedded_view(b)),
        r is None ==> embedded_block(*node, file_text@) is None,
{
    if let Some(range) = mdx_esm_node_range(node, file_text) {
        return Some(MdxEmbeddedBlock { kind: MdxEmbeddedBlockKind::Esm, range });
    }
    if let Some(range) = mdx_jsx_node_range(node, file_text) {
        return Some(MdxEmbeddedBlock { kind: MdxEmbeddedBlockKind::Jsx, range });
    }
    None
}

/// Whether two ranges share a position.
pub fn ranges_overlap(left: &Range<usize>, right: &Range<usize>) -> (r: bool)
    ensures
        r == (left.start < right.end && right.start < left.end),
{
    left.start < right.end && right.start < left.end
}

/// Whether `node` starts inside `range`.
pub fn range_contains_node_start(range: &Range<usize>, node: &BlockNode) -> (r: bool)
    ensures
        r == (range.start <= node.range.start && node.range.start < range.end),
{
    let node_start = node.range.start;
    range.start <= node_start && node_start < range.end
}

/// Every character of `s` in `[a, b)` is white space.
pub open spec fn blank_between(s: Seq<char>, a: int, b: int) -> bool {
    all_ws(s.subrange(a, b))
}

/// Whether the text between positions `a` and `b` is blank.
pub fn is_blank_between(file_text: &[char], a: usize, b: usize) -> (r: bool)
    requires
        a <= b <= file_text@.len(),
    ensures
        r == blank_between(file_text@, a as int, b as int),
{
    let mut k = a;
    while k < b
        invariant
            a <= k <= b <= file_text@.len(),
            forall|m: int| a <= m < k ==> crate::chars::is_ws(file_text@[m]),
        decreases b - k,
    {
        if !is_whitespace(file_text[k]) {
            assert(!crate::chars::is_ws(file_text@.subrange(a as int, b as int)[k - a]));
            return false;
        }
        k += 1;
    }
    assert forall|m: int| 0 <= m < b - a implies crate::chars::is_ws(
        #[trigger] file_text@.subrange(a as int, b as int)[m],
    ) by {
        assert(file_text@.subrange(a as int, b as int)[m] == file_text@[a + m]);
    }
    true
}

/// A child of the rewritten file: a node of the input, by index, or a raw
/// block that keeps a range of the file text verbatim.
#[derive(PartialEq, Eq, Debug)]
pub enum PreservedChild {
    Node(usize),
    Raw(Range<usize>),
}

/// The view of a rewritten child.
pub enum ChildView {
    Node(int),
    Raw(int, int),
}

/// The view of a rewritten child.
pub open spec fn child_view(c: PreservedChild) -> ChildView {
    match c {
        PreservedChild::Node(i) => ChildView::Node(i as int),
        PreservedChild::Raw(r) => ChildView::Raw(r.start as int, r.end as int),
    }
}

/// The views of rewritten children.
pub open spec fn children_view(v: Seq<PreservedChild>) -> Seq<ChildView> {
    v.map_values(|c: PreservedChild| child_view(c))
}

/// Node `k` starts at or after position `e`.
pub open spec fn starts_at_or_after(nodes: Seq<BlockNode>, e: int) -> spec_fn(int) -> bool {
    |k: int| nodes[k].range.start >= e
}

/// The first node, from `idx` on, that starts at or after `e`.
pub open spec fn skip_covered(nodes: Seq<BlockNode>, idx: int, e: int) -> int {
    first_from(idx, nodes.len() as int, starts_at_or_after(nodes, e))
}

/// Range `k` ends after position `start`.
pub open spec fn ends_after(ranges: Seq<(int, int)>, start: int) -> spec_fn(int) -> bool {
    |k: int| ranges[k].1 > start
}

/// The first range, from `pi` on, that ends after `start`.
pub open spec fn advance_ranges(ranges: Seq<(int, int)>, pi: int, start: int) -> int {
    first_from(pi, ranges.len() as int, ends_after(ranges, start))
}

/// Extends a raw block that ends at `end` with the following verbatim
/// paragraphs that only white space separates from it; returns the index of
/// the first node not taken and the new end.
pub open spec fn merge_preserve_only(nodes: Seq<BlockNode>, s: Seq<char>, idx: int, end: int) -> (int, int)
    decreases nodes.len() - idx,
{
    if 0 <= idx < nodes.len() {
        match preserve_only_range(nodes[idx], s) {
            Some(r) => {
                if blank_between(s, end, r.0) {
                    merge_preserve_only(nodes, s, idx + 1, r.1)
                } else {
                    (idx, end)
                }
            },
            None => (idx, end),
        }
    } else {
        (idx, end)
    }
}

/// Extends a raw block of `kind` that ends at `end` with the following
/// embedded blocks of the same kind that only white space separates from
/// it; returns the index of the first node not taken and the new end.
pub open spec fn merge_embedded(
    nodes: Seq<BlockNode>,
    s: Seq<char>,
    idx: int,
    kind: MdxEmbeddedBlockKind,
    end: int,
) -> (int, int)
    decreases nodes.len() - idx,
{
    if 0 <= idx < nodes.len() {
        match embedded_block(nodes[idx], s) {
            Some((k, r)) => {
                if k == kind && blank_between(s, end, r.0) {
                    merge_embedded(nodes, s, idx + 1, kind, r.1)
                } else {
                    (idx, end)
                }
            },
            None => (idx, end),
        }
    } else {
        (idx, end)
    }
}

/// A merge stops at or after where it starts, and not past the last node.
pub proof fn lemma_merge_preserve_only(nodes: Seq<BlockNode>, s: Seq<char>, idx: int, end: int)
    requires
        0 <= idx <= nodes.len(),
    ensures
        idx <= merge_preserve_only(nodes, s, idx, end).0 <= nodes.len(),
    decreases nodes.len() - idx,
{
    if idx < nodes.len() {
        if let Some(r) = preserve_only_range(nodes[idx], s) {
            lemma_merge_preserve_only(nodes, s, idx + 1, r.1);
        }
    }
}

/// A merge stops at or after where it starts, and not past the last node.
pub proof fn lemma_merge_embedded(
    nodes: Seq<BlockNode>,
    s: Seq<char>,
    idx: int,
    kind: MdxEmbeddedBlockKind,
    end: int,
)
    requires
        0 <= idx <= nodes.len(),
    ensures
        idx <= merge_embedded(nodes, s, idx, kind, end).0 <= nodes.len(),
    decreases nodes.len() - idx,
{
    if idx < nodes.len() {
        if let Some((k, r)) = embedded_block(nodes[idx], s) {
            lemma_merge_embedded(nodes, s, idx + 1, kind, r.1);
        }
    }
}

/// The children that replace the nodes from `idx` on, with the verbatim
/// ranges `ranges` examined from `pi` on:
/// - a node that starts inside a verbatim range becomes that range as a raw
///   block, and the nodes that start before the range ends are dropped;
/// - an embedded block becomes a raw block, merged with the following
///   embedded blocks of its kind that only white space separates from it;
/// - a verbatim-only paragraph becomes a raw block, merged likewise with the
///   following verbatim-only paragraphs;
/// - any other node is kept.
pub open spec fn preserve_from(
    nodes: Seq<BlockNode>,
    s: Seq<char>,
    ranges: Seq<(int, int)>,
    idx: int,
    pi: int,
) -> Seq<ChildView>
    decreases nodes.len() - idx,
{
    if idx < 0 || idx >= nodes.len() {
        Seq::empty()
    } else {
        let start = nodes[idx].range.start as int;
        let pj = advance_ranges(ranges, pi, start);
        if 0 <= pj < ranges.len() && ranges[pj].0 <= start < ranges[pj].1 {
            proof {
                lemma_first_from_props(idx + 1, nodes.len() as int, starts_at_or_after(nodes, ranges[pj].1));
            }
            let next = skip_covered(nodes, idx + 1, ranges[pj].1);
            seq![ChildView::Raw(ranges[pj].0, ranges[pj].1)] + preserve_from(nodes, s, ranges, next, pj)
        } else {
            match embedded_block(nodes[idx], s) {
                Some((kind, r)) => {
                    proof {
                        lemma_merge_embedded(nodes, s, idx + 1, kind, r.1);
                    }
                    let m = merge_embedded(nodes, s, idx + 1, kind, r.1);
                    seq![ChildView::Raw(r.0, m.1)] + preserve_from(nodes, s, ranges, m.0, pj)
                },
                None => match preserve_only_range(nodes[idx], s) {
                    Some(r) => {
                        proof {
                            lemma_merge_preserve_only(nodes, s, idx + 1, r.1);
                        }
                        let m = merge_preserve_only(nodes, s, idx + 1, r.1);
                        seq![ChildView::Raw(r.0, m.1)] + preserve_from(nodes, s, ranges, m.0, pj)
                    },
                    None => seq![ChildView::Node(idx)] + preserve_from(nodes, s, ranges, idx + 1, pj),
                },
            }
        }
    }
}

/// The children of an MDX file whose top-level nodes are `nodes`.
pub open spec fn preserved_children(nodes: Seq<BlockNode>, s: Seq<char>) -> Seq<ChildView> {
    preserve_from(nodes, s, preserve_ranges(s), 0, 0)
}

/// Rewrites the top-level nodes of an MDX file: JSX elements with Markdown
/// children, ESM, JSX and other MDX-only blocks become raw blocks that are
/// kept verbatim; the other nodes are kept as they are.
pub fn preserve_mdx_embedded_blocks(nodes: &Vec<BlockNode>, file_text: &[char]) -> (r: Vec<PreservedChild>)
    requires
        nodes_ordered(nodes@, file_text@.len() as int),
    ensures
        children_view(r@) == preserved_children(nodes@, file_text@),
{
    let ghost s = file_text@;
    let ghost ns = nodes@;
    let preserve = mdx_line_boundary_preserve_ranges(file_text);
    let ghost ps = spans(preserve@);
    let mut children: Vec<PreservedChild> = Vec::new();
    let mut pi: usize = 0;
    let mut idx: usize = 0;
    let n = nodes.len();
    while idx < n
        invariant
            s == file_text@,
            ns == nodes@,
            n == ns.len(),
            ps == spans(preserve@),
            ps == preserve_ranges(s),
            nodes_ordered(ns, s.len() as int),
            idx <= n,
            pi <= ps.len(),
            children_view(children@) + preserve_from(ns, s, ps, idx as int, pi as int) == preserved_children(ns, s),
        decreases n - idx,
    {
        let ghost old_children = children@;
        let ghost old_idx = idx as int;
        let ghost old_pi = pi as int;
        let node = &nodes[idx];
        let node_start = node.range.start;
        while pi < preserve.len() && preserve[pi].end <= node_start
            invariant
                ps == spans(preserve@),
                old_pi <= pi <= ps.len(),
                forall|k: int| old_pi <= k < pi ==> !#[trigger] ends_after(ps, node_start as int)(k),
            decreases preserve.len() - pi,
        {
            assert(ps[pi as int] == (preserve@[pi as int].start as int, preserve@[pi as int].end as int));
            pi += 1;
        }
        proof {
            if pi < ps.len() {
                assert(ps[pi as int] == (preserve@[pi as int].start as int, preserve@[pi as int].end as int));
            }
            lemma_first_from(old_pi, pi as int, ps.len() as int, ends_after(ps, node_start as int));
        }
        idx += 1;
        if pi < preserve.len() && range_contains_node_start(&preserve[pi], node) {
            let pend = preserve[pi].end;
            let ghost skip_start = idx as int;
            while idx < n && nodes[idx].range.start < pend
                invariant
                    ns == nodes@,
                    n == ns.len(),
                    skip_start <= idx <= n,
                    forall|k: int| skip_start <= k < idx ==> !#[trigger] starts_at_or_after(ns, pend as int)(k),
                decreases n - idx,
            {
                idx += 1;
            }
            proof {
                lemma_first_from(skip_start, idx as int, n as int, starts_at_or_after(ns, pend as int));
            }
            children.push(PreservedChild::Raw(preserve[pi].start..pend));
            proof {
                assert(children_view(children@) =~= children_view(old_children) + seq![ChildView::Raw(ps[pi as int].0, ps[pi as int].1)]);
            }
            continue;
        }
        match mdx_embedded_block(node, file_text) {
            Some(block) => {
                let raw_start = block.range.start;
                let mut raw_end = block.range.end;
                let ghost m0 = merge_embedded(ns, s, idx as int, block.kind, raw_end as int);
                while idx < n
                    invariant
                        s == file_text@,
                        ns == nodes@,
                        n == ns.len(),
                        nodes_ordered(ns, s.len() as int),
                        1 <= idx <= n,
                        old_idx < idx,
                        raw_end == ns[idx - 1].range.end,
                        merge_embedded(ns, s, idx as int, block.kind, raw_end as int) == m0,
                    ensures
                        old_idx < idx <= n,
                        m0 == (idx as int, raw_end as int),
                    decreases n - idx,
                {
                    let next_block = match mdx_embedded_block(&nodes[idx], file_text) {
                        Some(b) => b,
                        None => break,
                    };
                    assert(ns[idx - 1].range.end <= ns[idx as int].range.start);
                    if next_block.kind != block.kind || !is_blank_between(file_text, raw_end, next_block.range.start) {
                        break;
                    }
                    raw_end = next_block.range.end;
                    idx += 1;
                }
                children.push(PreservedChild::Raw(raw_start..raw_end));
                proof {
                    assert(children_view(children@) =~= children_view(old_children) + seq![ChildView::Raw(raw_start as int, raw_end as int)]);
                }
            },
            None => {
                match mdx_preserve_only_node_range(node, file_text) {
                    Some(raw_range) => {
                        let raw_start = raw_range.start;
                        let mut raw_end = raw_range.end;
                        let ghost m0 = merge_preserve_only(ns, s, idx as int, raw_end as int);
                        while idx < n
                            invariant
                                s == file_text@,
                                ns == nodes@,
                                n == ns.len(),
                                nodes_ordered(ns, s.len() as int),
                                1 <= idx <= n,
                                old_idx < idx,
                                raw_end == ns[idx - 1].range.end,
                                merge_preserve_only(ns, s, idx as int, raw_end as int) == m0,
                            ensures
                                old_idx < idx <= n,
                                m0 == (idx as int, raw_end as int),
                            decreases n - idx,
                        {
                            let next_range = match mdx_preserve_only_node_range(&nodes[idx], file_text) {
                                Some(r) => r,
                                None => break,
                            };
                            assert(ns[idx - 1].range.end <= ns[idx as int].range.start);
                            if !is_blank_between(file_text, raw_end, next_range.start) {
                                break;
                            }
                            raw_end = next_range.end;
                            idx += 1;
                        }
                        children.push(PreservedChild::Raw(raw_start..raw_end));
                        proof {
                            assert(children_view(children@) =~= children_view(old_children) + seq![ChildView::Raw(raw_start as int, raw_end as int)]);
                        }
                    },
                    None => {
                        children.push(PreservedChild::Node(idx - 1));
                        proof {
                            assert(children_view(children@) =~= children_view(old_children) + seq![ChildView::Node(old_idx)]);
                        }
                    },
                }
            },
        }
    }
    assert(children_view(children@) =~= children_view(children@) + preserve_from(ns, s, ps, idx as int, pi as int));
    children
}

} // verus!
