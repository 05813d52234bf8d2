//! Formatting the ESM and JSX blocks of an MDX file with an embedded
//! formatter, and splicing the results back into the file text.
use vstd::prelude::*;

use crate::blocks::{
    embedded_block, embedded_view, mdx_embedded_block, nodes_ordered, nodes_within,
    ranges_overlap, span_of, BlockNode, MdxEmbeddedBlock, MdxEmbeddedBlockKind,
};
use crate::lines::spans;
use crate::mdx::{esm_keyword_start, is_mdx_jsx_block, jsx_block, starts_with_mdx_esm_keyword};
use crate::preserve::{mdx_line_boundary_preserve_ranges, preserve_ranges};
use crate::text::{chars_eq, trim_end, trim_end_exec};

verus! {

/// Range `r` shares a position with one of `ranges`.
pub open spec fn overlaps_any(ranges: Seq<(int, int)>, r: (int, int)) -> bool {
    exists|k: int| 0 <= k < ranges.len() && #[trigger] overlap_at(ranges, r, k)
}

/// Range `k` of `ranges` shares a position with `r`.
pub open spec fn overlap_at(ranges: Seq<(int, int)>, r: (int, int), k: int) -> bool {
    ranges[k].0 < r.1 && r.0 < ranges[k].1
}

/// From node `i` on, the embedded blocks that overlap none of the verbatim ranges.
pub open spec fn candidates_from(
    nodes: Seq<BlockNode>,
    s: Seq<char>,
    ranges: Seq<(int, int)>,
    i: int,
) -> Seq<(MdxEmbeddedBlockKind, (int, int))>
    decreases nodes.len() - i,
{
    if i < 0 || i >= nodes.len() {
        Seq::empty()
    } else {
        let rest = candidates_from(nodes, s, ranges, i + 1);
        match embedded_block(nodes[i], s) {
            Some(b) => {
                if overlaps_any(ranges, b.1) {
                    rest
                } else {
                    seq![b] + rest
                }
            },
            None => rest,
        }
    }
}

/// The embedded blocks of an MDX file that the embedded formatter is asked to format.
pub open spec fn format_candidates(nodes: Seq<BlockNode>, s: Seq<char>) -> Seq<(MdxEmbeddedBlockKind, (int, int))> {
    candidates_from(nodes, s, preserve_ranges(s), 0)
}

/// Blocks lie in a text of length `len` and follow each other without overlap.
pub open spec fn blocks_ordered(blocks: Seq<(MdxEmbeddedBlockKind, (int, int))>, len: int) -> bool {
    &&& forall|k: int| 0 <= k < blocks.len() ==> 0 <= (#[trigger] blocks[k]).1.0 <= blocks[k].1.1 <= len
    &&& forall|i: int, j: int| 0 <= i < j < blocks.len() ==> (#[trigger] blocks[i]).1.1 <= (#[trigger] blocks[j]).1.0
}

/// The candidates from node `i` on are ordered and start after every earlier node.
pub proof fn lemma_candidates_ordered(nodes: Seq<BlockNode>, s: Seq<char>, ranges: Seq<(int, int)>, i: int)
    requires
        0 <= i,
        nodes_ordered(nodes, s.len() as int),
    ensures
        blocks_ordered(candidates_from(nodes, s, ranges, i), s.len() as int),
        forall|k: int, m: int|
            0 <= k < candidates_from(nodes, s, ranges, i).len() && 0 <= m < i && m < nodes.len() ==> (#[trigger] nodes[m]).range.end
                <= (#[trigger] candidates_from(nodes, s, ranges, i)[k]).1.0,
    decreases nodes.len() - i,
{
    if i < nodes.len() {
        lemma_candidates_ordered(nodes, s, ranges, i + 1);
        let r = candidates_from(nodes, s, ranges, i);
        let rest = candidates_from(nodes, s, ranges, i + 1);
        if embedded_block(nodes[i], s) is Some {
            assert(nodes[i].kind != crate::blocks::BlockKind::Other);
        }
        assert forall|k: int, m: int| 0 <= k < r.len() && 0 <= m < i && m < nodes.len() implies (#[trigger] nodes[m]).range.end
            <= (#[trigger] r[k]).1.0 by {
            if r.len() == rest.len() {
                assert(r[k] == rest[k]);
            } else if k > 0 {
                assert(r[k] == rest[k - 1]);
            } else {
                assert(nodes[m].range.end <= nodes[i].range.start);
            }
        }
    }
}

/// No candidate from node `i` on shares a position with any range of
/// `ranges`: for every range `[a, b)` and candidate `[c, d)`, not both
/// `a < d` and `c < b`.
pub proof fn lemma_candidates_share_no_position(nodes: Seq<BlockNode>, s: Seq<char>, ranges: Seq<(int, int)>, i: int)
    requires
        0 <= i,
    ensures
        forall|k: int, j: int|
            0 <= k < candidates_from(nodes, s, ranges, i).len() && 0 <= j < ranges.len() ==> !(#[trigger] ranges[j].0
                < (#[trigger] candidates_from(nodes, s, ranges, i)[k]).1.1 && candidates_from(nodes, s, ranges, i)[k].1.0
                < ranges[j].1),
    decreases nodes.len() - i,
{
    if i < nodes.len() {
        lemma_candidates_share_no_position(nodes, s, ranges, i + 1);
        let r = candidates_from(nodes, s, ranges, i);
        let rest = candidates_from(nodes, s, ranges, i + 1);
        assert forall|k: int, j: int| 0 <= k < r.len() && 0 <= j < ranges.len() implies !(#[trigger] ranges[j].0
            < (#[trigger] r[k]).1.1 && r[k].1.0 < ranges[j].1) by {
            if r.len() == rest.len() {
                assert(r[k] == rest[k]);
            } else if k > 0 {
                assert(r[k] == rest[k - 1]);
            } else {
                let b = embedded_block(nodes[i], s)->0;
                assert(r[0] == b);
                assert(!overlaps_any(ranges, b.1));
                if ranges[j].0 < b.1.1 && b.1.0 < ranges[j].1 {
                    assert(overlap_at(ranges, b.1, j));
                }
            }
        }
    }
}

/// Every embedded block of a node at or after `i` that shares no position
/// with any range of `ranges` is a candidate.
pub proof fn lemma_free_blocks_are_candidates(
    nodes: Seq<BlockNode>,
    s: Seq<char>,
    ranges: Seq<(int, int)>,
    i: int,
    m: int,
)
    requires
        0 <= i <= m < nodes.len(),
        embedded_block(nodes[m], s) is Some,
        forall|j: int|
            0 <= j < ranges.len() ==> !(#[trigger] ranges[j].0 < (embedded_block(nodes[m], s)->0).1.1 && (embedded_block(
                nodes[m],
                s,
            )->0).1.0 < ranges[j].1),
    ensures
        candidates_from(nodes, s, ranges, i).contains(embedded_block(nodes[m], s)->0),
    decreases m - i,
{
    let r = candidates_from(nodes, s, ranges, i);
    let rest = candidates_from(nodes, s, ranges, i + 1);
    if i == m {
        let b = embedded_block(nodes[m], s)->0;
        if overlaps_any(ranges, b.1) {
            let j = choose|j: int| 0 <= j < ranges.len() && #[trigger] overlap_at(ranges, b.1, j);
            assert(ranges[j].0 < b.1.1 && b.1.0 < ranges[j].1);
        }
        assert(r[0] == b);
    } else {
        lemma_free_blocks_are_candidates(nodes, s, ranges, i + 1, m);
        let b = embedded_block(nodes[m], s)->0;
        let k = choose|k: int| 0 <= k < rest.len() && rest[k] == b;
        if r.len() == rest.len() {
            assert(r[k] == b);
        } else {
            assert(r[k + 1] == b);
        }
    }
}

/// Returns, in order, the embedded blocks of the file that overlap no range
/// kept verbatim: the blocks that the embedded formatter is asked to format.
pub fn mdx_format_candidates(nodes: &Vec<BlockNode>, file_text: &[char]) -> (r: Vec<MdxEmbeddedBlock>)
    requires
        nodes_ordered(nodes@, file_text@.len() as int),
    ensures
        r@.map_values(|b: MdxEmbeddedBlock| embedded_view(b)) == format_candidates(nodes@, file_text@),
        blocks_ordered(format_candidates(nodes@, file_text@), file_text@.len() as int),
        forall|k: int, j: int|
            0 <= k < r@.len() && 0 <= j < preserve_ranges(file_text@).len() ==> !(#[trigger] preserve_ranges(
                file_text@,
            )[j].0 < (#[trigger] r@[k]).range.end && r@[k].range.start < preserve_ranges(file_text@)[j].1),
{
    proof {
        lemma_candidates_share_no_position(nodes@, file_text@, preserve_ranges(file_text@), 0);
    }
    let ghost s = file_text@;
    let ghost ns = nodes@;
    let preserve = mdx_line_boundary_preserve_ranges(file_text);
    let ghost ps = spans(preserve@);
    let mut result: Vec<MdxEmbeddedBlock> = Vec::new();
    let n = nodes.len();
    let mut i: usize = 0;
    proof {
        lemma_candidates_ordered(ns, s, ps, 0);
    }
    while i < n
        invariant
            s == file_text@,
            ns == nodes@,
            n == ns.len(),
            ps == spans(preserve@),
            ps == preserve_ranges(s),
            nodes_ordered(ns, s.len() as int),
            i <= n,
            result@.map_values(|b: MdxEmbeddedBlock| embedded_view(b)) + candidates_from(ns, s, ps, i as int)
                == format_candidates(ns, s),
        decreases n - i,
    {
        let ghost old_result = result@;
        match mdx_embedded_block(&nodes[i], file_text) {
            Some(block) => {
                let mut overlaps = false;
                let mut k: usize = 0;
                while k < preserve.len()
                    invariant
                        ps == spans(preserve@),
                        k <= ps.len(),
                        overlaps == exists|j: int| 0 <= j < k && #[trigger] overlap_at(ps, span_of(block.range), j),
                    decreases preserve.len() - k,
                {
                    assert(ps[k as int] == (preserve@[k as int].start as int, preserve@[k as int].end as int));
                    let o = ranges_overlap(&preserve[k], &block.range);
                    assert(o == overlap_at(ps, span_of(block.range), k as int));
                    if o {
                        overlaps = true;
                    }
                    k += 1;
                }
                if !overlaps {
                    result.push(block);
                    proof {
                        assert(result@.map_values(|b: MdxEmbeddedBlock| embedded_view(b)) =~= old_result.map_values(
                            |b: MdxEmbeddedBlock| embedded_view(b),
                        ) + seq![embedded_view(block)]);
                    }
                }
            },
            None => {},
        }
        i += 1;
    }
    assert(result@.map_values(|b: MdxEmbeddedBlock| embedded_view(b)) =~= result@.map_values(
        |b: MdxEmbeddedBlock| embedded_view(b),
    ) + candidates_from(ns, s, ps, i as int));
    proof {
        let v = result@.map_values(|b: MdxEmbeddedBlock| embedded_view(b));
        assert forall|k: int| 0 <= k < result@.len() implies #[trigger] embedded_view(result@[k]) == v[k] by {}
        let c = format_candidates(ns, s);
        let pr = preserve_ranges(s);
        assert(v == c);
        assert forall|k: int, j: int| 0 <= k < result@.len() && 0 <= j < pr.len() implies !(#[trigger] pr[j].0
            < (#[trigger] result@[k]).range.end && result@[k].range.start < pr[j].1) by {
            assert(embedded_view(result@[k]) == c[k]);
            assert(c[k].1.1 == result@[k].range.end);
        }
    }
    result
}

/// The block is present and of `kind`.
pub open spec fn of_kind(b: Option<(MdxEmbeddedBlockKind, (int, int))>, kind: MdxEmbeddedBlockKind) -> bool {
    b matches Some(x) && x.0 == kind
}

/// Every top-level node of `t` holds an embedded block of `kind`, and there is at least one.
pub open spec fn preserves_kind(kind: MdxEmbeddedBlockKind, t: Seq<char>, parsed: Option<Seq<BlockNode>>) -> bool {
    match parsed {
        None => false,
        Some(ns) => ns.len() > 0 && forall|k: int| 0 <= k < ns.len() ==> of_kind(#[trigger] embedded_block(ns[k], t), kind),
    }
}

/// Formatted text that can replace an embedded block of `kind`: it still
/// starts like a block of that kind and parses into blocks of that kind only.
pub open spec fn safe_formatted(kind: MdxEmbeddedBlockKind, t: Seq<char>, parsed: Option<Seq<BlockNode>>) -> bool {
    match kind {
        MdxEmbeddedBlockKind::Esm => esm_keyword_start(t) && preserves_kind(kind, t, parsed),
        MdxEmbeddedBlockKind::Jsx => jsx_block(t) && preserves_kind(kind, t, parsed),
    }
}

/// The optional parse result as an optional sequence of nodes.
pub open spec fn parsed_view(parsed: Option<&Vec<BlockNode>>) -> Option<Seq<BlockNode>> {
    match parsed {
        Some(v) => Some(v@),
        None => None,
    }
}

impl MdxEmbeddedBlock {
    /// Whether `formatted_text` may replace this block. `parsed` holds the
    /// top-level nodes of `formatted_text`, or nothing when it failed to parse.
    pub fn is_safe_formatted_text(&self, formatted_text: &[char], parsed: Option<&Vec<BlockNode>>) -> (r: bool)
        requires
            parsed matches Some(ns) ==> nodes_within(ns@, formatted_text@.len() as int),
        ensures
            r == safe_formatted(self.kind, formatted_text@, parsed_view(parsed)),
    {
        let starts_like_kind = match self.kind {
            MdxEmbeddedBlockKind::Esm => starts_with_mdx_esm_keyword(formatted_text),
            MdxEmbeddedBlockKind::Jsx => is_mdx_jsx_block(formatted_text),
        };
        if !starts_like_kind {
            return false;
        }
        let nodes = match parsed {
            Some(ns) => ns,
            None => return false,
        };
        let mut has_embedded_block = false;
        let mut k: usize = 0;
        while k < nodes.len()
            invariant
                parsed_view(parsed) == Some(nodes@),
                nodes_within(nodes@, formatted_text@.len() as int),
                k <= nodes@.len(),
                has_embedded_block == (k > 0),
                forall|j: int| 0 <= j < k ==> of_kind(#[trigger] embedded_block(nodes@[j], formatted_text@), self.kind),
            decreases nodes.len() - k,
        {
            match mdx_embedded_block(&nodes[k], formatted_text) {
                None => {
                    assert(!of_kind(embedded_block(nodes@[k as int], formatted_text@), self.kind));
                    return false;
                },
                Some(block) => {
                    if block.kind != self.kind {
                        assert(!of_kind(embedded_block(nodes@[k as int], formatted_text@), self.kind));
                        return false;
                    }
                },
            }
            has_embedded_block = true;
            k += 1;
        }
        has_embedded_block
    }
}

/// What the embedded formatter made of a block: its text, and the
/// top-level nodes of that text once trailing white space is removed
/// (nothing when that text failed to parse).
pub struct FormattedBlock {
    pub text: Vec<char>,
    pub parsed: Option<Vec<BlockNode>>,
}

/// The view of a formatted block.
pub open spec fn formatted_view(f: FormattedBlock) -> (Seq<char>, Option<Seq<BlockNode>>) {
    (f.text@, match f.parsed {
        Some(v) => Some(v@),
        None => None,
    })
}

/// The replacement text for block `c` of `s`, given what the formatter
/// returned for it: the returned text without trailing white space, when
/// it is safe and differs from the block's text.
pub open spec fn accepted_text(
    s: Seq<char>,
    c: (MdxEmbeddedBlockKind, (int, int)),
    o: Option<(Seq<char>, Option<Seq<BlockNode>>)>,
) -> Option<Seq<char>> {
    match o {
        None => None,
        Some(f) => {
            let t = trim_end(f.0);
            if safe_formatted(c.0, t, f.1) && t != s.subrange(c.1.0, c.1.1) {
                Some(t)
            } else {
                None
            }
        },
    }
}

/// The formatter's results as views.
pub open spec fn outcomes_view(outcomes: Seq<Option<FormattedBlock>>) -> Seq<Option<(Seq<char>, Option<Seq<BlockNode>>)>> {
    outcomes.map_values(|o: Option<FormattedBlock>| match o {
        Some(f) => Some(formatted_view(f)),
        None => None,
    })
}

/// The text of `s` from `last` on, with the accepted replacements of the
/// blocks from `i` on spliced in.
pub open spec fn splice_from(
    s: Seq<char>,
    blocks: Seq<(MdxEmbeddedBlockKind, (int, int))>,
    outs: Seq<Option<(Seq<char>, Option<Seq<BlockNode>>)>>,
    i: int,
    last: int,
) -> Seq<char>
    decreases blocks.len() - i,
{
    if i < 0 || i >= blocks.len() {
        s.subrange(last, s.len() as int)
    } else {
        match accepted_text(s, blocks[i], outs[i]) {
            Some(t) => s.subrange(last, blocks[i].1.0) + t + splice_from(s, blocks, outs, i + 1, blocks[i].1.1),
            None => splice_from(s, blocks, outs, i + 1, last),
        }
    }
}

/// Some block has an accepted replacement.
pub open spec fn any_accepted(
    s: Seq<char>,
    blocks: Seq<(MdxEmbeddedBlockKind, (int, int))>,
    outs: Seq<Option<(Seq<char>, Option<Seq<BlockNode>>)>>,
) -> bool {
    exists|i: int| 0 <= i < blocks.len() && (#[trigger] accepted_text(s, blocks[i], outs[i])) is Some
}

/// Every parse result lies inside the trimmed text that it was parsed from.
pub open spec fn outcomes_within(outs: Seq<Option<(Seq<char>, Option<Seq<BlockNode>>)>>) -> bool {
    forall|i: int| 0 <= i < outs.len() ==> (#[trigger] outs[i] matches Some(f) && f.1 matches Some(ns) ==> nodes_within(ns, trim_end(f.0).len() as int))
}

/// Splices the formatted embedded blocks into `file_text`. `candidates` are
/// the blocks that were given to the formatter and `outcomes` what it
/// returned for each; a result replaces its block when, without trailing
/// white space, it is safe and differs from the block. Returns nothing when
/// no block is replaced.
pub fn format_mdx_embedded_blocks(
    file_text: &[char],
    candidates: &Vec<MdxEmbeddedBlock>,
    outcomes: &Vec<Option<FormattedBlock>>,
) -> (r: Option<Vec<char>>)
    requires
        candidates@.len() == outcomes@.len(),
        blocks_ordered(candidates@.map_values(|b: MdxEmbeddedBlock| embedded_view(b)), file_text@.len() as int),
        outcomes_within(outcomes_view(outcomes@)),
    ensures
        ({
            let blocks = candidates@.map_values(|b: MdxEmbeddedBlock| embedded_view(b));
            let outs = outcomes_view(outcomes@);
            match r {
                None => !any_accepted(file_text@, blocks, outs),
                Some(t) => any_accepted(file_text@, blocks, outs) && t@ == splice_from(file_text@, blocks, outs, 0, 0),
            }
        }),
{
    let ghost s = file_text@;
    let ghost blocks = candidates@.map_values(|b: MdxEmbeddedBlock| embedded_view(b));
    let ghost outs = outcomes_view(outcomes@);
    let n = candidates.len();
    let len = file_text.len();
    let mut result: Vec<char> = Vec::new();
    let mut replaced = false;
    let mut last: usize = 0;
    let mut i: usize = 0;
    while i < n
        invariant
            s == file_text@,
            len == s.len(),
            blocks == candidates@.map_values(|b: MdxEmbeddedBlock| embedded_view(b)),
            outs == outcomes_view(outcomes@),
            n == blocks.len(),
            n == outs.len(),
            blocks_ordered(blocks, s.len() as int),
            outcomes_within(outs),
            i <= n,
            last <= len,
            forall|j: int| i <= j < n ==> last <= (#[trigger] blocks[j]).1.0,
            replaced == exists|j: int| 0 <= j < i && (#[trigger] accepted_text(s, blocks[j], outs[j])) is Some,
            result@ + splice_from(s, blocks, outs, i as int, last as int) == splice_from(s, blocks, outs, 0, 0),
        decreases n - i,
    {
        let block = &candidates[i];
        assert(blocks[i as int] == embedded_view(*block));
        assert(outs[i as int] == match outcomes@[i as int] {
            Some(f) => Some(formatted_view(f)),
            None => None,
        });
        if let Some(formatted) = &outcomes[i] {
            let text = trim_end_exec(formatted.text.as_slice());
            let parsed = match &formatted.parsed {
                Some(v) => Some(v),
                None => None,
            };
            let block_text = &file_text[block.range.start..block.range.end];
            if block.is_safe_formatted_text(text, parsed) && !chars_eq(text, block_text) {
                let ghost old_result = result@;
                let mut k = last;
                while k < block.range.start
                    invariant
                        last <= k <= block.range.start <= len,
                        len == file_text@.len(),
                        result@ == old_result + file_text@.subrange(last as int, k as int),
                    decreases block.range.start - k,
                {
                    result.push(file_text[k]);
                    k += 1;
                    assert(result@ =~= old_result + file_text@.subrange(last as int, k as int));
                }
                let ghost mid = result@;
                let mut m: usize = 0;
                while m < text.len()
                    invariant
                        m <= text@.len(),
                        result@ == mid + text@.take(m as int),
                    decreases text.len() - m,
                {
                    result.push(text[m]);
                    m += 1;
                    assert(result@ =~= mid + text@.take(m as int));
                }
                assert(text@.take(m as int) =~= text@);
                assert(result@ =~= old_result + s.subrange(last as int, blocks[i as int].1.0) + text@);
                replaced = true;
                last = block.range.end;
                i += 1;
                continue;
            }
        }
        i += 1;
    }
    if !replaced {
        return None;
    }
    let ghost before_tail = result@;
    let mut k = last;
    while k < len
        invariant
            last <= k <= len,
            len == file_text@.len(),
            result@ == before_tail + file_text@.subrange(last as int, k as int),
        decreases len - k,
    {
        result.push(file_text[k]);
        k += 1;
        assert(result@ =~= before_tail + file_text@.subrange(last as int, k as int));
    }
    Some(result)
}

} // verus!
