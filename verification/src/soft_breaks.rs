//! Siblings with and without their soft breaks: the step plan of the one
//! is that of the other, read through the positions of the nodes kept.
use vstd::prelude::*;

use crate::gen_nodes::{
    ends_ignored, last_node_after, next_node, not_soft_break, plan_from, plan_node, NodeInfo, NodeKind, StepView,
};
use crate::generate::{children_items, node_infos, prev_sibling, steps_items, GenContext, MdNode};
use crate::laws::step_node;
use crate::text::{first_from, lemma_first_from, lemma_first_from_props, lemma_last_below};

verus! {

/// `nodes2` is `nodes1` without its soft breaks: `idx` lists in order the
/// positions in `nodes1` of the nodes that are not soft breaks, and
/// `nodes2` holds those nodes.
pub open spec fn strips_soft_breaks(nodes1: Seq<NodeInfo>, nodes2: Seq<NodeInfo>, idx: Seq<int>) -> bool {
    &&& idx.len() == nodes2.len()
    &&& forall|k: int|
        0 <= k < idx.len() ==> 0 <= #[trigger] idx[k] < nodes1.len() && nodes1[idx[k]] == nodes2[k]
            && nodes2[k].kind != NodeKind::SoftBreak
    &&& forall|a: int, b: int| 0 <= a < b < idx.len() ==> #[trigger] idx[a] < #[trigger] idx[b]
    &&& forall|j: int|
        0 <= j < nodes1.len() && nodes1[j].kind != NodeKind::SoftBreak ==> exists|k: int|
            0 <= k < idx.len() && #[trigger] idx[k] == j
}

/// A step read through the positions `idx`.
pub open spec fn map_step(st: StepView, idx: Seq<int>) -> StepView {
    match st {
        StepView::Generate(k) => StepView::Generate(idx[k]),
        StepView::GenerateAlternateList(k) => StepView::GenerateAlternateList(idx[k]),
        StepView::RawNode(k) => StepView::RawNode(idx[k]),
        other => other,
    }
}

/// Steps read through the positions `idx`.
pub open spec fn map_steps(steps: Seq<StepView>, idx: Seq<int>) -> Seq<StepView> {
    steps.map_values(|st: StepView| map_step(st, idx))
}

/// The position in `nodes1` from which the node `k2` of `nodes2` is sought.
pub open spec fn start_of(idx: Seq<int>, k2: int) -> int {
    if k2 <= 0 {
        0
    } else {
        idx[k2 - 1] + 1
    }
}

/// The position in `nodes1` of node `k2` of `nodes2`, or the end.
pub open spec fn pos_of(idx: Seq<int>, n1: int, k2: int) -> int {
    if k2 < idx.len() {
        idx[k2]
    } else {
        n1
    }
}

proof fn lemma_map_concat(a: Seq<StepView>, b: Seq<StepView>, idx: Seq<int>)
    ensures
        map_steps(a + b, idx) == map_steps(a, idx) + map_steps(b, idx),
{
    assert(map_steps(a + b, idx) =~= map_steps(a, idx) + map_steps(b, idx));
}

proof fn lemma_next_node(nodes1: Seq<NodeInfo>, nodes2: Seq<NodeInfo>, idx: Seq<int>, k2: int)
    requires
        strips_soft_breaks(nodes1, nodes2, idx),
        0 <= k2 <= nodes2.len(),
    ensures
        next_node(nodes1, start_of(idx, k2)) == pos_of(idx, nodes1.len() as int, k2),
        next_node(nodes2, k2) == k2,
        start_of(idx, k2) <= pos_of(idx, nodes1.len() as int, k2),
{
    let i1 = start_of(idx, k2);
    let t = pos_of(idx, nodes1.len() as int, k2);
    if k2 > 0 {
        assert(0 <= idx[k2 - 1] < nodes1.len());
        if k2 < idx.len() {
            assert(idx[k2 - 1] < idx[k2]);
        }
    }
    assert forall|j: int| i1 <= j < t implies !#[trigger] not_soft_break(nodes1)(j) by {
        if nodes1[j].kind != NodeKind::SoftBreak {
            let k = choose|k: int| 0 <= k < idx.len() && #[trigger] idx[k] == j;
            if k < k2 {
                if k < k2 - 1 {
                    assert(idx[k] < idx[k2 - 1]);
                }
            } else if k > k2 {
                assert(idx[k2] < idx[k]);
            }
        }
    }
    if k2 < idx.len() {
        assert(nodes1[idx[k2]] == nodes2[k2]);
    }
    lemma_first_from(i1, t, nodes1.len() as int, not_soft_break(nodes1));
    if k2 < nodes2.len() {
        assert(nodes2[k2].kind != NodeKind::SoftBreak);
        assert(not_soft_break(nodes2)(k2));
    }
    lemma_first_from(k2, k2, nodes2.len() as int, not_soft_break(nodes2));
}

proof fn lemma_ends_ignored(nodes1: Seq<NodeInfo>, nodes2: Seq<NodeInfo>, idx: Seq<int>, k2: int)
    requires
        strips_soft_breaks(nodes1, nodes2, idx),
        0 <= k2 < nodes2.len(),
    ensures
        ({
            let e2 = first_from(k2 + 1, nodes2.len() as int, ends_ignored(nodes2));
            &&& k2 + 1 <= e2 <= nodes2.len()
            &&& first_from(idx[k2] + 1, nodes1.len() as int, ends_ignored(nodes1)) == pos_of(idx, nodes1.len() as int, e2)
        }),
{
    let e2 = first_from(k2 + 1, nodes2.len() as int, ends_ignored(nodes2));
    lemma_first_from_props(k2 + 1, nodes2.len() as int, ends_ignored(nodes2));
    let i1 = idx[k2] + 1;
    let t = pos_of(idx, nodes1.len() as int, e2);
    assert(0 <= idx[k2] < nodes1.len());
    if e2 < idx.len() {
        assert(idx[k2] < idx[e2]);
        assert(nodes1[idx[e2]] == nodes2[e2]);
    }
    assert forall|j: int| i1 <= j < t implies !#[trigger] ends_ignored(nodes1)(j) by {
        if ends_ignored(nodes1)(j) {
            assert(nodes1[j].kind != NodeKind::SoftBreak);
            let k = choose|k: int| 0 <= k < idx.len() && #[trigger] idx[k] == j;
            if k <= k2 {
                if k < k2 {
                    assert(idx[k] < idx[k2]);
                }
            } else if k < e2 {
                assert(nodes1[idx[k]] == nodes2[k]);
                assert(!ends_ignored(nodes2)(k));
            } else if k > e2 {
                assert(idx[e2] < idx[k]);
            }
        }
    }
    lemma_first_from(i1, t, nodes1.len() as int, ends_ignored(nodes1));
}

proof fn lemma_last_node(nodes1: Seq<NodeInfo>, nodes2: Seq<NodeInfo>, idx: Seq<int>, k2: int)
    requires
        strips_soft_breaks(nodes1, nodes2, idx),
        0 <= k2 < nodes2.len(),
    ensures
        nodes1[last_node_after(nodes1, idx[k2])] == nodes2[last_node_after(nodes2, k2)],
        0 <= last_node_after(nodes2, k2) < nodes2.len(),
{
    let n2 = nodes2.len() as int;
    let top = idx[n2 - 1];
    assert forall|j: int| top < j < nodes1.len() implies !#[trigger] not_soft_break(nodes1)(j) by {
        if nodes1[j].kind != NodeKind::SoftBreak {
            let k = choose|k: int| 0 <= k < idx.len() && #[trigger] idx[k] == j;
            if k < n2 - 1 {
                assert(idx[k] < idx[n2 - 1]);
            }
        }
    }
    assert(nodes1[top] == nodes2[n2 - 1]);
    lemma_last_below(top, nodes1.len() as int, not_soft_break(nodes1));
    assert(not_soft_break(nodes2)(n2 - 1));
    lemma_last_below(n2 - 1, n2, not_soft_break(nodes2));
    if k2 < n2 - 1 {
        assert(idx[k2] < idx[n2 - 1]);
    }
    assert(nodes1[idx[k2]] == nodes2[k2]);
}

/// The steps for `nodes1` from where node `k2` of `nodes2` is sought are
/// those for `nodes2` from `k2`, read through `idx`.
pub proof fn lemma_plan_from(
    nodes1: Seq<NodeInfo>,
    nodes2: Seq<NodeInfo>,
    idx: Seq<int>,
    k2: int,
    last2: Option<int>,
)
    requires
        strips_soft_breaks(nodes1, nodes2, idx),
        0 <= k2 <= nodes2.len(),
        last2 matches Some(l) ==> 0 <= l < nodes2.len(),
    ensures
        plan_from(nodes1, start_of(idx, k2), match last2 {
            Some(l) => Some(idx[l]),
            None => None,
        }) == map_steps(plan_from(nodes2, k2, last2), idx),
    decreases nodes2.len() - k2, 1int,
{
    let n1 = nodes1.len() as int;
    let n2 = nodes2.len() as int;
    let i1 = start_of(idx, k2);
    let last1 = match last2 {
        Some(l) => Some(idx[l]),
        None => None,
    };
    lemma_next_node(nodes1, nodes2, idx, k2);
    if k2 > 0 {
        assert(0 <= idx[k2 - 1] < n1);
    }
    if k2 >= n2 {
        assert(map_steps(Seq::<StepView>::empty(), idx) =~= Seq::<StepView>::empty());
    } else {
        let k1 = idx[k2];
        assert(nodes1[k1] == nodes2[k2]);
        match last2 {
            Some(l2) => {
                let l1 = idx[l2];
                assert(nodes1[l1] == nodes2[l2]);
                if nodes2[l2].kind == NodeKind::List && nodes2[k2].kind == NodeKind::List && nodes2[l2].ordered_list
                    == nodes2[k2].ordered_list {
                    lemma_next_node(nodes1, nodes2, idx, k2 + 1);
                    let pre2 = seq![
                        StepView::Separators(crate::gen_nodes::conditional_blank_line(nodes2[k2].facts)),
                        StepView::GenerateAlternateList(k2),
                    ];
                    let pre1 = seq![
                        StepView::Separators(crate::gen_nodes::conditional_blank_line(nodes1[k1].facts)),
                        StepView::GenerateAlternateList(k1),
                    ];
                    assert(map_steps(pre2, idx) =~= pre1);
                    if k2 + 1 < n2 {
                        lemma_plan_node(nodes1, nodes2, idx, k2 + 1, Some(k2));
                        lemma_map_concat(pre2, plan_node(nodes2, k2 + 1, Some(k2)), idx);
                    }
                } else {
                    lemma_plan_node(nodes1, nodes2, idx, k2, last2);
                }
            },
            None => lemma_plan_node(nodes1, nodes2, idx, k2, last2),
        }
    }
}

/// The steps for node `idx[k2]` of `nodes1` and those after it are those
/// for node `k2` of `nodes2`, read through `idx`.
pub proof fn lemma_plan_node(
    nodes1: Seq<NodeInfo>,
    nodes2: Seq<NodeInfo>,
    idx: Seq<int>,
    k2: int,
    last2: Option<int>,
)
    requires
        strips_soft_breaks(nodes1, nodes2, idx),
        0 <= k2 < nodes2.len(),
        last2 matches Some(l) ==> 0 <= l < nodes2.len(),
    ensures
        plan_node(nodes1, idx[k2], match last2 {
            Some(l) => Some(idx[l]),
            None => None,
        }) == map_steps(plan_node(nodes2, k2, last2), idx),
    decreases nodes2.len() - k2, 0int,
{
    let n1 = nodes1.len() as int;
    let n2 = nodes2.len() as int;
    let k1 = idx[k2];
    let last1 = match last2 {
        Some(l) => Some(idx[l]),
        None => None,
    };
    assert(0 <= k1 < n1);
    let node = nodes2[k2];
    assert(nodes1[k1] == node);
    let gap2: Seq<StepView> = match last2 {
        Some(l) => seq![StepView::Separators(crate::gen_nodes::gap(nodes2[l].kind, nodes2[l].text@, node.kind, node.facts))],
        None => Seq::empty(),
    };
    match last2 {
        Some(l) => {
            assert(nodes1[idx[l]] == nodes2[l]);
        },
        None => {},
    }
    let head2 = gap2 + seq![StepView::Generate(k2)];
    assert(map_steps(head2, idx) =~= (match last1 {
        Some(l) => if 0 <= l < n1 {
            seq![StepView::Separators(crate::gen_nodes::gap(nodes1[l].kind, nodes1[l].text@, node.kind, node.facts))]
        } else {
            Seq::empty()
        },
        None => Seq::empty(),
    }) + seq![StepView::Generate(k1)]);
    lemma_next_node(nodes1, nodes2, idx, k2 + 1);
    if node.kind == NodeKind::Html && node.is_ignore {
        let j2 = k2 + 1;
        if j2 < n2 {
            let j1 = idx[j2];
            assert(nodes1[j1] == nodes2[j2]);
            let blank2: Seq<StepView> = if nodes2[j2].facts.has_leading_blank_line {
                seq![StepView::NewLine]
            } else {
                Seq::empty()
            };
            let mid2 = seq![StepView::NewLine] + blank2 + seq![StepView::RawNode(j2)];
            assert(map_steps(mid2, idx) =~= seq![StepView::NewLine] + blank2 + seq![StepView::RawNode(j1)]);
            lemma_plan_from(nodes1, nodes2, idx, j2 + 1, Some(j2));
            lemma_map_concat(head2, mid2, idx);
            lemma_map_concat(head2 + mid2, plan_from(nodes2, j2 + 1, Some(j2)), idx);
            assert(head2 + seq![StepView::NewLine] + blank2 + seq![StepView::RawNode(j2)] + plan_from(nodes2, j2 + 1, Some(j2))
                =~= head2 + mid2 + plan_from(nodes2, j2 + 1, Some(j2)));
        } else {
            lemma_map_concat(head2, seq![StepView::NewLine], idx);
            assert(map_steps(seq![StepView::NewLine], idx) =~= seq![StepView::NewLine]);
        }
    } else if node.kind == NodeKind::Html && node.is_ignore_start {
        lemma_ends_ignored(nodes1, nodes2, idx, k2);
        let e2 = first_from(k2 + 1, n2, ends_ignored(nodes2));
        if e2 < n2 {
            let e1 = idx[e2];
            assert(nodes1[e1] == nodes2[e2]);
            let mid2 = seq![StepView::RawText(node.end as int, nodes2[e2].start as int, false), StepView::Generate(e2)];
            assert(map_steps(mid2, idx) =~= seq![StepView::RawText(node.end as int, nodes1[e1].start as int, false), StepView::Generate(e1)]);
            lemma_plan_from(nodes1, nodes2, idx, e2 + 1, Some(e2));
            lemma_map_concat(head2, mid2, idx);
            lemma_map_concat(head2 + mid2, plan_from(nodes2, e2 + 1, Some(e2)), idx);
        } else {
            lemma_last_node(nodes1, nodes2, idx, k2);
            let m2 = last_node_after(nodes2, k2);
            let tail2 = seq![StepView::RawText(node.end as int, nodes2[m2].end as int, true)];
            assert(map_steps(tail2, idx) =~= tail2);
            lemma_map_concat(head2, tail2, idx);
        }
    } else {
        lemma_plan_from(nodes1, nodes2, idx, k2 + 1, Some(k2));
        lemma_map_concat(head2, plan_from(nodes2, k2 + 1, Some(k2)), idx);
    }
}

/// `c2` is `c1` without its soft breaks: `idx` lists in order the
/// positions in `c1` of the nodes that are not soft breaks, and `c2` holds
/// those nodes.
pub open spec fn strips_soft_break_nodes(c1: Seq<MdNode>, c2: Seq<MdNode>, idx: Seq<int>) -> bool {
    &&& idx.len() == c2.len()
    &&& forall|k: int|
        0 <= k < idx.len() ==> 0 <= #[trigger] idx[k] < c1.len() && c1[idx[k]] == c2[k] && c2[k].kind
            != NodeKind::SoftBreak
    &&& forall|a: int, b: int| 0 <= a < b < idx.len() ==> #[trigger] idx[a] < #[trigger] idx[b]
    &&& forall|j: int|
        0 <= j < c1.len() && c1[j].kind != NodeKind::SoftBreak ==> exists|k: int| 0 <= k < idx.len() && #[trigger] idx[k] == j
}

proof fn lemma_prev_sibling(c1: Seq<MdNode>, c2: Seq<MdNode>, idx: Seq<int>, k: int)
    requires
        strips_soft_break_nodes(c1, c2, idx),
        0 <= k < c2.len(),
    ensures
        prev_sibling(c1, idx[k]) == prev_sibling(c2, k),
{
    let f1 = |j: int| c1[j].kind != NodeKind::SoftBreak;
    let f2 = |j: int| c2[j].kind != NodeKind::SoftBreak;
    let p1 = if k > 0 {
        idx[k - 1]
    } else {
        -1
    };
    if k > 0 {
        assert(idx[k - 1] < idx[k]);
        assert(c1[idx[k - 1]] == c2[k - 1]);
    }
    assert forall|j: int| p1 < j < idx[k] implies !#[trigger] f1(j) by {
        if c1[j].kind != NodeKind::SoftBreak {
            let m = choose|m: int| 0 <= m < idx.len() && #[trigger] idx[m] == j;
            if m < k - 1 {
                assert(idx[m] < idx[k - 1]);
            } else if m > k {
                assert(idx[k] < idx[m]);
            }
        }
    }
    lemma_last_below(p1, idx[k], f1);
    lemma_last_below(k - 1, k, f2);
    assert(c1[idx[k]] == c2[k]);
}

/// The step nodes of siblings without their soft breaks are those of the
/// siblings with them, without theirs.
pub proof fn lemma_infos_strip(c1: Seq<MdNode>, c2: Seq<MdNode>, idx: Seq<int>, ctx: GenContext, ft: Seq<char>, dir: Seq<char>)
    requires
        strips_soft_break_nodes(c1, c2, idx),
    ensures
        strips_soft_breaks(node_infos(c1, ctx, ft, dir), node_infos(c2, ctx, ft, dir), idx),
{
    let i1 = node_infos(c1, ctx, ft, dir);
    let i2 = node_infos(c2, ctx, ft, dir);
    assert forall|k: int| 0 <= k < idx.len() implies 0 <= #[trigger] idx[k] < i1.len() && i1[idx[k]] == i2[k]
        && i2[k].kind != NodeKind::SoftBreak by {
        lemma_prev_sibling(c1, c2, idx, k);
        assert(c1[idx[k]] == c2[k]);
    }
    assert forall|j: int| 0 <= j < i1.len() && i1[j].kind != NodeKind::SoftBreak implies exists|k: int|
        0 <= k < idx.len() && #[trigger] idx[k] == j by {
        assert(c1[j].kind != NodeKind::SoftBreak);
    }
}

proof fn lemma_steps_same(
    p1: MdNode,
    p2: MdNode,
    idx: Seq<int>,
    ctx: GenContext,
    ft: Seq<char>,
    dir: Seq<char>,
    steps: Seq<StepView>,
    j: int,
)
    requires
        strips_soft_break_nodes(p1.children@, p2.children@, idx),
        forall|a: int|
            0 <= a < steps.len() && #[trigger] step_node(steps[a]) is Some ==> 0 <= step_node(steps[a])->0
                < p2.children@.len(),
        0 <= j,
    ensures
        steps_items(p1, 0, p1.children@.len() as int, ctx, ft, dir, map_steps(steps, idx), j) == steps_items(
            p2,
            0,
            p2.children@.len() as int,
            ctx,
            ft,
            dir,
            steps,
            j,
        ),
    decreases steps.len() - j,
{
    if j < steps.len() {
        let m = map_steps(steps, idx);
        assert(m[j] == map_step(steps[j], idx));
        match steps[j] {
            StepView::Generate(k) => {
                assert(step_node(steps[j]) is Some);
                assert(p1.children@[idx[k]] == p2.children@[k]);
            },
            StepView::GenerateAlternateList(k) => {
                assert(step_node(steps[j]) is Some);
                assert(p1.children@[idx[k]] == p2.children@[k]);
            },
            StepView::RawNode(k) => {
                assert(step_node(steps[j]) is Some);
                assert(p1.children@[idx[k]] == p2.children@[k]);
            },
            _ => {},
        }
        lemma_steps_same(p1, p2, idx, ctx, ft, dir, steps, j + 1);
    }
}

/// The items of a node's children are those of the same children without
/// their soft breaks.
pub proof fn lemma_children_strip(p1: MdNode, p2: MdNode, idx: Seq<int>, ctx: GenContext, ft: Seq<char>, dir: Seq<char>)
    requires
        strips_soft_break_nodes(p1.children@, p2.children@, idx),
    ensures
        children_items(p1, 0, p1.children@.len() as int, ctx, ft, dir) == children_items(
            p2,
            0,
            p2.children@.len() as int,
            ctx,
            ft,
            dir,
        ),
{
    let c1 = p1.children@;
    let c2 = p2.children@;
    assert(c1.subrange(0, c1.len() as int) =~= c1);
    assert(c2.subrange(0, c2.len() as int) =~= c2);
    let i1 = node_infos(c1, ctx, ft, dir);
    let i2 = node_infos(c2, ctx, ft, dir);
    lemma_infos_strip(c1, c2, idx, ctx, ft, dir);
    lemma_plan_from(i1, i2, idx, 0, None);
    crate::laws::law_soft_breaks_are_never_printed(i2);
    let steps2 = plan_from(i2, 0, None);
    assert forall|a: int| 0 <= a < steps2.len() && #[trigger] step_node(steps2[a]) is Some implies 0 <= step_node(
        steps2[a],
    )->0 < c2.len() by {}
    lemma_steps_same(p1, p2, idx, ctx, ft, dir, steps2, 0);
}

} // verus!
