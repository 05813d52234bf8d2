//! What is printed between two consecutive nodes, and the extent of a
//! region that ignore comments keep as it is.
use vstd::prelude::*;

use crate::gen_inline::{
    callout_text, gen_task_list_marker, get_newline_wrapping_based_on_config,
    get_space_or_newline_based_on_config, is_callout_text, newline_wrapping, space_or_newline,
    task_marker_text, Separator, TextWrap,
};

use crate::items::{push_item, push_raw_items, raw_items};
use crate::print::{items_view, PrintItem, PrintItemView};

verus! {

/// The kinds of node of a Markdown document.
#[derive(Clone, Copy, PartialEq, Eq, Structural, Debug)]
pub enum NodeKind {
    SourceFile,
    Heading,
    Paragraph,
    BlockQuote,
    CodeBlock,
    Code,
    Text,
    TextDecoration,
    Html,
    DisplayMath,
    InlineMath,
    FootnoteReference,
    FootnoteDefinition,
    InlineLink,
    ReferenceLink,
    ShortcutLink,
    AutoLink,
    LinkReference,
    InlineImage,
    ReferenceImage,
    List,
    Item,
    TaskListMarker,
    HorizontalRule,
    SoftBreak,
    HardBreak,
    Table,
    TableHead,
    TableRow,
    TableCell,
    MetadataBlock,
    NotImplemented,
}

/// Nodes that start a block of their own after any node.
pub open spec fn starts_block(k: NodeKind) -> bool {
    k == NodeKind::Heading || k == NodeKind::Paragraph || k == NodeKind::CodeBlock || k
        == NodeKind::FootnoteDefinition || k == NodeKind::HorizontalRule || k == NodeKind::List || k
        == NodeKind::Table || k == NodeKind::BlockQuote
}

/// Nodes after which any following node starts a block.
pub open spec fn ends_block(k: NodeKind) -> bool {
    k == NodeKind::Heading || k == NodeKind::Paragraph || k == NodeKind::CodeBlock || k
        == NodeKind::FootnoteDefinition || k == NodeKind::HorizontalRule || k == NodeKind::List || k
        == NodeKind::Table || k == NodeKind::MetadataBlock || k == NodeKind::BlockQuote || k
        == NodeKind::DisplayMath
}

/// Inline nodes, after which the source's line breaks decide the separator.
pub open spec fn inline_node(k: NodeKind) -> bool {
    k == NodeKind::Code || k == NodeKind::SoftBreak || k == NodeKind::TextDecoration || k
        == NodeKind::FootnoteReference || k == NodeKind::InlineLink || k == NodeKind::ReferenceLink || k
        == NodeKind::ShortcutLink || k == NodeKind::AutoLink || k == NodeKind::Text || k == NodeKind::Html
        || k == NodeKind::InlineImage || k == NodeKind::ReferenceImage || k == NodeKind::InlineMath
}

fn starts_block_exec(k: NodeKind) -> (r: bool)
    ensures
        r == starts_block(k),
{
    match k {
        NodeKind::Heading | NodeKind::Paragraph | NodeKind::CodeBlock | NodeKind::FootnoteDefinition
        | NodeKind::HorizontalRule | NodeKind::List | NodeKind::Table | NodeKind::BlockQuote => true,
        _ => false,
    }
}

fn ends_block_exec(k: NodeKind) -> (r: bool)
    ensures
        r == ends_block(k),
{
    match k {
        NodeKind::Heading | NodeKind::Paragraph | NodeKind::CodeBlock | NodeKind::FootnoteDefinition
        | NodeKind::HorizontalRule | NodeKind::List | NodeKind::Table | NodeKind::MetadataBlock
        | NodeKind::BlockQuote | NodeKind::DisplayMath => true,
        _ => false,
    }
}

fn inline_node_exec(k: NodeKind) -> (r: bool)
    ensures
        r == inline_node(k),
{
    match k {
        NodeKind::Code | NodeKind::SoftBreak | NodeKind::TextDecoration | NodeKind::FootnoteReference
        | NodeKind::InlineLink | NodeKind::ReferenceLink | NodeKind::ShortcutLink | NodeKind::AutoLink
        | NodeKind::Text | NodeKind::Html | NodeKind::InlineImage | NodeKind::ReferenceImage
        | NodeKind::InlineMath => true,
        _ => false,
    }
}

/// What is known of the source between two consecutive nodes and of the context.
#[derive(Clone, Copy, Debug)]
pub struct GapFacts {
    /// The number of line breaks between the end of the last node and the start of this one.
    pub new_line_count: usize,
    /// The nodes are inside a list.
    pub in_list: bool,
    /// A blank line precedes this node in the source.
    pub has_leading_blank_line: bool,
    /// The nodes are inside a block quote.
    pub in_block_quote: bool,
    /// Text wrapping is disabled here.
    pub text_wrap_disabled: bool,
    /// The configured text wrapping.
    pub text_wrap: TextWrap,
    /// White space precedes this node in the source.
    pub has_preceding_space: bool,
    /// The last node ends with punctuation.
    pub last_ends_with_punctuation: bool,
    /// This node starts with punctuation.
    pub starts_with_punctuation: bool,
    /// This node starts with a word that would read as a list marker.
    pub starts_with_list_word: bool,
}

/// A blank line, or a single line break inside a list where the source has no blank line.
pub open spec fn conditional_blank_line(f: GapFacts) -> Seq<Separator> {
    if !f.in_list || f.has_leading_blank_line {
        seq![Separator::NewLine, Separator::NewLine]
    } else {
        seq![Separator::NewLine]
    }
}

/// A space is needed between two inline nodes on the same line of the source.
pub open spec fn needs_space(last: NodeKind, node: NodeKind, f: GapFacts) -> bool {
    if last == NodeKind::Html {
        f.has_preceding_space
    } else if last == NodeKind::Text || node == NodeKind::Text {
        f.has_preceding_space || (!f.last_ends_with_punctuation && !f.starts_with_punctuation)
    } else if node == NodeKind::FootnoteReference {
        false
    } else if node == NodeKind::Html {
        f.has_preceding_space
    } else {
        true
    }
}

/// The separators printed between the node `last` (whose text, when it is
/// text, is `last_text`) and the following node `node`.
pub open spec fn gap(last: NodeKind, last_text: Seq<char>, node: NodeKind, f: GapFacts) -> Seq<Separator> {
    if starts_block(node) {
        conditional_blank_line(f)
    } else if node == NodeKind::HardBreak {
        Seq::empty()
    } else if ends_block(last) {
        conditional_blank_line(f)
    } else if inline_node(last) {
        if f.new_line_count == 1 {
            let is_callout = f.in_block_quote && last == NodeKind::Text && callout_text(last_text);
            if is_callout && !f.text_wrap_disabled {
                seq![Separator::NewLine]
            } else if node == NodeKind::Html {
                seq![Separator::NewLine]
            } else {
                seq![newline_wrapping(f.text_wrap, f.text_wrap_disabled)]
            }
        } else if f.new_line_count > 1 {
            seq![Separator::NewLine, Separator::NewLine]
        } else if needs_space(last, node, f) {
            if f.starts_with_list_word {
                seq![Separator::Space]
            } else {
                seq![space_or_newline(f.text_wrap, f.text_wrap_disabled)]
            }
        } else {
            Seq::empty()
        }
    } else if last == NodeKind::LinkReference && node == NodeKind::LinkReference {
        seq![Separator::NewLine]
    } else {
        Seq::empty()
    }
}

fn conditional_blank_line_exec(f: &GapFacts) -> (r: Vec<Separator>)
    ensures
        r@ == conditional_blank_line(*f),
{
    let mut r: Vec<Separator> = Vec::new();
    if !f.in_list || f.has_leading_blank_line {
        r.push(Separator::NewLine);
    }
    r.push(Separator::NewLine);
    assert(r@ =~= conditional_blank_line(*f));
    r
}

/// Returns the separators printed between two consecutive nodes.
pub fn gen_gap(last: NodeKind, last_text: &[char], node: NodeKind, f: &GapFacts) -> (r: Vec<Separator>)
    ensures
        r@ == gap(last, last_text@, node, *f),
        (node == NodeKind::Heading || node == NodeKind::Paragraph || node == NodeKind::CodeBlock || node
            == NodeKind::FootnoteDefinition || node == NodeKind::HorizontalRule || node == NodeKind::List || node
            == NodeKind::Table || node == NodeKind::BlockQuote || (node != NodeKind::HardBreak && (last
            == NodeKind::Heading || last == NodeKind::Paragraph || last == NodeKind::CodeBlock || last
            == NodeKind::FootnoteDefinition || last == NodeKind::HorizontalRule || last == NodeKind::List || last
            == NodeKind::Table || last == NodeKind::MetadataBlock || last == NodeKind::BlockQuote || last
            == NodeKind::DisplayMath))) ==> r@ == (if !f.in_list || f.has_leading_blank_line {
            seq![Separator::NewLine, Separator::NewLine]
        } else {
            seq![Separator::NewLine]
        }),
{
    let mut r: Vec<Separator> = Vec::new();
    if starts_block_exec(node) {
        return conditional_blank_line_exec(f);
    }
    if node == NodeKind::HardBreak {
        assert(r@ =~= gap(last, last_text@, node, *f));
        return r;
    }
    if ends_block_exec(last) {
        return conditional_blank_line_exec(f);
    }
    if inline_node_exec(last) {
        if f.new_line_count == 1 {
            let is_callout = f.in_block_quote && last == NodeKind::Text && is_callout_text(last_text);
            if is_callout && !f.text_wrap_disabled {
                r.push(Separator::NewLine);
            } else if node == NodeKind::Html {
                r.push(Separator::NewLine);
            } else {
                r.push(get_newline_wrapping_based_on_config(f.text_wrap, f.text_wrap_disabled));
            }
        } else if f.new_line_count > 1 {
            r.push(Separator::NewLine);
            r.push(Separator::NewLine);
        } else {
            let needs = if last == NodeKind::Html {
                f.has_preceding_space
            } else if last == NodeKind::Text || node == NodeKind::Text {
                f.has_preceding_space || (!f.last_ends_with_punctuation && !f.starts_with_punctuation)
            } else if node == NodeKind::FootnoteReference {
                false
            } else if node == NodeKind::Html {
                f.has_preceding_space
            } else {
                true
            };
            if needs {
                if f.starts_with_list_word {
                    r.push(Separator::Space);
                } else {
                    r.push(get_space_or_newline_based_on_config(f.text_wrap, f.text_wrap_disabled));
                }
            }
        }
    } else if last == NodeKind::LinkReference && node == NodeKind::LinkReference {
        r.push(Separator::NewLine);
    }
    assert(r@ =~= gap(last, last_text@, node, *f));
    r
}

/// A list that directly follows a list of the same kind (both ordered or
/// both bulleted) is printed with the alternate marker.
pub open spec fn alternate_list(last: Option<(NodeKind, bool)>, node: NodeKind, node_ordered: bool) -> bool {
    match last {
        Some((k, ordered)) => k == NodeKind::List && node == NodeKind::List && ordered == node_ordered,
        None => false,
    }
}

/// Whether a list is printed with the alternate marker: it follows a list
/// of the same kind. `last` is the previous node and whether it is an
/// ordered list.
pub fn is_alternate_list(last: Option<(NodeKind, bool)>, node: NodeKind, node_ordered: bool) -> (r: bool)
    ensures
        r == alternate_list(last, node, node_ordered),
{
    match last {
        Some((k, ordered)) => k == NodeKind::List && node == NodeKind::List && ordered == node_ordered,
        None => false,
    }
}

/// A node that follows an ignore-start comment: its range, and whether it
/// is an ignore-end comment.
#[derive(Clone, Copy, Debug)]
pub struct FollowingNode {
    pub start: usize,
    pub end: usize,
    pub is_end_comment: bool,
}

/// The first following node that is an ignore-end comment, or the number of nodes.
pub open spec fn end_comment_index(following: Seq<FollowingNode>) -> int {
    crate::text::first_from(0, following.len() as int, |j: int| following[j].is_end_comment)
}

/// The end of the text that an ignore-start comment ending at `start` keeps
/// as it is: the start of the ignore-end comment, or without one, the end of
/// the last node (the comment itself when nothing follows).
pub open spec fn ignored_end(start: int, following: Seq<FollowingNode>) -> int {
    let k = end_comment_index(following);
    if k < following.len() {
        following[k].start as int
    } else if following.len() > 0 {
        following.last().end as int
    } else {
        start
    }
}

/// The extent of a region kept as it is: where it ends, and the index of
/// the ignore-end comment among the following nodes, if there is one.
pub fn ignored_region(start: usize, following: &[FollowingNode]) -> (r: (usize, Option<usize>))
    ensures
        r.0 == ignored_end(start as int, following@),
        match r.1 {
            Some(k) => k == end_comment_index(following@) && k < following@.len(),
            None => end_comment_index(following@) == following@.len(),
        },
{
    let mut k: usize = 0;
    while k < following.len()
        invariant
            k <= following@.len(),
            forall|j: int| 0 <= j < k ==> !following@[j].is_end_comment,
        decreases following.len() - k,
    {
        if following[k].is_end_comment {
            proof {
                crate::text::lemma_first_from(0, k as int, following@.len() as int, |j: int| following@[j].is_end_comment);
            }
            return (following[k].start, Some(k));
        }
        k += 1;
    }
    proof {
        crate::text::lemma_first_from(0, k as int, following@.len() as int, |j: int| following@[j].is_end_comment);
    }
    if following.len() > 0 {
        (following[following.len() - 1].end, None)
    } else {
        (start, None)
    }
}

/// A child of a list item or paragraph: its kind, and whether a blank line
/// precedes it in the source.
#[derive(Clone, Copy, Debug)]
pub struct ChildInfo {
    pub kind: NodeKind,
    pub has_leading_blank_line: bool,
}

/// A child that ends the run of children indented past a task marker: a
/// list, code block, block quote, heading or table, or any child after a
/// blank line.
pub open spec fn ends_marker_run(c: ChildInfo) -> bool {
    c.kind == NodeKind::List || c.kind == NodeKind::CodeBlock || c.kind == NodeKind::BlockQuote || c.kind
        == NodeKind::Heading || c.kind == NodeKind::Table || c.has_leading_blank_line
}

fn ends_marker_run_exec(c: &ChildInfo) -> (r: bool)
    ensures
        r == ends_marker_run(*c),
{
    match c.kind {
        NodeKind::List | NodeKind::CodeBlock | NodeKind::BlockQuote | NodeKind::Heading | NodeKind::Table => true,
        _ => c.has_leading_blank_line,
    }
}

/// The number of leading children printed indented past a task marker.
pub open spec fn marker_run_end(children: Seq<ChildInfo>) -> int {
    crate::text::first_from(0, children.len() as int, |j: int| ends_marker_run(children[j]))
}

/// The layout of the children of a list item or paragraph that may start
/// with a task marker: the leading children, up to the first one that ends
/// the run, are indented by four past a marker (by nothing without one);
/// the rest follow unindented after a line break, and a blank line when the
/// source has one.
pub struct MarkerChildrenLayout {
    pub marker_indent: u32,
    pub indented_end: usize,
    pub separators: Vec<Separator>,
}

/// The separators between the indented and the unindented children.
pub open spec fn marker_run_separators(children: Seq<ChildInfo>) -> Seq<Separator> {
    let e = marker_run_end(children);
    if e > 0 && e != children.len() {
        if children[e].has_leading_blank_line {
            seq![Separator::NewLine, Separator::NewLine]
        } else {
            seq![Separator::NewLine]
        }
    } else {
        Seq::empty()
    }
}

/// Returns the layout of the children of a list item or paragraph.
pub fn gen_task_list_marker_children(children: &[ChildInfo], has_marker: bool) -> (r: MarkerChildrenLayout)
    ensures
        r.marker_indent == (if has_marker {
            4u32
        } else {
            0u32
        }),
        r.indented_end == marker_run_end(children@),
        r.separators@ == marker_run_separators(children@),
{
    let mut k: usize = 0;
    while k < children.len() && !ends_marker_run_exec(&children[k])
        invariant
            k <= children@.len(),
            forall|j: int| 0 <= j < k ==> !ends_marker_run(children@[j]),
        decreases children.len() - k,
    {
        k += 1;
    }
    proof {
        crate::text::lemma_first_from(0, k as int, children@.len() as int, |j: int| ends_marker_run(children@[j]));
    }
    let mut separators: Vec<Separator> = Vec::new();
    if k > 0 && k != children.len() {
        separators.push(Separator::NewLine);
        if children[k].has_leading_blank_line {
            separators.push(Separator::NewLine);
        }
    }
    assert(separators@ =~= marker_run_separators(children@));
    MarkerChildrenLayout {
        marker_indent: if has_marker {
            4
        } else {
            0
        },
        indented_end: k,
        separators,
    }
}

/// What a list item or a paragraph prints around its children.
pub struct ItemLayout {
    /// The task list marker, printed first.
    pub marker: Option<Vec<char>>,
    /// Whether a space follows the marker.
    pub space_after_marker: bool,
    /// The line breaks printed before the sub-lists of a list item.
    pub sub_list_separators: Vec<Separator>,
}

/// The line breaks before the sub-lists of a list item: none without
/// sub-lists, else one, and a second where the first sub-list follows a
/// blank line. `first_sub_list` tells whether it does.
pub open spec fn sub_list_separators(first_sub_list: Option<bool>) -> Seq<Separator> {
    match first_sub_list {
        None => Seq::empty(),
        Some(blank) => if blank {
            seq![Separator::NewLine, Separator::NewLine]
        } else {
            seq![Separator::NewLine]
        },
    }
}

/// Returns what a list item prints around its children: its task marker
/// (`marker` tells whether it is checked), a space after it where the item
/// has children, and the line breaks before its sub-lists.
pub fn gen_item(marker: Option<bool>, has_children: bool, first_sub_list: Option<bool>) -> (r: ItemLayout)
    ensures
        match marker {
            Some(checked) => r.marker matches Some(m) && m@ == task_marker_text(checked),
            None => r.marker is None,
        },
        r.space_after_marker == (marker is Some && has_children),
        r.sub_list_separators@ == sub_list_separators(first_sub_list),
{
    let mut breaks: Vec<Separator> = Vec::new();
    if let Some(blank) = first_sub_list {
        breaks.push(Separator::NewLine);
        if blank {
            breaks.push(Separator::NewLine);
        }
    }
    assert(breaks@ =~= sub_list_separators(first_sub_list));
    let layout_marker = match marker {
        Some(checked) => Some(gen_task_list_marker(checked)),
        None => None,
    };
    ItemLayout { marker: layout_marker, space_after_marker: marker.is_some() && has_children, sub_list_separators: breaks }
}

/// Returns what a paragraph prints around its children: as a list item
/// without sub-lists.
pub fn gen_paragraph(marker: Option<bool>, has_children: bool) -> (r: ItemLayout)
    ensures
        match marker {
            Some(checked) => r.marker matches Some(m) && m@ == task_marker_text(checked),
            None => r.marker is None,
        },
        r.space_after_marker == (marker is Some && has_children),
        r.sub_list_separators@.len() == 0,
{
    gen_item(marker, has_children, None)
}

/// The items printed for an HTML block or math: the text of its range
/// without trailing white space, as it is with each line's trailing white
/// space removed, after an empty text that starts the line's indentation;
/// nothing when that text is empty.
pub open spec fn range_items(s: Seq<char>, start: int, end: int) -> Seq<PrintItemView> {
    let t = crate::text::trim_end(s.subrange(start, end));
    if t.len() == 0 {
        Seq::empty()
    } else {
        seq![PrintItemView::Text(Seq::empty())] + raw_items(t, true)
    }
}

/// Returns the items printed for the range `[start, end)` of the file.
pub fn gen_range(file_text: &[char], start: usize, end: usize) -> (r: Vec<PrintItem>)
    requires
        start <= end <= file_text@.len(),
    ensures
        items_view(r@) == range_items(file_text@, start as int, end as int),
{
    let t = crate::text::trim_end_exec(&file_text[start..end]);
    let mut out: Vec<PrintItem> = Vec::new();
    if t.len() > 0 {
        push_item(&mut out, PrintItem::Text(Vec::new()));
        push_raw_items(&mut out, t, true);
    }
    assert(items_view(out@) =~= range_items(file_text@, start as int, end as int));
    out
}

/// A node of a sequence of sibling nodes, with what the printer needs to
/// know of it and of the source around it.
pub struct NodeInfo {
    pub kind: NodeKind,
    /// The node is an ordered list.
    pub ordered_list: bool,
    /// The range of the node in the file text.
    pub start: usize,
    pub end: usize,
    /// The text of a text node (empty for other nodes).
    pub text: Vec<char>,
    /// What is known between the previous sibling that is not a soft break and this node.
    pub facts: GapFacts,
    /// An HTML comment that keeps the next node as it is.
    pub is_ignore: bool,
    /// An HTML comment that starts a region kept as it is.
    pub is_ignore_start: bool,
    /// An HTML comment that ends a region kept as it is.
    pub is_ignore_end: bool,
}

/// A step of printing a sequence of sibling nodes.
#[derive(PartialEq, Eq, Debug)]
pub enum NodeStep {
    /// Print these separators.
    Separators(Vec<Separator>),
    /// Generate the node with this index.
    Generate(usize),
    /// Generate the list with this index with the alternate list markers.
    GenerateAlternateList(usize),
    /// Print a line break.
    NewLine,
    /// Print the text of the node with this index as it is, from the start
    /// of its line's indentation, without trailing white space.
    RawNode(usize),
    /// Print the file text in `[start, end)` as it is, without trailing white
    /// space when the flag holds.
    RawText(usize, usize, bool),
}

/// The view of a step.
pub enum StepView {
    Separators(Seq<Separator>),
    Generate(int),
    GenerateAlternateList(int),
    NewLine,
    RawNode(int),
    RawText(int, int, bool),
}

/// The view of a step.
pub open spec fn step_view(s: NodeStep) -> StepView {
    match s {
        NodeStep::Separators(v) => StepView::Separators(v@),
        NodeStep::Generate(i) => StepView::Generate(i as int),
        NodeStep::GenerateAlternateList(i) => StepView::GenerateAlternateList(i as int),
        NodeStep::NewLine => StepView::NewLine,
        NodeStep::RawNode(i) => StepView::RawNode(i as int),
        NodeStep::RawText(a, b, t) => StepView::RawText(a as int, b as int, t),
    }
}

/// The views of steps.
pub open spec fn steps_view(v: Seq<NodeStep>) -> Seq<StepView> {
    v.map_values(|s: NodeStep| step_view(s))
}

/// Node `k` is not a soft break.
pub open spec fn not_soft_break(nodes: Seq<NodeInfo>) -> spec_fn(int) -> bool {
    |k: int| nodes[k].kind != NodeKind::SoftBreak
}

/// The first node from `i` on that is not a soft break, or the number of nodes.
pub open spec fn next_node(nodes: Seq<NodeInfo>, i: int) -> int {
    crate::text::first_from(i, nodes.len() as int, not_soft_break(nodes))
}

/// Node `k` is an HTML comment that ends an ignored region.
pub open spec fn ends_ignored(nodes: Seq<NodeInfo>) -> spec_fn(int) -> bool {
    |k: int| nodes[k].kind == NodeKind::Html && nodes[k].is_ignore_end
}

/// The last node in `(k, n)` that is not a soft break, or `k`.
pub open spec fn last_node_after(nodes: Seq<NodeInfo>, k: int) -> int {
    let m = crate::text::last_below(nodes.len() as int, not_soft_break(nodes));
    if m > k {
        m
    } else {
        k
    }
}

/// The steps for the nodes from position `i` on, where `last` is the
/// previous node that was printed or consumed: soft breaks are skipped, and
/// a list that follows a list of the same kind is printed with the
/// alternate markers after a conditional blank line.
pub open spec fn plan_from(nodes: Seq<NodeInfo>, i: int, last: Option<int>) -> Seq<StepView>
    decreases nodes.len() - i, 1int,
{
    if i < 0 || i >= nodes.len() {
        Seq::empty()
    } else {
        proof {
            crate::text::lemma_first_from_props(i, nodes.len() as int, not_soft_break(nodes));
        }
        let k = next_node(nodes, i);
        if k >= nodes.len() {
            Seq::empty()
        } else {
            match last {
                Some(l) => {
                    if 0 <= l < nodes.len() && nodes[l].kind == NodeKind::List && nodes[k].kind == NodeKind::List
                        && nodes[l].ordered_list == nodes[k].ordered_list {
                        proof {
                            crate::text::lemma_first_from_props(k + 1, nodes.len() as int, not_soft_break(nodes));
                        }
                        let pre = seq![
                            StepView::Separators(conditional_blank_line(nodes[k].facts)),
                            StepView::GenerateAlternateList(k),
                        ];
                        let k2 = next_node(nodes, k + 1);
                        if k2 >= nodes.len() {
                            pre
                        } else {
                            pre + plan_node(nodes, k2, Some(k))
                        }
                    } else {
                        plan_node(nodes, k, last)
                    }
                },
                None => plan_node(nodes, k, last),
            }
        }
    }
}

/// The steps for node `k` and the nodes after it: the separators after the
/// previous node, the node itself, and what an ignore comment asks for.
pub open spec fn plan_node(nodes: Seq<NodeInfo>, k: int, last: Option<int>) -> Seq<StepView>
    decreases nodes.len() - k, 0int,
{
    if k < 0 || k >= nodes.len() {
        Seq::empty()
    } else {
        let node = nodes[k];
        let gap_steps = match last {
            Some(l) => if 0 <= l < nodes.len() {
                seq![StepView::Separators(gap(nodes[l].kind, nodes[l].text@, node.kind, node.facts))]
            } else {
                Seq::empty()
            },
            None => Seq::empty(),
        };
        let head = gap_steps + seq![StepView::Generate(k)];
        if node.kind == NodeKind::Html && node.is_ignore {
            proof {
                crate::text::lemma_first_from_props(k + 1, nodes.len() as int, not_soft_break(nodes));
            }
            let j = next_node(nodes, k + 1);
            if j < nodes.len() {
                let blank = if nodes[j].facts.has_leading_blank_line {
                    seq![StepView::NewLine]
                } else {
                    Seq::empty()
                };
                head + seq![StepView::NewLine] + blank + seq![StepView::RawNode(j)] + plan_from(nodes, j + 1, Some(j))
            } else {
                head + seq![StepView::NewLine]
            }
        } else if node.kind == NodeKind::Html && node.is_ignore_start {
            proof {
                crate::text::lemma_first_from_props(k + 1, nodes.len() as int, ends_ignored(nodes));
            }
            let e = crate::text::first_from(k + 1, nodes.len() as int, ends_ignored(nodes));
            if e < nodes.len() {
                head + seq![StepView::RawText(node.end as int, nodes[e].start as int, false), StepView::Generate(e)]
                    + plan_from(nodes, e + 1, Some(e))
            } else {
                head + seq![StepView::RawText(node.end as int, nodes[last_node_after(nodes, k)].end as int, true)]
            }
        } else {
            head + plan_from(nodes, k + 1, Some(k))
        }
    }
}

fn next_node_exec(nodes: &[NodeInfo], i: usize) -> (r: usize)
    requires
        i <= nodes@.len(),
    ensures
        r == next_node(nodes@, i as int),
        i <= r <= nodes@.len(),
{
    let mut k = i;
    while k < nodes.len() && nodes[k].kind == NodeKind::SoftBreak
        invariant
            i <= k <= nodes@.len(),
            forall|j: int| i <= j < k ==> !#[trigger] not_soft_break(nodes@)(j),
        decreases nodes.len() - k,
    {
        k += 1;
    }
    proof {
        crate::text::lemma_first_from(i as int, k as int, nodes@.len() as int, not_soft_break(nodes@));
    }
    k
}

/// An optional index as an optional integer.
pub open spec fn opt_index(o: Option<usize>) -> Option<int> {
    match o {
        Some(l) => Some(l as int),
        None => None,
    }
}

/// Appends the steps of node `k` (printed after `last`) and of what an
/// ignore comment asks for; returns where the sequence goes on and the last
/// node printed or consumed.
#[verifier::spinoff_prover]
#[verifier::rlimit(40)]
fn gen_node_steps(nodes: &[NodeInfo], k: usize, last: Option<usize>, steps: &mut Vec<NodeStep>) -> (r: (
    usize,
    Option<usize>,
))
    requires
        k < nodes@.len(),
        last matches Some(l) ==> l < nodes@.len(),
    ensures
        r.0 <= nodes@.len(),
        r.1 matches Some(l) ==> l < nodes@.len(),
        r.0 > k,
        steps_view(final(steps)@) + plan_from(nodes@, r.0 as int, opt_index(r.1)) == steps_view(old(steps)@)
            + plan_node(nodes@, k as int, opt_index(last)),
{
    let ghost ns = nodes@;
    let n = nodes.len();
    let ghost before_node = steps@;
    if let Some(l) = last {
        steps.push(NodeStep::Separators(gen_gap(nodes[l].kind, nodes[l].text.as_slice(), nodes[k].kind, &nodes[k].facts)));
    }
    steps.push(NodeStep::Generate(k));
    let ghost head = steps@;
    let ghost gap_steps = match opt_index(last) {
        Some(l) => if 0 <= l < ns.len() {
            seq![StepView::Separators(gap(ns[l].kind, ns[l].text@, ns[k as int].kind, ns[k as int].facts))]
        } else {
            Seq::empty()
        },
        None => Seq::empty(),
    };
    assert(steps_view(head) =~= steps_view(before_node) + gap_steps + seq![StepView::Generate(k as int)]);
    if nodes[k].kind == NodeKind::Html && nodes[k].is_ignore {
        steps.push(NodeStep::NewLine);
        let j = next_node_exec(nodes, k + 1);
        if j < n {
            if nodes[j].facts.has_leading_blank_line {
                steps.push(NodeStep::NewLine);
            }
            steps.push(NodeStep::RawNode(j));
            proof {
                let blank = if ns[j as int].facts.has_leading_blank_line {
                    seq![StepView::NewLine]
                } else {
                    Seq::empty()
                };
                assert(steps_view(steps@) =~= steps_view(head) + seq![StepView::NewLine] + blank + seq![
                    StepView::RawNode(j as int),
                ]);
            }
            (j + 1, Some(j))
        } else {
            proof {
                assert(steps_view(steps@) =~= steps_view(head) + seq![StepView::NewLine]);
                assert(plan_from(ns, n as int, Some(k as int)) =~= Seq::<StepView>::empty());
            }
            (n, Some(k))
        }
    } else if nodes[k].kind == NodeKind::Html && nodes[k].is_ignore_start {
        gen_ignored_region_steps(nodes, k, steps)
    } else {
        (k + 1, Some(k))
    }
}

/// Appends the steps of the region that the ignore-start comment `k` keeps
/// as it is.
#[verifier::spinoff_prover]
#[verifier::rlimit(40)]
fn gen_ignored_region_steps(nodes: &[NodeInfo], k: usize, steps: &mut Vec<NodeStep>) -> (r: (usize, Option<usize>))
    requires
        k < nodes@.len(),
        nodes@[k as int].kind == NodeKind::Html,
        !nodes@[k as int].is_ignore,
        nodes@[k as int].is_ignore_start,
    ensures
        r.0 <= nodes@.len(),
        r.1 matches Some(l) ==> l < nodes@.len(),
        r.0 > k,
        steps_view(final(steps)@) + plan_from(nodes@, r.0 as int, opt_index(r.1)) == steps_view(old(steps)@) + {
            let e = crate::text::first_from(k + 1, nodes@.len() as int, ends_ignored(nodes@));
            if e < nodes@.len() {
                seq![
                    StepView::RawText(nodes@[k as int].end as int, nodes@[e].start as int, false),
                    StepView::Generate(e),
                ] + plan_from(nodes@, e + 1, Some(e))
            } else {
                seq![StepView::RawText(nodes@[k as int].end as int, nodes@[last_node_after(nodes@, k as int)].end as int, true)]
            }
        },
{
    let ghost ns = nodes@;
    let ghost old_steps = steps@;
    let n = nodes.len();
    let start = nodes[k].end;
    let mut e = k + 1;
    while e < n && !(nodes[e].kind == NodeKind::Html && nodes[e].is_ignore_end)
        invariant
            ns == nodes@,
            n == ns.len(),
            k < n,
            k + 1 <= e <= n,
            forall|m: int| k + 1 <= m < e ==> !#[trigger] ends_ignored(ns)(m),
        decreases n - e,
    {
        e += 1;
    }
    proof {
        crate::text::lemma_first_from(k + 1, e as int, n as int, ends_ignored(ns));
    }
    if e < n {
        steps.push(NodeStep::RawText(start, nodes[e].start, false));
        steps.push(NodeStep::Generate(e));
        proof {
            assert(steps_view(steps@) =~= steps_view(old_steps) + seq![
                StepView::RawText(start as int, ns[e as int].start as int, false),
                StepView::Generate(e as int),
            ]);
        }
        (e + 1, Some(e))
    } else {
        let mut m = n;
        while m > k + 1 && nodes[m - 1].kind == NodeKind::SoftBreak
            invariant
                ns == nodes@,
                n == ns.len(),
                k + 1 <= m <= n,
                forall|j: int| m <= j < n ==> !#[trigger] not_soft_break(ns)(j),
            decreases m,
        {
            m -= 1;
        }
        let last_k = if m > k + 1 {
            m - 1
        } else {
            k
        };
        proof {
            if m > k + 1 {
                crate::text::lemma_last_below((m - 1) as int, n as int, not_soft_break(ns));
            } else {
                crate::text::lemma_last_below_props(n as int, not_soft_break(ns));
                let lb = crate::text::last_below(n as int, not_soft_break(ns));
                if lb > k {
                    assert(not_soft_break(ns)(lb));
                }
            }
            assert(last_k == last_node_after(ns, k as int));
        }
        steps.push(NodeStep::RawText(start, nodes[last_k].end, true));
        proof {
            assert(steps_view(steps@) =~= steps_view(old_steps) + seq![
                StepView::RawText(start as int, ns[last_k as int].end as int, true),
            ]);
            assert(plan_from(ns, n as int, Some(last_k as int)) =~= Seq::<StepView>::empty());
        }
        (n, Some(last_k))
    }
}

/// Returns the steps that print a sequence of sibling nodes.
#[verifier::spinoff_prover]
#[verifier::rlimit(40)]
pub fn gen_nodes(nodes: &[NodeInfo]) -> (r: Vec<NodeStep>)
    ensures
        steps_view(r@) == plan_from(nodes@, 0, None),
{
    let ghost ns = nodes@;
    let n = nodes.len();
    let mut steps: Vec<NodeStep> = Vec::new();
    let mut i: usize = 0;
    let mut last: Option<usize> = None;
    loop
        invariant
            ns == nodes@,
            n == ns.len(),
            i <= n,
            last matches Some(l) ==> l < n,
            steps_view(steps@) + plan_from(ns, i as int, opt_index(last)) == plan_from(ns, 0, None),
        decreases n - i,
    {
        let ghost old_steps = steps@;
        let ghost old_last = opt_index(last);
        let k = next_node_exec(nodes, i);
        if k >= n {
            assert(steps_view(steps@) =~= steps_view(steps@) + plan_from(ns, i as int, old_last));
            return steps;
        }
        let is_alternate = match last {
            Some(l) => nodes[l].kind == NodeKind::List && nodes[k].kind == NodeKind::List && nodes[l].ordered_list
                == nodes[k].ordered_list,
            None => false,
        };
        if is_alternate {
            steps.push(NodeStep::Separators(conditional_blank_line_exec(&nodes[k].facts)));
            steps.push(NodeStep::GenerateAlternateList(k));
            let k2 = next_node_exec(nodes, k + 1);
            if k2 >= n {
                proof {
                    assert(steps_view(steps@) =~= steps_view(old_steps) + plan_from(ns, i as int, old_last));
                }
                return steps;
            }
            let ghost mid = steps@;
            let (next_i, next_last) = gen_node_steps(nodes, k2, Some(k), &mut steps);
            proof {
                assert(steps_view(mid) =~= steps_view(old_steps) + seq![
                    StepView::Separators(conditional_blank_line(ns[k as int].facts)),
                    StepView::GenerateAlternateList(k as int),
                ]);
            }
            i = next_i;
            last = next_last;
        } else {
            let (next_i, next_last) = gen_node_steps(nodes, k, last, &mut steps);
            i = next_i;
            last = next_last;
        }
    }
}

/// What the step plan reads of a node.
pub open spec fn info_key(i: NodeInfo) -> (NodeKind, bool, usize, usize, Seq<char>, GapFacts, bool, bool, bool) {
    (i.kind, i.ordered_list, i.start, i.end, i.text@, i.facts, i.is_ignore, i.is_ignore_start, i.is_ignore_end)
}

/// Two sequences of nodes that the step plan cannot tell apart.
pub open spec fn infos_agree(a: Seq<NodeInfo>, b: Seq<NodeInfo>) -> bool {
    a.len() == b.len() && forall|k: int| 0 <= k < a.len() ==> #[trigger] info_key(a[k]) == info_key(b[k])
}

proof fn lemma_first_from_agree(i: int, n: int, p: spec_fn(int) -> bool, q: spec_fn(int) -> bool)
    requires
        forall|j: int| i <= j < n ==> #[trigger] p(j) == q(j),
    ensures
        crate::text::first_from(i, n, p) == crate::text::first_from(i, n, q),
    decreases n - i,
{
    if i < n {
        lemma_first_from_agree(i + 1, n, p, q);
    }
}

proof fn lemma_last_below_agree(n: int, p: spec_fn(int) -> bool, q: spec_fn(int) -> bool)
    requires
        forall|j: int| 0 <= j < n ==> #[trigger] p(j) == q(j),
    ensures
        crate::text::last_below(n, p) == crate::text::last_below(n, q),
    decreases n,
{
    if n > 0 {
        lemma_last_below_agree(n - 1, p, q);
    }
}

proof fn lemma_agree_preds(a: Seq<NodeInfo>, b: Seq<NodeInfo>)
    requires
        infos_agree(a, b),
    ensures
        forall|i: int| #![auto] 0 <= i <= a.len() ==> next_node(a, i) == next_node(b, i),
        forall|j: int| 0 <= j < a.len() ==> #[trigger] not_soft_break(a)(j) == not_soft_break(b)(j),
        forall|j: int| 0 <= j < a.len() ==> #[trigger] ends_ignored(a)(j) == ends_ignored(b)(j),
        forall|k: int| #![auto] last_node_after(a, k) == last_node_after(b, k),
{
    assert forall|j: int| 0 <= j < a.len() implies #[trigger] not_soft_break(a)(j) == not_soft_break(b)(j) by {
        assert(info_key(a[j]) == info_key(b[j]));
    }
    assert forall|j: int| 0 <= j < a.len() implies #[trigger] ends_ignored(a)(j) == ends_ignored(b)(j) by {
        assert(info_key(a[j]) == info_key(b[j]));
    }
    assert forall|i: int| #![auto] 0 <= i <= a.len() implies next_node(a, i) == next_node(b, i) by {
        lemma_first_from_agree(i, a.len() as int, not_soft_break(a), not_soft_break(b));
    }
    lemma_last_below_agree(a.len() as int, not_soft_break(a), not_soft_break(b));
}

/// The step plan reads only what `info_key` gives of each node.
pub proof fn lemma_plan_from_agree(a: Seq<NodeInfo>, b: Seq<NodeInfo>, i: int, last: Option<int>)
    requires
        infos_agree(a, b),
    ensures
        plan_from(a, i, last) == plan_from(b, i, last),
    decreases a.len() - i, 1int,
{
    if 0 <= i < a.len() {
        lemma_agree_preds(a, b);
        crate::text::lemma_first_from_props(i, a.len() as int, not_soft_break(a));
        let k = next_node(a, i);
        assert(next_node(b, i) == k);
        if k < a.len() {
            assert(info_key(a[k]) == info_key(b[k]));
            match last {
                Some(l) => {
                    if 0 <= l < a.len() {
                        assert(info_key(a[l]) == info_key(b[l]));
                    }
                    if 0 <= l < a.len() && a[l].kind == NodeKind::List && a[k].kind == NodeKind::List
                        && a[l].ordered_list == a[k].ordered_list {
                        crate::text::lemma_first_from_props(k + 1, a.len() as int, not_soft_break(a));
                        let k2 = next_node(a, k + 1);
                        assert(next_node(b, k + 1) == k2);
                        if k2 < a.len() {
                            lemma_plan_node_agree(a, b, k2, Some(k));
                        }
                    } else {
                        lemma_plan_node_agree(a, b, k, last);
                    }
                },
                None => lemma_plan_node_agree(a, b, k, last),
            }
        }
    }
}

proof fn lemma_plan_node_agree(a: Seq<NodeInfo>, b: Seq<NodeInfo>, k: int, last: Option<int>)
    requires
        infos_agree(a, b),
    ensures
        plan_node(a, k, last) == plan_node(b, k, last),
    decreases a.len() - k, 0int,
{
    if 0 <= k < a.len() {
        lemma_agree_preds(a, b);
        assert(info_key(a[k]) == info_key(b[k]));
        match last {
            Some(l) => if 0 <= l < a.len() {
                assert(info_key(a[l]) == info_key(b[l]));
            },
            None => {},
        }
        let node = a[k];
        if node.kind == NodeKind::Html && node.is_ignore {
            crate::text::lemma_first_from_props(k + 1, a.len() as int, not_soft_break(a));
            let j = next_node(a, k + 1);
            assert(next_node(b, k + 1) == j);
            if j < a.len() {
                assert(info_key(a[j]) == info_key(b[j]));
                lemma_plan_from_agree(a, b, j + 1, Some(j));
            }
        } else if node.kind == NodeKind::Html && node.is_ignore_start {
            crate::text::lemma_first_from_props(k + 1, a.len() as int, ends_ignored(a));
            lemma_first_from_agree(k + 1, a.len() as int, ends_ignored(a), ends_ignored(b));
            let e = crate::text::first_from(k + 1, a.len() as int, ends_ignored(a));
            if e < a.len() {
                assert(info_key(a[e]) == info_key(b[e]));
                lemma_plan_from_agree(a, b, e + 1, Some(e));
            } else {
                let m = last_node_after(a, k);
                crate::text::lemma_last_below_props(a.len() as int, not_soft_break(a));
                if 0 <= m < a.len() {
                    assert(info_key(a[m]) == info_key(b[m]));
                }
            }
        } else {
            lemma_plan_from_agree(a, b, k + 1, Some(k));
        }
    }
}

} // verus!
