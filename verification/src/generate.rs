//! The generation of print items from a Markdown document tree: every node
//! kind is dispatched to what the `gen_*` functions decide, and their plans
//! (separators, raw nodes, list indents, block quote prefixes) are applied.
use vstd::prelude::*;

use crate::chars::{copy_chars, utf8_len, utf8_width};
use crate::format::PrintSettings;
use crate::gen_block::{
    atx_prefix, cells_view, gen_heading_prefix, gen_heading_underline, gen_list, gen_metadata_block,
    gen_table, is_all_ones_list, item_plan_view, item_separators, list_marker, all_ones_list,
    measure_longest_line_width, max_width, metadata_items, setext_heading, setext_underline,
    std_lines_from, table_text, ColumnAlignment, HeadingKind, MetadataBlockKind, TableFormat,
    gen_block_quote, levels_fit, quote_from, quote_step_view, QuoteItem, QuoteStep, QuoteStepView,
};
use crate::gen_code::{code_block_text, code_span_text, gen_code, gen_code_block, get_code_text};
use crate::gen_inline::{
    bracketed, decoration_delimiter, destination_text, gen_footnote_definition_label, gen_footnote_reference, gen_inline_image, gen_link_destination,
    gen_link_reference, gen_reference_image, gen_reference_link_label,
    gen_text_decoration_delimiter, gen_word_separator, inline_image_text, link_reference_text,
    link_text_on_one_line, reference_image_text, task_marker_text, text_words,
    word_separator, word_view, words_from, DecorationChar, Separator, TextDecorationKind, TextWrap,
};
use crate::gen_nodes::{
    gen_nodes, gen_task_list_marker_children, marker_run_end, marker_run_separators, plan_from, range_items,
    gen_range, steps_view, ChildInfo, GapFacts, NodeInfo, NodeKind, NodeStep, StepView,
};
use crate::items::{
    line_items, push_line_items, indented, push_indented, push_item, push_items, push_raw_items, push_separators, push_string_items,
    push_wrapped, raw_items, separator_items, sig, string_items, wrapped,
};
use crate::print::{is_printable, item_view, items_view, print_checked, print_items, printable, printed, PrintItem, PrintItemView, PrintSignal};
use crate::source::{
    blank_line_before, blank_line_before_exec, ignore_comment_kind, ignore_kind, newline_count, newline_count_exec,
    punctuation_at, punctuation_at_exec, punctuation_before, punctuation_before_exec, space_before, space_before_exec,
    IgnoreKind,
};
use crate::text::{trim_end, trim_end_exec};

verus! {

/// What the parser knows of a node that the text alone does not show.
#[derive(Clone, Copy, Debug)]
pub struct SourceFacts {
    /// This node starts with a word that would read as a list marker.
    pub starts_with_list_word: bool,
}

/// What a node holds besides its kind, range, text and children.
pub enum NodeData {
    /// Nothing more.
    Plain,
    /// The level of a heading.
    Heading(u8),
    /// The task marker of a paragraph, if any: whether it is checked.
    Marker(Option<bool>),
    /// The task marker of a list item, and the index of its first child
    /// that is a sub-list (the number of children when it has none).
    Item(Option<bool>, usize),
    /// A code block: its info tag, whether it is fenced, and what the
    /// embedded formatter returned for its language, if anything.
    CodeBlock(Option<Vec<char>>, bool, Option<Vec<char>>),
    /// For each word of a text node, whether it reads as a list marker.
    Text(Vec<bool>),
    /// The kind of a text decoration.
    Decoration(TextDecorationKind),
    /// The destination (URL or reference) and title of a link, link
    /// reference or image.
    Link(Vec<char>, Option<Vec<char>>),
    /// The start index of an ordered list, nothing for a bullet list.
    List(Option<u64>),
    /// The column alignments of a table.
    Table(Vec<ColumnAlignment>),
    /// The kind of a metadata block, and what the embedded formatter
    /// returned for its language, if anything.
    Metadata(MetadataBlockKind, Option<Vec<char>>),
}

/// A node of a Markdown document. `text` is the text of a text node, the
/// code of code, the name of a footnote or link reference, the alt text of
/// an image, the reference of a reference link and the body of a metadata
/// block. A table's first child is its header row and the others its body
/// rows, whose children are the cells.
pub struct MdNode {
    pub kind: NodeKind,
    pub start: usize,
    pub end: usize,
    pub facts: SourceFacts,
    pub text: Vec<char>,
    pub data: NodeData,
    pub children: Vec<MdNode>,
}

/// The configuration of the generator.
#[derive(Clone, Copy, Debug)]
pub struct GenConfig {
    pub text_wrap: TextWrap,
    pub line_width: u32,
    pub heading_kind: HeadingKind,
    pub table_format: TableFormat,
    pub emphasis: DecorationChar,
    pub strong: DecorationChar,
    /// The bullet of a bullet list.
    pub bullet: char,
    /// The bullet of a bullet list that follows another.
    pub alternate_bullet: char,
}

/// Where in the document the generator is.
#[derive(Clone, Copy, Debug)]
pub struct GenContext {
    pub cfg: GenConfig,
    pub in_list: bool,
    /// The number of block quotes around.
    pub quote_depth: usize,
    /// Text is not wrapped here (inside links).
    pub wrap_disabled: bool,
}

/// The text that dprint's printer writes for items it can print, and
/// nothing for others (which then print as if empty: a document holding
/// them cannot be printed either).
pub open spec fn measured(items: Seq<PrintItemView>, o: PrintSettings) -> Option<Seq<char>> {
    if printable(items) {
        Some(printed(items, o))
    } else {
        None
    }
}

/// Returns the text that dprint's printer writes for the items, where it can.
fn measure_exec(items: &Vec<PrintItem>, o: &PrintSettings) -> (r: Vec<char>)
    ensures
        r@ == measured(items_view(items@), *o).unwrap_or(Seq::empty()),
{
    match print_checked(items, o) {
        Some(t) => crate::chars::to_chars(t.as_str()),
        None => Vec::new(),
    }
}

/// The printer settings with which inline content is measured: no
/// indentation, no line width and no line break text.
pub open spec fn measure_settings() -> PrintSettings {
    PrintSettings { indent_width: 0, max_width: u32::MAX, use_tabs: false, new_line_text: "" }
}

/// The printer settings with which a heading's content is wrapped.
pub open spec fn wrap_settings(line_width: u32) -> PrintSettings {
    PrintSettings { indent_width: 0, max_width: line_width, use_tabs: false, new_line_text: "\n" }
}

/// The text of `s` in `[a, b)`, or nothing where that is not a range of it.
pub open spec fn range_of(s: Seq<char>, a: int, b: int) -> Seq<char> {
    if 0 <= a <= b <= s.len() {
        s.subrange(a, b)
    } else {
        Seq::empty()
    }
}

/// The start of the spaces and tabs right before position `i`.
pub open spec fn leading_start(s: Seq<char>, i: int) -> int
    decreases i,
{
    if 0 < i <= s.len() && (s[i - 1] == ' ' || s[i - 1] == '\t') {
        leading_start(s, i - 1)
    } else {
        i
    }
}

/// The gap facts of a node in a context, read from the text `ft` around
/// it and around the sibling `prev` before it that is not a soft break.
pub open spec fn gap_facts(n: MdNode, prev: Option<MdNode>, ctx: GenContext, ft: Seq<char>) -> GapFacts {
    GapFacts {
        new_line_count: match prev {
            Some(p) => newline_count(range_of(ft, p.end as int, n.start as int)) as usize,
            None => 0,
        },
        in_list: ctx.in_list,
        has_leading_blank_line: blank_line_before(ft, n.start as int),
        in_block_quote: ctx.quote_depth > 0,
        text_wrap_disabled: ctx.wrap_disabled,
        text_wrap: ctx.cfg.text_wrap,
        has_preceding_space: space_before(ft, n.start as int),
        last_ends_with_punctuation: match prev {
            Some(p) => punctuation_before(ft, p.end as int),
            None => false,
        },
        starts_with_punctuation: punctuation_at(ft, n.start as int),
        starts_with_list_word: n.facts.starts_with_list_word,
    }
}

/// What an HTML node's text asks as a comment; nothing for other nodes.
pub open spec fn comment_kind(n: MdNode, ft: Seq<char>, dir: Seq<char>) -> IgnoreKind {
    if n.kind == NodeKind::Html {
        ignore_kind(range_of(ft, n.start as int, n.end as int), dir)
    } else {
        IgnoreKind::NotIgnore
    }
}

/// The sibling before node `k` that is not a soft break.
pub open spec fn prev_sibling(nodes: Seq<MdNode>, k: int) -> Option<MdNode> {
    let p = crate::text::last_below(k, |j: int| nodes[j].kind != NodeKind::SoftBreak);
    if p >= 0 {
        Some(nodes[p])
    } else {
        None
    }
}

/// The node is an ordered list.
pub open spec fn ordered_list(n: MdNode) -> bool {
    n.data matches NodeData::List(Some(_))
}

/// The node, after the sibling `prev`, as a sibling in the step plan; an
/// HTML node's text decides whether it is an ignore comment.
pub open spec fn node_info(n: MdNode, prev: Option<MdNode>, ctx: GenContext, ft: Seq<char>, dir: Seq<char>) -> NodeInfo {
    NodeInfo {
        kind: n.kind,
        ordered_list: ordered_list(n),
        start: n.start,
        end: n.end,
        text: n.text,
        facts: gap_facts(n, prev, ctx, ft),
        is_ignore: comment_kind(n, ft, dir) == IgnoreKind::Ignore,
        is_ignore_start: comment_kind(n, ft, dir) == IgnoreKind::IgnoreStart,
        is_ignore_end: comment_kind(n, ft, dir) == IgnoreKind::IgnoreEnd,
    }
}

/// The siblings as nodes of the step plan.
pub open spec fn node_infos(nodes: Seq<MdNode>, ctx: GenContext, ft: Seq<char>, dir: Seq<char>) -> Seq<NodeInfo> {
    Seq::new(nodes.len(), |k: int| node_info(nodes[k], prev_sibling(nodes, k), ctx, ft, dir))
}

/// The siblings as children after a task marker.
pub open spec fn child_infos(nodes: Seq<MdNode>, ft: Seq<char>) -> Seq<ChildInfo> {
    Seq::new(
        nodes.len(),
        |k: int| ChildInfo { kind: nodes[k].kind, has_leading_blank_line: blank_line_before(ft, nodes[k].start as int) },
    )
}

/// The context inside a block quote: one quote deeper.
pub open spec fn block_quote_context(ctx: GenContext) -> GenContext {
    let depth: usize = if ctx.quote_depth < usize::MAX {
        (ctx.quote_depth + 1) as usize
    } else {
        ctx.quote_depth
    };
    GenContext { quote_depth: depth, ..ctx }
}

/// The context inside a list.
pub open spec fn in_list(ctx: GenContext) -> GenContext {
    GenContext { in_list: true, ..ctx }
}

/// The context inside a link.
pub open spec fn no_wrap(ctx: GenContext) -> GenContext {
    GenContext { wrap_disabled: true, ..ctx }
}

/// The items of a text node: each word after its separator.
pub open spec fn text_items(words: Seq<(Seq<char>, bool)>, flags: Seq<bool>, ctx: GenContext, i: int) -> Seq<PrintItemView>
    decreases words.len() - i,
{
    if i < 0 || i >= words.len() {
        Seq::empty()
    } else {
        let flag = i < flags.len() && flags[i];
        let sep = word_separator(i == 0, flag, words[i].1, ctx.cfg.text_wrap, ctx.wrap_disabled);
        (match sep {
            Some(s) => separator_items(seq![s]),
            None => Seq::empty(),
        }) + line_items(words[i].0) + text_items(words, flags, ctx, i + 1)
    }
}

/// The items of node `node` of the document `ft` in the context `ctx`.
pub open spec fn node_items(node: MdNode, ctx: GenContext, ft: Seq<char>, dir: Seq<char>) -> Seq<PrintItemView>
    decreases node, 4int, 0int, 0int,
{
    let n = node.children@.len() as int;
    match node.kind {
        NodeKind::Heading => {
            let level = match node.data {
                NodeData::Heading(l) => l,
                _ => 1u8,
            };
            let content = children_items(node, 0, n, ctx, ft, dir);
            if setext_heading(level, ctx.cfg.heading_kind) {
                let width = match measured(content, wrap_settings(ctx.cfg.line_width)) {
                    Some(t) => max_width(std_lines_from(t, 0)),
                    None => 0,
                };
                content + seq![sig(PrintSignal::NewLine)] + seq![
                    PrintItemView::Text(setext_underline(level, width as usize)),
                ]
            } else {
                seq![PrintItemView::Text(atx_prefix(level))] + wrapped(
                    content,
                    PrintSignal::StartForceNoNewLines,
                    PrintSignal::FinishForceNoNewLines,
                )
            }
        },
        NodeKind::Paragraph => {
            let marker = match node.data {
                NodeData::Marker(m) => m,
                _ => None,
            };
            marker_items(marker, n > 0) + marker_children_items(node, marker is Some, 0, n, ctx, ft, dir)
        },
        NodeKind::Item => {
            let (marker, from) = match node.data {
                NodeData::Item(m, f) => (m, if f as int <= n {
                    f as int
                } else {
                    n
                }),
                _ => (None, n),
            };
            marker_items(marker, from > 0) + marker_children_items(node, marker is Some, 0, from, ctx, ft, dir) + if from
                < n {
                separator_items(
                    if blank_line_before(ft, node.children@[from].start as int) {
                        seq![Separator::NewLine, Separator::NewLine]
                    } else {
                        seq![Separator::NewLine]
                    },
                ) + children_items(node, from, n, ctx, ft, dir)
            } else {
                Seq::empty()
            }
        },
        NodeKind::BlockQuote => {
            let inner_ctx = block_quote_context(ctx);
            quoted(children_items(node, 0, n, inner_ctx, ft, dir), inner_ctx.quote_depth)
        },
        NodeKind::CodeBlock => {
            let (tag, fenced, formatted) = match node.data {
                NodeData::CodeBlock(t, f, o) => (
                    match t {
                        Some(v) => Some(v@),
                        None => None,
                    },
                    f,
                    match o {
                        Some(v) => Some(v@),
                        None => None,
                    },
                ),
                _ => (None, true, None),
            };
            code_block_items(node.text@, tag, fenced, formatted)
        },
        NodeKind::Code => line_items(code_span_text(node.text@)),
        NodeKind::Text => {
            let flags = match node.data {
                NodeData::Text(f) => f@,
                _ => Seq::empty(),
            };
            text_items(
                words_from(node.text@, 0, false, ctx.cfg.text_wrap == TextWrap::Maintain),
                flags,
                ctx,
                0,
            )
        },
        NodeKind::TextDecoration => {
            let kind = match node.data {
                NodeData::Decoration(k) => k,
                _ => TextDecorationKind::Strikethrough,
            };
            let d = decoration_delimiter(kind, ctx.cfg.emphasis, ctx.cfg.strong, ft, node.end as int);
            seq![PrintItemView::Text(d)] + children_items(node, 0, n, ctx, ft, dir) + seq![PrintItemView::Text(d)]
        },
        NodeKind::Html | NodeKind::DisplayMath | NodeKind::InlineMath => if node.start <= node.end <= ft.len() {
            range_items(ft, node.start as int, node.end as int)
        } else {
            Seq::empty()
        },
        NodeKind::FootnoteReference => wrapped(
            seq![PrintItemView::Text(bracketed(seq!['[', '^'], node.text@, seq![']']))],
            PrintSignal::StartForceNoNewLines,
            PrintSignal::FinishForceNoNewLines,
        ),
        NodeKind::FootnoteDefinition => seq![PrintItemView::Text(bracketed(seq!['[', '^'], node.text@, seq![']', ':', ' ']))] + indented(
            children_items(node, 0, n, ctx, ft, dir),
            4,
        ),
        NodeKind::InlineLink => {
            let (url, title) = link_parts(node.data);
            let content = children_items(node, 0, n, no_wrap(ctx), ft, dir);
            let single = measured(
                wrapped(content, PrintSignal::StartForceNoNewLines, PrintSignal::FinishForceNoNewLines),
                measure_settings(),
            );
            let text = match single {
                Some(t) => if link_text_on_one_line(t, ctx.cfg.line_width) {
                    string_items(t, false)
                } else {
                    content
                },
                None => content,
            };
            group(
                seq![PrintItemView::Text(seq!['['])] + text + seq![
                    PrintItemView::Text(seq![']']),
                    PrintItemView::Text(destination_text(url, title)),
                ],
            )
        },
        NodeKind::ReferenceLink => group(
            seq![PrintItemView::Text(seq!['['])] + children_items(node, 0, n, no_wrap(ctx), ft, dir) + seq![
                PrintItemView::Text(seq![']']),
                PrintItemView::Text(bracketed(seq!['['], node.text@, seq![']'])),
            ],
        ),
        NodeKind::ShortcutLink => group(
            seq![PrintItemView::Text(seq!['['])] + children_items(node, 0, n, no_wrap(ctx), ft, dir) + seq![
                PrintItemView::Text(seq![']']),
            ],
        ),
        NodeKind::AutoLink => group(
            seq![PrintItemView::Text(seq!['<'])] + children_items(node, 0, n, no_wrap(ctx), ft, dir) + seq![
                PrintItemView::Text(seq!['>']),
            ],
        ),
        NodeKind::LinkReference => {
            let (link, title) = link_parts(node.data);
            group(seq![PrintItemView::Text(link_reference_text(node.text@, link, title))])
        },
        NodeKind::InlineImage => {
            let (url, title) = link_parts(node.data);
            seq![PrintItemView::Text(inline_image_text(node.text@, url, title))]
        },
        NodeKind::ReferenceImage => {
            let (reference, _title) = link_parts(node.data);
            seq![PrintItemView::Text(reference_image_text(node.text@, reference))]
        },
        NodeKind::List => list_items(node, false, ctx, ft, dir),
        NodeKind::HorizontalRule => seq![PrintItemView::Text(seq!['-', '-', '-'])],
        NodeKind::SoftBreak => Seq::empty(),
        NodeKind::HardBreak => seq![PrintItemView::Text(seq!['\\']), sig(PrintSignal::NewLine)],
        NodeKind::Table => table_items(node, ctx, ft, dir),
        NodeKind::MetadataBlock => {
            let (kind, formatted) = match node.data {
                NodeData::Metadata(k, f) => (k, match f {
                    Some(v) => Some(v@),
                    None => None,
                }),
                _ => (MetadataBlockKind::YamlStyle, None),
            };
            metadata_items(kind, node.text@, formatted)
        },
        NodeKind::NotImplemented => raw_items(range_of(ft, node.start as int, node.end as int), false),
        _ => children_items(node, 0, n, ctx, ft, dir),
    }
}

/// The items of the children `[lo, hi)` of `parent`, as the step plan of
/// those siblings lays them out.
pub open spec fn children_items(parent: MdNode, lo: int, hi: int, ctx: GenContext, ft: Seq<char>, dir: Seq<char>) -> Seq<PrintItemView>
    decreases parent, 3int, 0int, 0int,
{
    if 0 <= lo <= hi <= parent.children@.len() {
        let steps = plan_from(node_infos(parent.children@.subrange(lo, hi), ctx, ft, dir), 0, None);
        steps_items(parent, lo, hi, ctx, ft, dir, steps, 0)
    } else {
        Seq::empty()
    }
}

/// The items of the steps from `j` on, for the children `[lo, hi)` of `parent`.
pub open spec fn steps_items(
    parent: MdNode,
    lo: int,
    hi: int,
    ctx: GenContext,
    ft: Seq<char>, dir: Seq<char>,
    steps: Seq<StepView>,
    j: int,
) -> Seq<PrintItemView>
    decreases parent, 2int, steps.len() - j, 0int,
{
    if j < 0 || j >= steps.len() || !(0 <= lo <= hi <= parent.children@.len()) {
        Seq::empty()
    } else {
        let here = match steps[j] {
            StepView::Separators(v) => separator_items(v),
            StepView::Generate(k) => if 0 <= k < hi - lo {
                node_items(parent.children@[lo + k], ctx, ft, dir)
            } else {
                Seq::empty()
            },
            StepView::GenerateAlternateList(k) => if 0 <= k < hi - lo {
                list_items(parent.children@[lo + k], true, ctx, ft, dir)
            } else {
                Seq::empty()
            },
            StepView::NewLine => seq![sig(PrintSignal::NewLine)],
            StepView::RawNode(k) => if 0 <= k < hi - lo {
                let c = parent.children@[lo + k];
                raw_items(trim_end(range_of(ft, leading_start(ft, c.start as int), c.end as int)), false)
            } else {
                Seq::empty()
            },
            StepView::RawText(a, b, t) => {
                let r = range_of(ft, a, b);
                raw_items(if t {
                    trim_end(r)
                } else {
                    r
                }, false)
            },
        };
        here + steps_items(parent, lo, hi, ctx, ft, dir, steps, j + 1)
    }
}

/// The items of a list: each item after its separators, as its marker, a
/// space unless at the end of the line where the item prints anything, and
/// the item indented by the marker's width and one.
pub open spec fn list_items(list: MdNode, alternate: bool, ctx: GenContext, ft: Seq<char>, dir: Seq<char>) -> Seq<PrintItemView>
    decreases list, 2int, list.children@.len() + 1, 0int,
{
    list_items_from(list, alternate, ctx, ft, dir, 0)
}

/// The bullet of a bullet list.
pub open spec fn bullet_of(cfg: GenConfig, alternate: bool) -> Seq<char> {
    seq![if alternate {
        cfg.alternate_bullet
    } else {
        cfg.bullet
    }]
}

/// The start index of a list node.
pub open spec fn start_index(list: MdNode) -> Option<u64> {
    match list.data {
        NodeData::List(s) => s,
        _ => None,
    }
}

/// Whether the list numbers every item 1.
pub open spec fn list_all_ones(list: MdNode, ft: Seq<char>) -> bool {
    let n = list.children@.len() as int;
    all_ones_list(n, start_index(list), if n > 1 {
        range_of(ft, list.children@[1].start as int, list.children@[1].end as int)
    } else {
        Seq::empty()
    })
}

/// Whether the items print a line break or text.
pub open spec fn prints_something(items: Seq<PrintItemView>) -> bool {
    exists|i: int|
        0 <= i < items.len() && (#[trigger] items[i] == sig(PrintSignal::NewLine) || (items[i] matches PrintItemView::Text(
            t,
        ) && t.len() > 0))
}

/// The items of the list's items from `i` on.
pub open spec fn list_items_from(list: MdNode, alternate: bool, ctx: GenContext, ft: Seq<char>, dir: Seq<char>, i: int) -> Seq<
    PrintItemView,
>
    decreases list, 2int, list.children@.len() - i, 0int,
{
    let n = list.children@.len() as int;
    if i < 0 || i >= n {
        Seq::empty()
    } else {
        let marker = list_marker(start_index(list), i, alternate, list_all_ones(list, ft), bullet_of(ctx.cfg, alternate));
        let child = node_items(list.children@[i], in_list(ctx), ft, dir);
        separator_items(item_separators(i, blank_line_before(ft, list.children@[i].start as int))) + seq![
            PrintItemView::Text(marker),
        ] + (if prints_something(child) {
            seq![sig(PrintSignal::SpaceIfNotTrailing)]
        } else {
            Seq::empty()
        }) + indented(child, ((marker.len() + 1) as u32) as nat) + list_items_from(list, alternate, ctx, ft, dir, i + 1)
    }
}

/// The task marker of a paragraph or item and the space after it.
pub open spec fn marker_items(marker: Option<bool>, has_children: bool) -> Seq<PrintItemView> {
    match marker {
        Some(checked) => seq![PrintItemView::Text(task_marker_text(checked))] + if has_children {
            seq![PrintItemView::Text(seq![' '])]
        } else {
            Seq::empty()
        },
        None => Seq::empty(),
    }
}

/// The children `[lo, hi)` after a task marker: those up to the first
/// block or blank line indented by four where there is a marker, the line
/// breaks between, and the rest.
pub open spec fn marker_children_items(
    node: MdNode,
    has_marker: bool,
    lo: int,
    hi: int,
    ctx: GenContext,
    ft: Seq<char>, dir: Seq<char>,
) -> Seq<PrintItemView>
    decreases node, 3int, 1int, 0int,
{
    if 0 <= lo <= hi <= node.children@.len() {
        let infos = child_infos(node.children@.subrange(lo, hi), ft);
        let e = lo + marker_run_end(infos);
        indented(children_items(node, lo, e, ctx, ft, dir), if has_marker {
            4
        } else {
            0
        }) + separator_items(marker_run_separators(infos)) + children_items(node, e, hi, ctx, ft, dir)
    } else {
        Seq::empty()
    }
}

/// The kind of a print item for the prefixing of block quotes.
pub open spec fn quote_kind(i: PrintItemView) -> QuoteItem {
    match i {
        PrintItemView::Text(_) => QuoteItem::Text,
        PrintItemView::Signal(PrintSignal::NewLine) => QuoteItem::NewLine,
        PrintItemView::Signal(PrintSignal::StartIndent) => QuoteItem::StartIndent,
        PrintItemView::Signal(PrintSignal::FinishIndent) => QuoteItem::FinishIndent,
        _ => QuoteItem::Other,
    }
}

/// The kinds of print items.
pub open spec fn quote_kinds(items: Seq<PrintItemView>) -> Seq<QuoteItem> {
    items.map_values(|i: PrintItemView| quote_kind(i))
}

/// The items of the steps of a block quote.
pub open spec fn quote_step_items(steps: Seq<QuoteStepView>, items: Seq<PrintItemView>) -> Seq<PrintItemView> {
    steps.map_values(
        |st: QuoteStepView|
            match st {
                QuoteStepView::TextPrefix(l, p) => line_prefix(l, p),
                QuoteStepView::NewLinePrefix(l, p) => line_prefix(l, p),
                QuoteStepView::Item(i) => items[i],
            },
    )
}

/// The items inside `depth` block quotes: a `>` prefix before each text and
/// each line break that comes at the start of a line, as `gen_block_quote`
/// plans it, where every indented section that ends was started.
pub open spec fn quoted(items: Seq<PrintItemView>, depth: usize) -> Seq<PrintItemView> {
    if levels_fit(quote_kinds(items), 0, 0) {
        quote_step_items(quote_from(quote_kinds(items), depth, 0, 0), items)
    } else {
        items
    }
}

/// The prefix of a line inside a block quote, at an indentation level: the
/// indentation ended, the prefix, and the indentation started again.
pub open spec fn line_prefix(level: int, prefix: Seq<char>) -> PrintItemView {
    PrintItemView::IfStartOfLine(
        Seq::new(level as nat, |k: int| sig(PrintSignal::FinishIndent)) + seq![PrintItemView::Text(prefix)] + Seq::new(
            level as nat,
            |k: int| sig(PrintSignal::StartIndent),
        ),
    )
}

/// The items of a code block: its text line by line, indented by four for
/// an indented block. The code is what the embedded formatter returned for
/// its language, when it did, or its own code.
pub open spec fn code_block_items(code: Seq<char>, tag: Option<Seq<char>>, fenced: bool, formatted: Option<Seq<char>>) -> Seq<
    PrintItemView,
> {
    let code_text = trim_end(match formatted {
        Some(f) => f,
        None => crate::gen_code::block_code(code),
    });
    let text = code_block_text(code_text, tag, fenced);
    indented(string_items(text, false), if fenced {
        0
    } else {
        4
    })
}

/// The destination and title of a link node.
pub open spec fn link_parts(data: NodeData) -> (Seq<char>, Option<Seq<char>>) {
    match data {
        NodeData::Link(d, t) => (d@, match t {
            Some(v) => Some(v@),
            None => None,
        }),
        _ => (Seq::empty(), None),
    }
}

/// Items in a group that is broken into lines last.
pub open spec fn group(items: Seq<PrintItemView>) -> Seq<PrintItemView> {
    wrapped(items, PrintSignal::StartNewLineGroup, PrintSignal::FinishNewLineGroup)
}

/// The items of the cells of row `r` of a table from cell `c` on: `| `
/// before the first, a space before the others, and ` |` after each.
pub open spec fn row_cells_items(table: MdNode, r: int, c: int, ctx: GenContext, ft: Seq<char>, dir: Seq<char>) -> Seq<PrintItemView>
    decreases table, 2int, table.children@.len() - r, table.children@[r].children@.len() - c,
{
    if r < 0 || r >= table.children@.len() || c < 0 || c >= table.children@[r].children@.len() {
        Seq::empty()
    } else {
        let cell = table.children@[r].children@[c];
        seq![PrintItemView::Text(if c == 0 {
            seq!['|', ' ']
        } else {
            seq![' ']
        })] + children_items(cell, 0, cell.children@.len() as int, ctx, ft, dir) + seq![PrintItemView::Text(seq![' ', '|'])]
            + row_cells_items(table, r, c + 1, ctx, ft, dir)
    }
}

/// The printed text of the cells of row `r` of a table from cell `c` on.
pub open spec fn row_cell_texts(table: MdNode, r: int, c: int, ctx: GenContext, ft: Seq<char>, dir: Seq<char>) -> Seq<Seq<char>>
    decreases table, 2int, table.children@.len() - r, table.children@[r].children@.len() - c,
{
    if r < 0 || r >= table.children@.len() || c < 0 || c >= table.children@[r].children@.len() {
        Seq::empty()
    } else {
        let cell = table.children@[r].children@[c];
        seq![
            measured(
                wrapped(
                    children_items(cell, 0, cell.children@.len() as int, ctx, ft, dir),
                    PrintSignal::StartForceNoNewLines,
                    PrintSignal::FinishForceNoNewLines,
                ),
                measure_settings(),
            ).unwrap_or(Seq::empty()),
        ] + row_cell_texts(table, r, c + 1, ctx, ft, dir)
    }
}

/// The printed text of the cells of the body rows from row `r` on.
pub open spec fn body_cell_texts(table: MdNode, r: int, ctx: GenContext, ft: Seq<char>, dir: Seq<char>) -> Seq<Seq<Seq<char>>>
    decreases table, 2int, table.children@.len() - r + 1, 0int,
{
    if r < 1 || r >= table.children@.len() {
        Seq::empty()
    } else {
        seq![row_cell_texts(table, r, 0, ctx, ft, dir)] + body_cell_texts(table, r + 1, ctx, ft, dir)
    }
}

/// The items of the body rows of a compact table from row `r` on, each
/// after a line break.
pub open spec fn compact_rows_items(table: MdNode, r: int, ctx: GenContext, ft: Seq<char>, dir: Seq<char>) -> Seq<PrintItemView>
    decreases table, 2int, table.children@.len() - r + 1, 0int,
{
    if r < 1 || r >= table.children@.len() {
        Seq::empty()
    } else {
        seq![sig(PrintSignal::NewLine)] + wrapped(
            row_cells_items(table, r, 0, ctx, ft, dir),
            PrintSignal::StartForceNoNewLines,
            PrintSignal::FinishForceNoNewLines,
        ) + compact_rows_items(table, r + 1, ctx, ft, dir)
    }
}

/// The alignments of a table node.
pub open spec fn table_alignments(table: MdNode) -> Seq<ColumnAlignment> {
    match table.data {
        NodeData::Table(a) => a@,
        _ => Seq::empty(),
    }
}

/// The number of cells of the widest row of a table, and of the alignments.
pub open spec fn table_width(table: MdNode) -> nat {
    let n = table.children@.len() as int;
    crate::gen_block::column_count(
        if n > 0 {
            table.children@[0].children@.len() as usize
        } else {
            0
        },
        Seq::new(if n > 1 {
            (n - 1) as nat
        } else {
            0
        }, |r: int| table.children@[r + 1].children@.len() as usize),
        table_alignments(table).len() as usize,
    )
}

/// The items of a table. Compact: the header row, the divider row and the
/// body rows, each without line breaks, with the cells' own items. Aligned:
/// the lines of the aligned table made from the cells' printed text.
pub open spec fn table_items(table: MdNode, ctx: GenContext, ft: Seq<char>, dir: Seq<char>) -> Seq<PrintItemView>
    decreases table, 3int, 0int, 0int,
{
    let n = table.children@.len() as int;
    if n == 0 {
        Seq::empty()
    } else {
        match ctx.cfg.table_format {
            TableFormat::Compact => wrapped(
                row_cells_items(table, 0, 0, ctx, ft, dir),
                PrintSignal::StartForceNoNewLines,
                PrintSignal::FinishForceNoNewLines,
            ) + seq![
                sig(PrintSignal::NewLine),
                PrintItemView::Text(crate::gen_block::divider_row(table_width(table) as int, table_alignments(table))),
            ] + compact_rows_items(table, 1, ctx, ft, dir),
            TableFormat::Aligned => string_items(
                table_text(
                    row_cell_texts(table, 0, 0, ctx, ft, dir),
                    body_cell_texts(table, 1, ctx, ft, dir),
                    table_alignments(table),
                    TableFormat::Aligned,
                ),
                false,
            ),
        }
    }
}

/// A tree that the generator accepts: every node ends inside the text, a
/// text decoration ends after its first character, texts fit the machine,
/// an ordered list's numbers fit a `u64`, and the kinds that only stand
/// inside another node (task markers, and table rows outside tables) do
/// not stand alone. `in_table` says whether the node is a row of a table.
pub open spec fn tree_ok(node: MdNode, len: int, in_table: bool) -> bool
    decreases node,
{
    &&& node.end <= len
    &&& (node.kind == NodeKind::TextDecoration ==> node.end >= 1)
    &&& node.text@.len() < usize::MAX
    &&& (node.data matches NodeData::CodeBlock(_, _, Some(f)) ==> f@.len() < usize::MAX)
    &&& (node.data matches NodeData::List(Some(st)) ==> st + node.children@.len() <= u64::MAX)
    &&& node.kind != NodeKind::TaskListMarker
    &&& (!in_table ==> node.kind != NodeKind::TableHead && node.kind != NodeKind::TableRow)
    &&& forall|i: int|
        0 <= i < node.children@.len() ==> tree_ok(#[trigger] node.children@[i], len, node.kind == NodeKind::Table)
}

fn gap_facts_exec(n: &MdNode, prev: Option<&MdNode>, ctx: GenContext, ft: &[char]) -> (r: GapFacts)
    ensures
        r == gap_facts(*n, match prev {
            Some(p) => Some(*p),
            None => None,
        }, ctx, ft@),
{
    let new_line_count = match prev {
        Some(p) => newline_count_exec(range_of_exec(ft, p.end, n.start)),
        None => 0,
    };
    GapFacts {
        new_line_count,
        in_list: ctx.in_list,
        has_leading_blank_line: blank_line_before_exec(ft, n.start),
        in_block_quote: ctx.quote_depth > 0,
        text_wrap_disabled: ctx.wrap_disabled,
        text_wrap: ctx.cfg.text_wrap,
        has_preceding_space: space_before_exec(ft, n.start),
        last_ends_with_punctuation: match prev {
            Some(p) => punctuation_before_exec(ft, p.end),
            None => false,
        },
        starts_with_punctuation: punctuation_at_exec(ft, n.start),
        starts_with_list_word: n.facts.starts_with_list_word,
    }
}

fn node_info_exec(n: &MdNode, prev: Option<&MdNode>, ctx: GenContext, ft: &[char], dir: &[char]) -> (r: NodeInfo)
    ensures
        crate::gen_nodes::info_key(r) == crate::gen_nodes::info_key(node_info(*n, match prev {
            Some(p) => Some(*p),
            None => None,
        }, ctx, ft@, dir@)),
{
    let ordered = match &n.data {
        NodeData::List(Some(_)) => true,
        _ => false,
    };
    let kind = if n.kind == NodeKind::Html {
        ignore_comment_kind(range_of_exec(ft, n.start, n.end), dir)
    } else {
        IgnoreKind::NotIgnore
    };
    NodeInfo {
        kind: n.kind,
        ordered_list: ordered,
        start: n.start,
        end: n.end,
        text: copy_chars(n.text.as_slice()),
        facts: gap_facts_exec(n, prev, ctx, ft),
        is_ignore: kind == IgnoreKind::Ignore,
        is_ignore_start: kind == IgnoreKind::IgnoreStart,
        is_ignore_end: kind == IgnoreKind::IgnoreEnd,
    }
}

/// Returns the start of the spaces and tabs right before position `i`.
pub fn leading_start_exec(s: &[char], i: usize) -> (r: usize)
    requires
        i <= s@.len(),
    ensures
        r == leading_start(s@, i as int),
    decreases i,
{
    if i > 0 && (s[i - 1] == ' ' || s[i - 1] == '\t') {
        leading_start_exec(s, i - 1)
    } else {
        i
    }
}

/// Returns the text of `s` in `[a, b)`, or nothing where that is not a range.
pub fn range_of_exec(s: &[char], a: usize, b: usize) -> (r: &[char])
    ensures
        r@ == range_of(s@, a as int, b as int),
{
    if a <= b && b <= s.len() {
        &s[a..b]
    } else {
        let e: &[char] = &[];
        assert(e@ =~= Seq::<char>::empty());
        e
    }
}

/// Returns a copy of a print item.
pub fn clone_item(i: &PrintItem) -> (r: PrintItem)
    ensures
        item_view(r) == item_view(*i),
    decreases i,
{
    match i {
        PrintItem::Text(t) => PrintItem::Text(copy_chars(t.as_slice())),
        PrintItem::Signal(s) => PrintItem::Signal(*s),
        PrintItem::IfStartOfLine(v) => {
            let mut out: Vec<PrintItem> = Vec::new();
            let mut k: usize = 0;
            while k < v.len()
                invariant
                    *i is IfStartOfLine,
                    (*i)->IfStartOfLine_0 == *v,
                    k <= v@.len(),
                    out@.len() == k,
                    forall|j: int| 0 <= j < k ==> item_view(#[trigger] out@[j]) == item_view(v@[j]),
                decreases v.len() - k,
            {
                proof {
                    assert(decreases_to!(*i => (*i)->IfStartOfLine_0));
                    assert(decreases_to!(*v => v@));
                    assert(decreases_to!(v@ => v@[k as int]));
                }
                out.push(clone_item(&v[k]));
                k += 1;
            }
            let r = PrintItem::IfStartOfLine(out);
            proof {
                if let PrintItemView::IfStartOfLine(a) = item_view(r) {
                    if let PrintItemView::IfStartOfLine(b) = item_view(*i) {
                        assert(a =~= b);
                    }
                }
            }
            r
        },
        PrintItem::SpaceIfNoNewLinesElseNewLine => PrintItem::SpaceIfNoNewLinesElseNewLine,
    }
}

/// Returns whether every indented section of the kinds that ends was started.
fn quote_levels_ok(kinds: &[QuoteItem]) -> (r: bool)
    ensures
        r == levels_fit(kinds@, 0, 0),
{
    let mut level: u64 = 0;
    let mut i: usize = 0;
    while i < kinds.len()
        invariant
            i <= kinds@.len(),
            level <= u32::MAX,
            levels_fit(kinds@, 0, 0) == levels_fit(kinds@, i as int, level as int),
        decreases kinds.len() - i,
    {
        let next: u64 = match kinds[i] {
            QuoteItem::StartIndent | QuoteItem::QueueStartIndent => level + 1,
            QuoteItem::FinishIndent => {
                if level == 0 {
                    return false;
                }
                level - 1
            },
            _ => level,
        };
        if next > u32::MAX as u64 {
            return false;
        }
        level = next;
        i += 1;
    }
    true
}

/// Returns whether a link's text fits on one line: its UTF-8 length is
/// under half the line width.
fn fits_half_line(text: &[char], line_width: u32) -> (r: bool)
    ensures
        r == link_text_on_one_line(text@, line_width),
{
    let half: u64 = (line_width / 2) as u64;
    if half == 0 {
        return false;
    }
    let mut total: u64 = 0;
    let mut i: usize = 0;
    while i < text.len()
        invariant
            i <= text@.len(),
            total == utf8_len(text@.take(i as int)),
            total < half,
            half == (line_width / 2) as nat,
        decreases text.len() - i,
    {
        let c = text[i];
        let w: u64 = if (c as u32) < 0x80 {
            1
        } else if (c as u32) < 0x800 {
            2
        } else if (c as u32) < 0x10000 {
            3
        } else {
            4
        };
        assert(w == utf8_width(text@[i as int]));
        assert(text@.take(i + 1).drop_last() =~= text@.take(i as int));
        assert(utf8_len(text@.take(i + 1)) == utf8_len(text@.take(i as int)) + utf8_width(text@[i as int]));
        total = total + w;
        i += 1;
        if total >= half {
            proof {
                lemma_utf8_len_grows(text@, i as int, text@.len() as int);
                assert(text@.take(text@.len() as int) =~= text@);
            }
            return false;
        }
    }
    assert(text@.take(i as int) =~= text@);
    true
}

/// The UTF-8 length of a prefix grows with it.
proof fn lemma_utf8_len_grows(s: Seq<char>, i: int, j: int)
    requires
        0 <= i <= j <= s.len(),
    ensures
        utf8_len(s.take(i)) <= utf8_len(s.take(j)),
    decreases j - i,
{
    if i < j {
        lemma_utf8_len_grows(s, i, j - 1);
        assert(s.take(j).drop_last() =~= s.take(j - 1));
    }
}

/// A node that the generator accepts, as a row of a table or not.
pub open spec fn node_ok(n: MdNode, len: int) -> bool {
    tree_ok(n, len, false) || tree_ok(n, len, true)
}

/// The children of an accepted node are accepted.
proof fn lemma_children_ok(n: MdNode, len: int)
    requires
        node_ok(n, len),
    ensures
        forall|i: int| 0 <= i < n.children@.len() ==> node_ok(#[trigger] n.children@[i], len),
{
    assert forall|i: int| 0 <= i < n.children@.len() implies node_ok(#[trigger] n.children@[i], len) by {
        assert(tree_ok(n.children@[i], len, n.kind == NodeKind::Table));
    }
}

/// A child is smaller than its parent.
proof fn lemma_child_smaller(p: MdNode, i: int)
    requires
        0 <= i < p.children@.len(),
    ensures
        decreases_to!(p => p.children@[i]),
{
    assert(decreases_to!(p => p.children));
    assert(decreases_to!(p.children => p.children@));
    assert(decreases_to!(p.children@ => p.children@[i]));
}

/// The text of a code block is no longer than its code.
proof fn lemma_trim_end_len(s: Seq<char>)
    ensures
        trim_end(s).len() <= s.len(),
{
    crate::text::lemma_last_below_props(s.len() as int, crate::text::not_ws_at(s));
}

proof fn lemma_block_code_len(s: Seq<char>)
    ensures
        crate::gen_code::block_code(s).len() <= s.len(),
{
    crate::text::lemma_first_from_props(0, s.len() as int, crate::text::not_ws_at(s));
    crate::text::lemma_last_below_props(crate::text::ws_prefix_len(s), crate::text::char_at(s, '\n'));
    lemma_trim_end_len(s.skip(crate::gen_code::code_start(s)));
}

/// Returns copies of print items.
fn clone_items(v: &Vec<PrintItem>) -> (r: Vec<PrintItem>)
    ensures
        items_view(r@) == items_view(v@),
{
    let mut out: Vec<PrintItem> = Vec::new();
    let mut k: usize = 0;
    while k < v.len()
        invariant
            k <= v@.len(),
            items_view(out@) == items_view(v@.take(k as int)),
        decreases v.len() - k,
    {
        push_item(&mut out, clone_item(&v[k]));
        assert(items_view(v@.take(k + 1)) =~= items_view(v@.take(k as int)).push(item_view(v@[k as int])));
        k += 1;
    }
    assert(v@.take(k as int) =~= v@);
    out
}

/// Returns the items of the children `[lo, hi)` of `parent`.
fn gen_children(parent: &MdNode, lo: usize, hi: usize, ctx: GenContext, ft: &[char], dir: &[char]) -> (r: Vec<PrintItem>)
    requires
        lo <= hi <= parent.children@.len(),
        node_ok(*parent, ft@.len() as int),
    ensures
        items_view(r@) == children_items(*parent, lo as int, hi as int, ctx, ft@, dir@),
    decreases parent, 3int, 0int,
{
    proof {
        lemma_children_ok(*parent, ft@.len() as int);
    }
    let ghost sub = parent.children@.subrange(lo as int, hi as int);
    let mut infos: Vec<NodeInfo> = Vec::new();
    let mut prev: Option<usize> = None;
    let mut k = lo;
    while k < hi
        invariant
            lo <= k <= hi <= parent.children@.len(),
            sub == parent.children@.subrange(lo as int, hi as int),
            infos@.len() == k - lo,
            prev matches Some(p) ==> lo <= p < k,
            crate::text::last_below(k - lo, |j: int| sub[j].kind != NodeKind::SoftBreak) == match prev {
                Some(p) => p - lo,
                None => -1,
            },
            forall|j: int|
                0 <= j < k - lo ==> #[trigger] crate::gen_nodes::info_key(infos@[j]) == crate::gen_nodes::info_key(
                    node_info(sub[j], prev_sibling(sub, j), ctx, ft@, dir@),
                ),
        decreases hi - k,
    {
        let p: Option<&MdNode> = match prev {
            Some(i) => Some(&parent.children[i]),
            None => None,
        };
        assert(prev_sibling(sub, k - lo) == match p {
            Some(q) => Some(*q),
            None => None::<MdNode>,
        });
        infos.push(node_info_exec(&parent.children[k], p, ctx, ft, dir));
        if parent.children[k].kind != NodeKind::SoftBreak {
            prev = Some(k);
        }
        k += 1;
    }
    proof {
        let b = node_infos(sub, ctx, ft@, dir@);
        assert forall|j: int| 0 <= j < infos@.len() implies #[trigger] crate::gen_nodes::info_key(infos@[j])
            == crate::gen_nodes::info_key(b[j]) by {}
        crate::gen_nodes::lemma_plan_from_agree(infos@, b, 0, None);
    }
    let steps = gen_nodes(&infos);
    let ghost plan = plan_from(node_infos(sub, ctx, ft@, dir@), 0, None);
    assert(steps_view(steps@) == plan);
    let ghost whole = steps_items(*parent, lo as int, hi as int, ctx, ft@, dir@, plan, 0);
    let mut out: Vec<PrintItem> = Vec::new();
    let mut j: usize = 0;
    while j < steps.len()
        invariant
            lo <= hi <= parent.children@.len(),
            node_ok(*parent, ft@.len() as int),
            forall|i: int| 0 <= i < parent.children@.len() ==> node_ok(#[trigger] parent.children@[i], ft@.len() as int),
            plan == steps_view(steps@),
            j <= steps@.len(),
            whole == steps_items(*parent, lo as int, hi as int, ctx, ft@, dir@, plan, 0),
            items_view(out@) + steps_items(*parent, lo as int, hi as int, ctx, ft@, dir@, plan, j as int) == whole,
        decreases steps.len() - j,
    {
        let ghost before = items_view(out@);
        assert(plan[j as int] == crate::gen_nodes::step_view(steps@[j as int]));
        match &steps[j] {
            NodeStep::Separators(v) => push_separators(&mut out, v.as_slice()),
            NodeStep::Generate(k) => {
                if *k < hi - lo {
                    proof {
                        lemma_child_smaller(*parent, lo + *k);
                    }
                    let items = gen_node(&parent.children[lo + *k], ctx, ft, dir);
                    push_items(&mut out, items);
                }
            },
            NodeStep::GenerateAlternateList(k) => {
                if *k < hi - lo {
                    proof {
                        lemma_child_smaller(*parent, lo + *k);
                    }
                    let items = gen_list_items(&parent.children[lo + *k], true, ctx, ft, dir);
                    push_items(&mut out, items);
                }
            },
            NodeStep::NewLine => push_item(&mut out, PrintItem::Signal(PrintSignal::NewLine)),
            NodeStep::RawNode(k) => {
                if *k < hi - lo {
                    let c = &parent.children[lo + *k];
                    let st = if c.start <= ft.len() {
                        leading_start_exec(ft, c.start)
                    } else {
                        c.start
                    };
                    let text = trim_end_exec(range_of_exec(ft, st, c.end));
                    push_raw_items(&mut out, text, false);
                }
            },
            NodeStep::RawText(a, b, t) => {
                let r = range_of_exec(ft, *a, *b);
                let text = if *t {
                    trim_end_exec(r)
                } else {
                    r
                };
                push_raw_items(&mut out, text, false);
            },
        }
        assert(items_view(out@) + steps_items(*parent, lo as int, hi as int, ctx, ft@, dir@, plan, j + 1) =~= before
            + steps_items(*parent, lo as int, hi as int, ctx, ft@, dir@, plan, j as int));
        j += 1;
    }
    assert(items_view(out@) =~= whole);
    out
}

/// Returns whether the items print a line break or text.
fn prints_something_exec(items: &Vec<PrintItem>) -> (r: bool)
    ensures
        r == prints_something(items_view(items@)),
{
    let ghost v = items_view(items@);
    let mut i: usize = 0;
    while i < items.len()
        invariant
            v == items_view(items@),
            i <= items@.len(),
            forall|j: int|
                0 <= j < i ==> !(#[trigger] v[j] == sig(PrintSignal::NewLine) || (v[j] matches PrintItemView::Text(t) && t.len()
                    > 0)),
        decreases items.len() - i,
    {
        match &items[i] {
            PrintItem::Text(t) => {
                if t.len() > 0 {
                    assert(v[i as int] == item_view(items@[i as int]));
                    return true;
                }
            },
            PrintItem::Signal(PrintSignal::NewLine) => {
                assert(v[i as int] == item_view(items@[i as int]));
                return true;
            },
            _ => {},
        }
        assert(v[i as int] == item_view(items@[i as int]));
        i += 1;
    }
    false
}

/// Returns the items of a list's items.
#[verifier::spinoff_prover]
#[verifier::rlimit(60)]
fn gen_list_items(list: &MdNode, alternate: bool, ctx: GenContext, ft: &[char], dir: &[char]) -> (r: Vec<PrintItem>)
    requires
        node_ok(*list, ft@.len() as int),
    ensures
        items_view(r@) == list_items(*list, alternate, ctx, ft@, dir@),
    decreases list, 2int, 0int,
{
    proof {
        lemma_children_ok(*list, ft@.len() as int);
    }
    let n = list.children.len();
    let start: Option<u64> = match &list.data {
        NodeData::List(s) => *s,
        _ => None,
    };
    let mut blanks: Vec<bool> = Vec::new();
    let mut i: usize = 0;
    while i < n
        invariant
            n == list.children@.len(),
            i <= n,
            blanks@.len() == i,
            forall|j: int| 0 <= j < i ==> blanks@[j] == blank_line_before(ft@, #[trigger] list.children@[j].start as int),
        decreases n - i,
    {
        blanks.push(blank_line_before_exec(ft, list.children[i].start));
        i += 1;
    }
    let second: &[char] = if n > 1 {
        range_of_exec(ft, list.children[1].start, list.children[1].end)
    } else {
        let e: &[char] = &[];
        assert(e@ =~= Seq::<char>::empty());
        e
    };
    let all_ones = is_all_ones_list(n, start, second);
    assert(all_ones == list_all_ones(*list, ft@));
    let bullet = vec![if alternate {
        ctx.cfg.alternate_bullet
    } else {
        ctx.cfg.bullet
    }];
    assert(bullet@ =~= bullet_of(ctx.cfg, alternate));
    assert(start == start_index(*list));
    let plans = gen_list(start, blanks.as_slice(), alternate, all_ones, bullet.as_slice());
    let ghost whole = list_items_from(*list, alternate, ctx, ft@, dir@, 0);
    let mut out: Vec<PrintItem> = Vec::new();
    let mut i: usize = 0;
    while i < n
        invariant
            n == list.children@.len(),
            plans@.len() == n,
            blanks@.len() == n,
            forall|j: int| 0 <= j < n ==> blanks@[j] == blank_line_before(ft@, #[trigger] list.children@[j].start as int),
            forall|j: int|
                0 <= j < n ==> #[trigger] item_plan_view(plans@[j]) == (
                    item_separators(j, blanks@[j]),
                    list_marker(start, j, alternate, all_ones, bullet@),
                    ((list_marker(start, j, alternate, all_ones, bullet@).len() + 1) as u32) as int,
                ),
            start == start_index(*list),
            all_ones == list_all_ones(*list, ft@),
            bullet@ == bullet_of(ctx.cfg, alternate),
            forall|j: int| 0 <= j < n ==> node_ok(#[trigger] list.children@[j], ft@.len() as int),
            i <= n,
            whole == list_items_from(*list, alternate, ctx, ft@, dir@, 0),
            items_view(out@) + list_items_from(*list, alternate, ctx, ft@, dir@, i as int) == whole,
        decreases n - i,
    {
        let ghost before = items_view(out@);
        let plan = &plans[i];
        assert(item_plan_view(plans@[i as int]) == item_plan_view(*plan));
        push_separators(&mut out, plan.separators.as_slice());
        push_item(&mut out, PrintItem::Text(copy_chars(plan.marker.as_slice())));
        proof {
            lemma_child_smaller(*list, i as int);
        }
        let child = gen_node(&list.children[i], in_list_exec(ctx), ft, dir);
        if prints_something_exec(&child) {
            push_item(&mut out, PrintItem::Signal(PrintSignal::SpaceIfNotTrailing));
        }
        push_indented(&mut out, child, plan.indent);
        assert(items_view(out@) + list_items_from(*list, alternate, ctx, ft@, dir@, i + 1) =~= before + list_items_from(
            *list,
            alternate,
            ctx,
            ft@, dir@,
            i as int,
        ));
        i += 1;
    }
    assert(items_view(out@) =~= whole);
    out
}

fn in_list_exec(ctx: GenContext) -> (r: GenContext)
    ensures
        r == in_list(ctx),
{
    GenContext { in_list: true, ..ctx }
}

fn no_wrap_exec(ctx: GenContext) -> (r: GenContext)
    ensures
        r == no_wrap(ctx),
{
    GenContext { wrap_disabled: true, ..ctx }
}

/// Returns the items of a heading.
fn gen_heading_items(node: &MdNode, ctx: GenContext, ft: &[char], dir: &[char]) -> (r: Vec<PrintItem>)
    requires
        node_ok(*node, ft@.len() as int),
        node.kind == NodeKind::Heading,
    ensures
        items_view(r@) == node_items(*node, ctx, ft@, dir@),
    decreases node, 4int, 0int,
{
    let level: u8 = match &node.data {
        NodeData::Heading(l) => *l,
        _ => 1,
    };
    let content = gen_children(node, 0, node.children.len(), ctx, ft, dir);
    let ghost cv = items_view(content@);
    let mut out: Vec<PrintItem> = Vec::new();
    if crate::gen_block::is_setext_heading(level, ctx.cfg.heading_kind) {
        let settings = PrintSettings { indent_width: 0, max_width: ctx.cfg.line_width, use_tabs: false, new_line_text: "\n" };
        assert(settings == wrap_settings(ctx.cfg.line_width));
        let wrapped_chars = measure_exec(&content, &settings);
        let width = if is_printable(&content) {
            measure_longest_line_width(wrapped_chars.as_slice())
        } else {
            0
        };
        push_items(&mut out, content);
        push_item(&mut out, PrintItem::Signal(PrintSignal::NewLine));
        push_item(&mut out, PrintItem::Text(gen_heading_underline(level, width)));
    } else {
        push_item(&mut out, PrintItem::Text(gen_heading_prefix(level)));
        push_wrapped(&mut out, content, PrintSignal::StartForceNoNewLines, PrintSignal::FinishForceNoNewLines);
    }
    assert(items_view(out@) =~= node_items(*node, ctx, ft@, dir@));
    out
}

/// Appends a task marker and the space after it.
fn push_marker(out: &mut Vec<PrintItem>, layout_marker: Option<Vec<char>>, space: bool, marker: Option<bool>, has_children: bool)
    requires
        match marker {
            Some(checked) => layout_marker matches Some(m) && m@ == task_marker_text(checked),
            None => layout_marker is None,
        },
        space == (marker is Some && has_children),
    ensures
        items_view(final(out)@) == items_view(old(out)@) + marker_items(marker, has_children),
{
    let ghost before = items_view(out@);
    if let Some(m) = layout_marker {
        push_item(out, PrintItem::Text(m));
        if space {
            let sp = vec![' '];
            assert(sp@ =~= seq![' ']);
            push_item(out, PrintItem::Text(sp));
        }
    }
    assert(items_view(out@) =~= before + marker_items(marker, has_children));
}

/// Returns the items of the children `[lo, hi)` after a task marker.
fn gen_marker_children(node: &MdNode, has_marker: bool, lo: usize, hi: usize, ctx: GenContext, ft: &[char], dir: &[char]) -> (r: Vec<
    PrintItem,
>)
    requires
        node_ok(*node, ft@.len() as int),
        lo <= hi <= node.children@.len(),
    ensures
        items_view(r@) == marker_children_items(*node, has_marker, lo as int, hi as int, ctx, ft@, dir@),
    decreases node, 3int, 1int,
{
    let ghost sub = node.children@.subrange(lo as int, hi as int);
    let mut infos: Vec<ChildInfo> = Vec::new();
    let mut k = lo;
    while k < hi
        invariant
            lo <= k <= hi <= node.children@.len(),
            sub == node.children@.subrange(lo as int, hi as int),
            infos@ == child_infos(sub, ft@).take(k - lo),
        decreases hi - k,
    {
        infos.push(ChildInfo { kind: node.children[k].kind, has_leading_blank_line: blank_line_before_exec(ft, node.children[k].start) });
        k += 1;
        assert(infos@ =~= child_infos(sub, ft@).take(k - lo));
    }
    assert(infos@ =~= child_infos(sub, ft@));
    let layout = gen_task_list_marker_children(infos.as_slice(), has_marker);
    proof {
        crate::text::lemma_first_from_props(0, infos@.len() as int, |j: int| crate::gen_nodes::ends_marker_run(infos@[j]));
    }
    assert(layout.indented_end <= hi - lo);
    let e = lo + layout.indented_end;
    let mut out: Vec<PrintItem> = Vec::new();
    let first = gen_children(node, lo, e, ctx, ft, dir);
    push_indented(&mut out, first, layout.marker_indent);
    push_separators(&mut out, layout.separators.as_slice());
    let rest = gen_children(node, e, hi, ctx, ft, dir);
    push_items(&mut out, rest);
    assert(items_view(out@) =~= marker_children_items(*node, has_marker, lo as int, hi as int, ctx, ft@, dir@));
    out
}

/// Returns the items of a paragraph or list item.
#[verifier::spinoff_prover]
#[verifier::rlimit(80)]
fn gen_marked_items(node: &MdNode, ctx: GenContext, ft: &[char], dir: &[char]) -> (r: Vec<PrintItem>)
    requires
        node_ok(*node, ft@.len() as int),
        node.kind == NodeKind::Paragraph || node.kind == NodeKind::Item,
    ensures
        items_view(r@) == node_items(*node, ctx, ft@, dir@),
    decreases node, 4int, 0int,
{
    let n = node.children.len();
    let mut out: Vec<PrintItem> = Vec::new();
    if node.kind == NodeKind::Paragraph {
        let marker: Option<bool> = match &node.data {
            NodeData::Marker(m) => *m,
            _ => None,
        };
        let layout = crate::gen_nodes::gen_paragraph(marker, n > 0);
        push_marker(&mut out, layout.marker, layout.space_after_marker, marker, n > 0);
        let children = gen_marker_children(node, marker.is_some(), 0, n, ctx, ft, dir);
        push_items(&mut out, children);
    } else {
        let (marker, from): (Option<bool>, usize) = match &node.data {
            NodeData::Item(m, f) => (*m, if *f <= n {
                *f
            } else {
                n
            }),
            _ => (None, n),
        };
        let first_sub_list: Option<bool> = if from < n {
            Some(blank_line_before_exec(ft, node.children[from].start))
        } else {
            None
        };
        let layout = crate::gen_nodes::gen_item(marker, from > 0, first_sub_list);
        push_marker(&mut out, layout.marker, layout.space_after_marker, marker, from > 0);
        let children = gen_marker_children(node, marker.is_some(), 0, from, ctx, ft, dir);
        push_items(&mut out, children);
        push_separators(&mut out, layout.sub_list_separators.as_slice());
        if from < n {
            let subs = gen_children(node, from, n, ctx, ft, dir);
            push_items(&mut out, subs);
        }
    }
    assert(items_view(out@) =~= node_items(*node, ctx, ft@, dir@));
    out
}

/// Returns the items of a block quote.
fn gen_quote_items(node: &MdNode, ctx: GenContext, ft: &[char], dir: &[char]) -> (r: Vec<PrintItem>)
    requires
        node_ok(*node, ft@.len() as int),
        node.kind == NodeKind::BlockQuote,
    ensures
        items_view(r@) == node_items(*node, ctx, ft@, dir@),
    decreases node, 4int, 0int,
{
    let depth = if ctx.quote_depth < usize::MAX {
        ctx.quote_depth + 1
    } else {
        ctx.quote_depth
    };
    let inner_ctx = GenContext { quote_depth: depth, ..ctx };
    let inner = gen_children(node, 0, node.children.len(), inner_ctx, ft, dir);
    let ghost iv = items_view(inner@);
    let mut kinds: Vec<QuoteItem> = Vec::new();
    let mut i: usize = 0;
    while i < inner.len()
        invariant
            iv == items_view(inner@),
            i <= inner@.len(),
            kinds@ == quote_kinds(iv).take(i as int),
        decreases inner.len() - i,
    {
        let k = match &inner[i] {
            PrintItem::Text(_) => QuoteItem::Text,
            PrintItem::Signal(PrintSignal::NewLine) => QuoteItem::NewLine,
            PrintItem::Signal(PrintSignal::StartIndent) => QuoteItem::StartIndent,
            PrintItem::Signal(PrintSignal::FinishIndent) => QuoteItem::FinishIndent,
            _ => QuoteItem::Other,
        };
        assert(iv[i as int] == item_view(inner@[i as int]));
        kinds.push(k);
        i += 1;
        assert(kinds@ =~= quote_kinds(iv).take(i as int));
    }
    assert(kinds@ =~= quote_kinds(iv));
    let mut out: Vec<PrintItem> = Vec::new();
    if quote_levels_ok(kinds.as_slice()) {
        let steps = gen_block_quote(kinds.as_slice(), depth);
        let ghost sv = steps@.map_values(|q: QuoteStep| quote_step_view(q));
        proof {
            lemma_quote_items_in_range(kinds@, depth, 0, 0);
        }
        let mut j: usize = 0;
        while j < steps.len()
            invariant
                iv == items_view(inner@),
                sv == steps@.map_values(|q: QuoteStep| quote_step_view(q)),
                sv == quote_from(kinds@, depth, 0, 0),
                kinds@.len() == inner@.len(),
                forall|m: int| 0 <= m < sv.len() ==> (#[trigger] sv[m] matches QuoteStepView::Item(x) ==> 0 <= x < kinds@.len()),
                j <= steps@.len(),
                items_view(out@) == quote_step_items(sv, iv).take(j as int),
            decreases steps.len() - j,
        {
            assert(sv[j as int] == quote_step_view(steps@[j as int]));
            let item = match &steps[j] {
                QuoteStep::TextPrefix(l, p) => line_prefix_item(*l, p),
                QuoteStep::NewLinePrefix(l, p) => line_prefix_item(*l, p),
                QuoteStep::Item(x) => {
                    assert(iv[*x as int] == item_view(inner@[*x as int]));
                    clone_item(&inner[*x])
                },
            };
            push_item(&mut out, item);
            j += 1;
            assert(items_view(out@) =~= quote_step_items(sv, iv).take(j as int));
        }
        assert(quote_step_items(sv, iv).take(j as int) =~= quote_step_items(sv, iv));
    } else {
        out = inner;
    }
    assert(node_items(*node, ctx, ft@, dir@) == quoted(iv, depth));
    out
}

/// Every item step of a block quote plan refers to an item.
proof fn lemma_quote_items_in_range(items: Seq<QuoteItem>, depth: usize, i: int, level: int)
    requires
        0 <= i,
    ensures
        forall|m: int|
            0 <= m < quote_from(items, depth, i, level).len() ==> (#[trigger] quote_from(items, depth, i, level)[m] matches QuoteStepView::Item(
                x,
            ) ==> i <= x < items.len()),
    decreases items.len() - i,
{
    if i < items.len() {
        let next = crate::gen_block::level_after(items[i], level);
        lemma_quote_items_in_range(items, depth, i + 1, next);
        let r = quote_from(items, depth, i, level);
        let rest = quote_from(items, depth, i + 1, next);
        assert forall|m: int| 0 <= m < r.len() implies (#[trigger] r[m] matches QuoteStepView::Item(x) ==> i <= x
            < items.len()) by {
            match items[i] {
                QuoteItem::Text | QuoteItem::NewLine => {
                    if m >= 2 {
                        assert(r[m] == rest[m - 2]);
                    }
                },
                _ => {
                    if m >= 1 {
                        assert(r[m] == rest[m - 1]);
                    }
                },
            }
        }
    }
}

/// Returns the prefix of a line inside a block quote.
fn line_prefix_item(level: u32, prefix: &Vec<char>) -> (r: PrintItem)
    ensures
        item_view(r) == line_prefix(level as int, prefix@),
{
    let mut v: Vec<PrintItem> = Vec::new();
    let mut k: u32 = 0;
    while k < level
        invariant
            k <= level,
            items_view(v@) == Seq::new(k as nat, |j: int| sig(PrintSignal::FinishIndent)),
        decreases level - k,
    {
        push_item(&mut v, PrintItem::Signal(PrintSignal::FinishIndent));
        k += 1;
        assert(items_view(v@) =~= Seq::new(k as nat, |j: int| sig(PrintSignal::FinishIndent)));
    }
    push_item(&mut v, PrintItem::Text(copy_chars(prefix.as_slice())));
    let ghost mid = items_view(v@);
    let mut k: u32 = 0;
    while k < level
        invariant
            k <= level,
            items_view(v@) == mid + Seq::new(k as nat, |j: int| sig(PrintSignal::StartIndent)),
        decreases level - k,
    {
        push_item(&mut v, PrintItem::Signal(PrintSignal::StartIndent));
        k += 1;
        assert(items_view(v@) =~= mid + Seq::new(k as nat, |j: int| sig(PrintSignal::StartIndent)));
    }
    let r = PrintItem::IfStartOfLine(v);
    proof {
        if let PrintItemView::IfStartOfLine(a) = item_view(r) {
            if let PrintItemView::IfStartOfLine(b) = line_prefix(level as int, prefix@) {
                assert(a =~= items_view(v@));
                assert(a =~= b);
            }
        }
    }
    r
}

/// The optional characters of an optional vector.
fn opt_slice(o: &Option<Vec<char>>) -> (r: Option<&[char]>)
    ensures
        crate::gen_inline::opt_chars(r) == match o {
            Some(v) => Some(v@),
            None => None::<Seq<char>>,
        },
{
    match o {
        Some(v) => Some(v.as_slice()),
        None => None,
    }
}

/// Returns the items of a leaf node: code, text, ranges, footnote
/// references, link references, images, rules, breaks, metadata blocks
/// and unhandled nodes.
#[verifier::spinoff_prover]
#[verifier::rlimit(60)]
fn gen_leaf_items(node: &MdNode, ctx: GenContext, ft: &[char], dir: &[char]) -> (r: Vec<PrintItem>)
    requires
        node_ok(*node, ft@.len() as int),
        node.kind == NodeKind::CodeBlock || node.kind == NodeKind::Code || node.kind == NodeKind::Text || node.kind
            == NodeKind::Html || node.kind == NodeKind::DisplayMath || node.kind == NodeKind::InlineMath || node.kind
            == NodeKind::FootnoteReference || node.kind == NodeKind::LinkReference || node.kind
            == NodeKind::InlineImage || node.kind == NodeKind::ReferenceImage || node.kind == NodeKind::HorizontalRule
            || node.kind == NodeKind::SoftBreak || node.kind == NodeKind::HardBreak || node.kind
            == NodeKind::MetadataBlock || node.kind == NodeKind::NotImplemented,
    ensures
        items_view(r@) == node_items(*node, ctx, ft@, dir@),
{
    let mut out: Vec<PrintItem> = Vec::new();
    match node.kind {
        NodeKind::CodeBlock => {
            let empty: Option<Vec<char>> = None;
            let (tag, fenced, formatted): (&Option<Vec<char>>, bool, &Option<Vec<char>>) = match &node.data {
                NodeData::CodeBlock(t, f, o) => (t, *f, o),
                _ => (&empty, true, &empty),
            };
            let source: &[char] = match formatted {
                Some(f) => f.as_slice(),
                None => get_code_text(node.text.as_slice()),
            };
            proof {
                lemma_block_code_len(node.text@);
            }
            let code_text = trim_end_exec(source);
            proof {
                lemma_trim_end_len(source@);
            }
            let (text, indent) = gen_code_block(code_text, opt_slice(tag), fenced);
            let mut lines: Vec<PrintItem> = Vec::new();
            push_string_items(&mut lines, text.as_slice(), false);
            push_indented(&mut out, lines, indent);
        },
        NodeKind::Code => {
            let code = gen_code(node.text.as_slice());
            push_line_items(&mut out, code.as_slice());
        },
        NodeKind::Text => {
            let empty: Vec<bool> = Vec::new();
            let flags: &Vec<bool> = match &node.data {
                NodeData::Text(f) => f,
                _ => &empty,
            };
            let maintain = ctx.cfg.text_wrap == TextWrap::Maintain;
            let words = text_words(node.text.as_slice(), maintain);
            let ghost ws = words@.map_values(|w: crate::gen_inline::Word| word_view(w));
            let mut i: usize = 0;
            while i < words.len()
                invariant
                    ws == words@.map_values(|w: crate::gen_inline::Word| word_view(w)),
                    i <= ws.len(),
                    items_view(out@) + text_items(ws, flags@, ctx, i as int) == text_items(ws, flags@, ctx, 0),
                decreases words.len() - i,
            {
                let ghost before = items_view(out@);
                let flag = i < flags.len() && flags[i];
                assert(ws[i as int] == word_view(words@[i as int]));
                let sep = gen_word_separator(i == 0, flag, words[i].after_newline, ctx.cfg.text_wrap, ctx.wrap_disabled);
                if let Some(sp) = sep {
                    let v = vec![sp];
                    assert(v@ =~= seq![sp]);
                    push_separators(&mut out, v.as_slice());
                }
                push_line_items(&mut out, words[i].text.as_slice());
                assert(items_view(out@) + text_items(ws, flags@, ctx, i + 1) =~= before + text_items(ws, flags@, ctx, i as int));
                i += 1;
            }
            assert(items_view(out@) =~= text_items(ws, flags@, ctx, 0));
        },
        NodeKind::Html | NodeKind::DisplayMath | NodeKind::InlineMath => {
            if node.start <= node.end && node.end <= ft.len() {
                out = gen_range(ft, node.start, node.end);
            }
        },
        NodeKind::FootnoteReference => {
            let mut inner: Vec<PrintItem> = Vec::new();
            push_item(&mut inner, PrintItem::Text(gen_footnote_reference(node.text.as_slice())));
            push_wrapped(&mut out, inner, PrintSignal::StartForceNoNewLines, PrintSignal::FinishForceNoNewLines);
        },
        NodeKind::LinkReference => {
            let empty: Vec<char> = Vec::new();
            let none: Option<Vec<char>> = None;
            let (link, title): (&Vec<char>, &Option<Vec<char>>) = match &node.data {
                NodeData::Link(d, t) => (d, t),
                _ => (&empty, &none),
            };
            assert(empty@ =~= Seq::<char>::empty());
            let mut inner: Vec<PrintItem> = Vec::new();
            push_item(&mut inner, PrintItem::Text(gen_link_reference(node.text.as_slice(), link.as_slice(), opt_slice(title))));
            push_wrapped(&mut out, inner, PrintSignal::StartNewLineGroup, PrintSignal::FinishNewLineGroup);
        },
        NodeKind::InlineImage | NodeKind::ReferenceImage => {
            let empty: Vec<char> = Vec::new();
            let none: Option<Vec<char>> = None;
            let (dest, title): (&Vec<char>, &Option<Vec<char>>) = match &node.data {
                NodeData::Link(d, t) => (d, t),
                _ => (&empty, &none),
            };
            assert(empty@ =~= Seq::<char>::empty());
            let text = if node.kind == NodeKind::InlineImage {
                gen_inline_image(node.text.as_slice(), dest.as_slice(), opt_slice(title))
            } else {
                gen_reference_image(node.text.as_slice(), dest.as_slice())
            };
            push_item(&mut out, PrintItem::Text(text));
        },
        NodeKind::HorizontalRule => {
            let t = vec!['-', '-', '-'];
            assert(t@ =~= seq!['-', '-', '-']);
            push_item(&mut out, PrintItem::Text(t));
        },
        NodeKind::HardBreak => {
            let t = vec!['\\'];
            assert(t@ =~= seq!['\\']);
            push_item(&mut out, PrintItem::Text(t));
            push_item(&mut out, PrintItem::Signal(PrintSignal::NewLine));
        },
        NodeKind::MetadataBlock => {
            let (kind, formatted): (MetadataBlockKind, Option<&[char]>) = match &node.data {
                NodeData::Metadata(k, f) => (*k, opt_slice(f)),
                _ => (MetadataBlockKind::YamlStyle, None),
            };
            out = gen_metadata_block(kind, node.text.as_slice(), formatted);
        },
        NodeKind::NotImplemented => {
            push_raw_items(&mut out, range_of_exec(ft, node.start, node.end), false);
        },
        _ => {},
    }
    assert(items_view(out@) =~= node_items(*node, ctx, ft@, dir@));
    out
}

/// Returns one text item.
fn text_item(t: &[char]) -> (r: Vec<PrintItem>)
    ensures
        items_view(r@) == seq![PrintItemView::Text(t@)],
{
    let mut out: Vec<PrintItem> = Vec::new();
    push_item(&mut out, PrintItem::Text(copy_chars(t)));
    assert(items_view(out@) =~= seq![PrintItemView::Text(t@)]);
    out
}

/// Returns the items of a decoration, footnote definition or link.
#[verifier::spinoff_prover]
#[verifier::rlimit(60)]
fn gen_inline_parent_items(node: &MdNode, ctx: GenContext, ft: &[char], dir: &[char]) -> (r: Vec<PrintItem>)
    requires
        node_ok(*node, ft@.len() as int),
        node.kind == NodeKind::TextDecoration || node.kind == NodeKind::FootnoteDefinition || node.kind
            == NodeKind::InlineLink || node.kind == NodeKind::ReferenceLink || node.kind == NodeKind::ShortcutLink
            || node.kind == NodeKind::AutoLink,
    ensures
        items_view(r@) == node_items(*node, ctx, ft@, dir@),
    decreases node, 4int, 0int,
{
    let n = node.children.len();
    let mut out: Vec<PrintItem> = Vec::new();
    match node.kind {
        NodeKind::TextDecoration => {
            let kind = match &node.data {
                NodeData::Decoration(k) => *k,
                _ => TextDecorationKind::Strikethrough,
            };
            let d = gen_text_decoration_delimiter(kind, ctx.cfg.emphasis, ctx.cfg.strong, ft, node.end);
            push_items(&mut out, text_item(d.as_slice()));
            let children = gen_children(node, 0, n, ctx, ft, dir);
            push_items(&mut out, children);
            push_items(&mut out, text_item(d.as_slice()));
        },
        NodeKind::FootnoteDefinition => {
            push_item(&mut out, PrintItem::Text(gen_footnote_definition_label(node.text.as_slice())));
            let children = gen_children(node, 0, n, ctx, ft, dir);
            push_indented(&mut out, children, 4);
        },
        NodeKind::InlineLink => {
            let empty: Vec<char> = Vec::new();
            let none: Option<Vec<char>> = None;
            let (url, title): (&Vec<char>, &Option<Vec<char>>) = match &node.data {
                NodeData::Link(d, t) => (d, t),
                _ => (&empty, &none),
            };
            assert(empty@ =~= Seq::<char>::empty());
            let content = gen_children(node, 0, n, no_wrap_exec(ctx), ft, dir);
            let mut measured: Vec<PrintItem> = Vec::new();
            push_wrapped(&mut measured, clone_items(&content), PrintSignal::StartForceNoNewLines, PrintSignal::FinishForceNoNewLines);
            let settings = PrintSettings { indent_width: 0, max_width: u32::MAX, use_tabs: false, new_line_text: "" };
            assert(settings == measure_settings());
            let single = measure_exec(&measured, &settings);
            let open = ['['];
            assert(open@ =~= seq!['[']);
            let mut inner: Vec<PrintItem> = text_item(open.as_slice());
            if is_printable(&measured) && fits_half_line(single.as_slice(), ctx.cfg.line_width) {
                push_string_items(&mut inner, single.as_slice(), false);
            } else {
                push_items(&mut inner, content);
            }
            let close = [']'];
            assert(close@ =~= seq![']']);
            push_items(&mut inner, text_item(close.as_slice()));
            push_item(&mut inner, PrintItem::Text(gen_link_destination(url.as_slice(), opt_slice(title))));
            push_wrapped(&mut out, inner, PrintSignal::StartNewLineGroup, PrintSignal::FinishNewLineGroup);
        },
        _ => {
            let (open, close): (char, char) = if node.kind == NodeKind::AutoLink {
                ('<', '>')
            } else {
                ('[', ']')
            };
            let o = [open];
            let c = [close];
            assert(o@ =~= seq![open]);
            assert(c@ =~= seq![close]);
            let mut inner: Vec<PrintItem> = text_item(o.as_slice());
            let children = gen_children(node, 0, n, no_wrap_exec(ctx), ft, dir);
            push_items(&mut inner, children);
            push_items(&mut inner, text_item(c.as_slice()));
            if node.kind == NodeKind::ReferenceLink {
                push_item(&mut inner, PrintItem::Text(gen_reference_link_label(node.text.as_slice())));
            }
            push_wrapped(&mut out, inner, PrintSignal::StartNewLineGroup, PrintSignal::FinishNewLineGroup);
        },
    }
    assert(items_view(out@) =~= node_items(*node, ctx, ft@, dir@));
    out
}

/// Returns the items of the cells of row `r` of a table.
fn gen_row_cells(table: &MdNode, r: usize, ctx: GenContext, ft: &[char], dir: &[char]) -> (v: Vec<PrintItem>)
    requires
        node_ok(*table, ft@.len() as int),
        r < table.children@.len(),
    ensures
        items_view(v@) == row_cells_items(*table, r as int, 0, ctx, ft@, dir@),
    decreases table, 2int, 0int,
{
    proof {
        lemma_children_ok(*table, ft@.len() as int);
        lemma_children_ok(table.children@[r as int], ft@.len() as int);
        lemma_child_smaller(*table, r as int);
    }
    let row = &table.children[r];
    let m = row.children.len();
    let ghost whole = row_cells_items(*table, r as int, 0, ctx, ft@, dir@);
    let mut out: Vec<PrintItem> = Vec::new();
    let mut c: usize = 0;
    while c < m
        invariant
            r < table.children@.len(),
            *row == table.children@[r as int],
            m == row.children@.len(),
            c <= m,
            forall|i: int| 0 <= i < m ==> node_ok(#[trigger] row.children@[i], ft@.len() as int),
            decreases_to!(*table => *row),
            whole == row_cells_items(*table, r as int, 0, ctx, ft@, dir@),
            items_view(out@) + row_cells_items(*table, r as int, c as int, ctx, ft@, dir@) == whole,
        decreases m - c,
    {
        let ghost before = items_view(out@);
        let lead: Vec<char> = if c == 0 {
            vec!['|', ' ']
        } else {
            vec![' ']
        };
        assert(lead@ =~= (if c == 0 {
            seq!['|', ' ']
        } else {
            seq![' ']
        }));
        push_item(&mut out, PrintItem::Text(lead));
        proof {
            lemma_child_smaller(*row, c as int);
        }
        let cell = &row.children[c];
        let items = gen_children(cell, 0, cell.children.len(), ctx, ft, dir);
        push_items(&mut out, items);
        let tail = vec![' ', '|'];
        assert(tail@ =~= seq![' ', '|']);
        push_item(&mut out, PrintItem::Text(tail));
        assert(items_view(out@) + row_cells_items(*table, r as int, c + 1, ctx, ft@, dir@) =~= before + row_cells_items(
            *table,
            r as int,
            c as int,
            ctx,
            ft@, dir@,
        ));
        c += 1;
    }
    assert(items_view(out@) =~= whole);
    out
}

/// Returns the printed text of the cells of row `r` of a table.
fn gen_row_texts(table: &MdNode, r: usize, ctx: GenContext, ft: &[char], dir: &[char]) -> (v: Vec<Vec<char>>)
    requires
        node_ok(*table, ft@.len() as int),
        r < table.children@.len(),
    ensures
        cells_view(v@) == row_cell_texts(*table, r as int, 0, ctx, ft@, dir@),
    decreases table, 2int, 0int,
{
    proof {
        lemma_children_ok(*table, ft@.len() as int);
        lemma_children_ok(table.children@[r as int], ft@.len() as int);
        lemma_child_smaller(*table, r as int);
    }
    let row = &table.children[r];
    let m = row.children.len();
    let ghost whole = row_cell_texts(*table, r as int, 0, ctx, ft@, dir@);
    let mut out: Vec<Vec<char>> = Vec::new();
    let mut c: usize = 0;
    while c < m
        invariant
            r < table.children@.len(),
            *row == table.children@[r as int],
            m == row.children@.len(),
            c <= m,
            forall|i: int| 0 <= i < m ==> node_ok(#[trigger] row.children@[i], ft@.len() as int),
            decreases_to!(*table => *row),
            whole == row_cell_texts(*table, r as int, 0, ctx, ft@, dir@),
            cells_view(out@) + row_cell_texts(*table, r as int, c as int, ctx, ft@, dir@) == whole,
        decreases m - c,
    {
        let ghost before = cells_view(out@);
        proof {
            lemma_child_smaller(*row, c as int);
        }
        let cell = &row.children[c];
        let items = gen_children(cell, 0, cell.children.len(), ctx, ft, dir);
        let mut measured: Vec<PrintItem> = Vec::new();
        push_wrapped(&mut measured, items, PrintSignal::StartForceNoNewLines, PrintSignal::FinishForceNoNewLines);
        let settings = PrintSettings { indent_width: 0, max_width: u32::MAX, use_tabs: false, new_line_text: "" };
        assert(settings == measure_settings());
        let text = measure_exec(&measured, &settings);
        out.push(text);
        assert(cells_view(out@) + row_cell_texts(*table, r as int, c + 1, ctx, ft@, dir@) =~= before + row_cell_texts(
            *table,
            r as int,
            c as int,
            ctx,
            ft@, dir@,
        ));
        c += 1;
    }
    assert(cells_view(out@) =~= whole);
    out
}

/// Returns the items of a table.
#[verifier::spinoff_prover]
#[verifier::rlimit(60)]
fn gen_table_items(table: &MdNode, ctx: GenContext, ft: &[char], dir: &[char]) -> (r: Vec<PrintItem>)
    requires
        node_ok(*table, ft@.len() as int),
        table.kind == NodeKind::Table,
    ensures
        items_view(r@) == node_items(*table, ctx, ft@, dir@),
    decreases table, 4int, 0int,
{
    let n = table.children.len();
    let mut out: Vec<PrintItem> = Vec::new();
    if n == 0 {
        assert(items_view(out@) =~= node_items(*table, ctx, ft@, dir@));
        return out;
    }
    let empty: Vec<ColumnAlignment> = Vec::new();
    let aligns: &Vec<ColumnAlignment> = match &table.data {
        NodeData::Table(a) => a,
        _ => &empty,
    };
    assert(aligns@ == table_alignments(*table));
    match ctx.cfg.table_format {
        TableFormat::Compact => {
            let head = gen_row_cells(table, 0, ctx, ft, dir);
            push_wrapped(&mut out, head, PrintSignal::StartForceNoNewLines, PrintSignal::FinishForceNoNewLines);
            push_item(&mut out, PrintItem::Signal(PrintSignal::NewLine));
            let mut row_lens: Vec<usize> = Vec::new();
            let mut r: usize = 1;
            while r < n
                invariant
                    n == table.children@.len(),
                    1 <= r <= n,
                    row_lens@ == Seq::new((r - 1) as nat, |q: int| table.children@[q + 1].children@.len() as usize),
                decreases n - r,
            {
                row_lens.push(table.children[r].children.len());
                r += 1;
                assert(row_lens@ =~= Seq::new((r - 1) as nat, |q: int| table.children@[q + 1].children@.len() as usize));
            }
            let count = crate::gen_block::get_column_count(table.children[0].children.len(), row_lens.as_slice(), aligns.len());
            assert(count == table_width(*table));
            let divider = crate::gen_block::gen_divider_row(count, aligns.as_slice());
            push_item(&mut out, PrintItem::Text(divider));
            let ghost head_items = items_view(out@);
            let mut r: usize = 1;
            while r < n
                invariant
                    n == table.children@.len(),
                    node_ok(*table, ft@.len() as int),
                    1 <= r <= n,
                    items_view(out@) + compact_rows_items(*table, r as int, ctx, ft@, dir@) == head_items + compact_rows_items(
                        *table,
                        1,
                        ctx,
                        ft@, dir@,
                    ),
                decreases n - r,
            {
                let ghost before = items_view(out@);
                push_item(&mut out, PrintItem::Signal(PrintSignal::NewLine));
                let row = gen_row_cells(table, r, ctx, ft, dir);
                push_wrapped(&mut out, row, PrintSignal::StartForceNoNewLines, PrintSignal::FinishForceNoNewLines);
                assert(items_view(out@) + compact_rows_items(*table, r + 1, ctx, ft@, dir@) =~= before + compact_rows_items(
                    *table,
                    r as int,
                    ctx,
                    ft@, dir@,
                ));
                r += 1;
            }
        },
        TableFormat::Aligned => {
            let header = gen_row_texts(table, 0, ctx, ft, dir);
            let mut rows: Vec<Vec<Vec<char>>> = Vec::new();
            let ghost body = body_cell_texts(*table, 1, ctx, ft@, dir@);
            let mut r: usize = 1;
            while r < n
                invariant
                    n == table.children@.len(),
                    node_ok(*table, ft@.len() as int),
                    1 <= r <= n,
                    body == body_cell_texts(*table, 1, ctx, ft@, dir@),
                    rows@.map_values(|row: Vec<Vec<char>>| cells_view(row@)) + body_cell_texts(*table, r as int, ctx, ft@, dir@)
                        == body,
                decreases n - r,
            {
                let ghost before = rows@.map_values(|row: Vec<Vec<char>>| cells_view(row@));
                let texts = gen_row_texts(table, r, ctx, ft, dir);
                rows.push(texts);
                assert(rows@.map_values(|row: Vec<Vec<char>>| cells_view(row@)) + body_cell_texts(*table, r + 1, ctx, ft@, dir@)
                    =~= before + body_cell_texts(*table, r as int, ctx, ft@, dir@));
                r += 1;
            }
            assert(rows@.map_values(|row: Vec<Vec<char>>| cells_view(row@)) =~= body);
            let text = gen_table(&header, &rows, aligns.as_slice(), TableFormat::Aligned);
            push_string_items(&mut out, text.as_slice(), false);
        },
    }
    assert(items_view(out@) =~= node_items(*table, ctx, ft@, dir@));
    out
}

/// Returns the items of a node.
#[verifier::spinoff_prover]
fn gen_node(node: &MdNode, ctx: GenContext, ft: &[char], dir: &[char]) -> (r: Vec<PrintItem>)
    requires
        node_ok(*node, ft@.len() as int),
    ensures
        items_view(r@) == node_items(*node, ctx, ft@, dir@),
    decreases node, 5int, 0int,
{
    let n = node.children.len();
    match node.kind {
        NodeKind::List => {
            let r = gen_list_items(node, false, ctx, ft, dir);
            assert(node_items(*node, ctx, ft@, dir@) == list_items(*node, false, ctx, ft@, dir@));
            r
        },
        NodeKind::Heading => gen_heading_items(node, ctx, ft, dir),
        NodeKind::Paragraph | NodeKind::Item => gen_marked_items(node, ctx, ft, dir),
        NodeKind::BlockQuote => gen_quote_items(node, ctx, ft, dir),
        NodeKind::CodeBlock | NodeKind::Code | NodeKind::Text | NodeKind::Html | NodeKind::DisplayMath
        | NodeKind::InlineMath | NodeKind::FootnoteReference | NodeKind::LinkReference | NodeKind::InlineImage
        | NodeKind::ReferenceImage | NodeKind::HorizontalRule | NodeKind::SoftBreak | NodeKind::HardBreak
        | NodeKind::MetadataBlock | NodeKind::NotImplemented => gen_leaf_items(node, ctx, ft, dir),
        NodeKind::TextDecoration | NodeKind::FootnoteDefinition | NodeKind::InlineLink | NodeKind::ReferenceLink
        | NodeKind::ShortcutLink | NodeKind::AutoLink => gen_inline_parent_items(node, ctx, ft, dir),
        NodeKind::Table => gen_table_items(node, ctx, ft, dir),
        _ => gen_children(node, 0, n, ctx, ft, dir),
    }
}

/// The context at the top of a document.
pub open spec fn top_context(cfg: GenConfig) -> GenContext {
    GenContext { cfg, in_list: false, quote_depth: 0, wrap_disabled: false }
}

/// Returns the print items of a document tree (or of any node of it) whose
/// source is `file_text`.
pub fn generate(node: &MdNode, file_text: &[char], cfg: &GenConfig, directive: &[char]) -> (r: Vec<PrintItem>)
    requires
        tree_ok(*node, file_text@.len() as int, false),
    ensures
        items_view(r@) == node_items(*node, top_context(*cfg), file_text@, directive@),
        crate::balance::neutral(items_view(r@)),
{
    let ctx = GenContext { cfg: *cfg, in_list: false, quote_depth: 0, wrap_disabled: false };
    let r = gen_node(node, ctx, file_text, directive);
    proof {
        crate::balance::lemma_node_neutral(*node, top_context(*cfg), file_text@, directive@);
    }
    r
}

/// The text of a printed file: the printed items, and a final line break
/// where they print anything.
pub open spec fn printed_file(items: Seq<PrintItemView>, o: PrintSettings) -> Seq<char> {
    let t = printed(items, o);
    if t.len() > 0 {
        t + o.new_line_text@
    } else {
        t
    }
}

/// Prints the items of a file with dprint's printer and ends the text with
/// a line break when it is not empty.
pub fn print_file(items: &Vec<PrintItem>, o: &PrintSettings) -> (r: String)
    requires
        printable(items_view(items@)),
    ensures
        r@ == printed_file(items_view(items@), *o),
{
    let text = print_items(items, o);
    if text.as_str().unicode_len() > 0 {
        let chars = crate::chars::to_chars(text.as_str());
        let mut all = chars;
        let nl = crate::chars::to_chars(o.new_line_text);
        crate::chars::push_all(&mut all, nl.as_slice());
        crate::chars::chars_to_string(all.as_slice())
    } else {
        text
    }
}

/// Prints the items of a file where dprint's printer prints them without
/// panicking, and returns nothing otherwise.
pub fn print_file_checked(items: &Vec<PrintItem>, o: &PrintSettings) -> (r: Option<String>)
    ensures
        match r {
            Some(t) => printable(items_view(items@)) && t@ == printed_file(items_view(items@), *o),
            None => !printable(items_view(items@)),
        },
{
    if is_printable(items) {
        Some(print_file(items, o))
    } else {
        None
    }
}

/// A plan for the top-level children of an MDX file that a list of nodes
/// can follow: each node it keeps is one of them, and kept once.
pub open spec fn plan_fits(plan: Seq<crate::blocks::PreservedChild>, n: int) -> bool {
    &&& forall|a: int| 0 <= a < plan.len() ==> (#[trigger] plan[a] matches crate::blocks::PreservedChild::Node(i) ==> i < n)
    &&& forall|a: int, b: int|
        0 <= a < b < plan.len() ==> (#[trigger] plan[a] matches crate::blocks::PreservedChild::Node(i) ==> (#[trigger] plan[b] matches crate::blocks::PreservedChild::Node(j) ==> i != j))
}

/// Node `r` stands for the range `[a, b)` kept as it is: an HTML node over
/// it, so that it prints as its text with each line's trailing white space
/// removed, is separated from its siblings as HTML is, and acts as an
/// ignore comment where its text is one.
pub open spec fn kept_range_node(r: MdNode, a: usize, b: usize) -> bool {
    &&& r.kind == NodeKind::Html
    &&& r.start == a
    &&& r.end == b
    &&& !r.facts.starts_with_list_word
    &&& r.text@.len() == 0
    &&& r.data is Plain
    &&& r.children@.len() == 0
}

/// Returns the top-level children of an MDX file after the rewriting that
/// `plan` describes: each kept node is the child of that index, and each
/// range kept as it is becomes an HTML node over it.
pub fn preserved_nodes(children: Vec<MdNode>, plan: &Vec<crate::blocks::PreservedChild>) -> (r: Vec<MdNode>)
    requires
        plan_fits(plan@, children@.len() as int),
    ensures
        r@.len() == plan@.len(),
        forall|k: int|
            0 <= k < plan@.len() ==> match #[trigger] plan@[k] {
                crate::blocks::PreservedChild::Node(i) => r@[k] == children@[i as int],
                crate::blocks::PreservedChild::Raw(range) => kept_range_node(r@[k], range.start, range.end),
            },
{
    let ghost orig = children@;
    let n = children.len();
    let mut rest = children;
    let mut slots: Vec<Option<MdNode>> = Vec::new();
    while rest.len() > 0
        invariant
            n == orig.len(),
            rest@ == orig.take(rest@.len() as int),
            slots@.len() + rest@.len() == n,
            forall|j: int| 0 <= j < slots@.len() ==> #[trigger] slots@[j] == Some(orig[n - 1 - j]),
        decreases rest@.len(),
    {
        let x = rest.pop().unwrap();
        slots.push(Some(x));
        assert(rest@ =~= orig.take(rest@.len() as int));
    }
    let mut out: Vec<MdNode> = Vec::new();
    let mut k: usize = 0;
    while k < plan.len()
        invariant
            n == orig.len(),
            slots@.len() == n,
            plan_fits(plan@, n as int),
            k <= plan@.len(),
            out@.len() == k,
            forall|j: int|
                0 <= j < n ==> #[trigger] slots@[j] == if (exists|m: int|
                    0 <= m < k && #[trigger] plan@[m] == crate::blocks::PreservedChild::Node((n - 1 - j) as usize)) {
                    None
                } else {
                    Some(orig[n - 1 - j])
                },
            forall|m: int|
                0 <= m < k ==> match #[trigger] plan@[m] {
                    crate::blocks::PreservedChild::Node(i) => out@[m] == orig[i as int],
                    crate::blocks::PreservedChild::Raw(range) => kept_range_node(out@[m], range.start, range.end),
                },
        decreases plan.len() - k,
    {
        match &plan[k] {
            crate::blocks::PreservedChild::Node(i) => {
                let i = *i;
                assert(plan@[k as int] matches crate::blocks::PreservedChild::Node(x) ==> x < n);
                let j = n - 1 - i;
                proof {
                    if exists|m: int| 0 <= m < k && #[trigger] plan@[m] == crate::blocks::PreservedChild::Node(i) {
                        let m = choose|m: int| 0 <= m < k && #[trigger] plan@[m] == crate::blocks::PreservedChild::Node(i);
                        assert(plan@[m] matches crate::blocks::PreservedChild::Node(x) ==> (plan@[k as int] matches crate::blocks::PreservedChild::Node(y) ==> x != y));
                    }
                    assert(slots@[j as int] == Some(orig[i as int]));
                }
                let x = slots.remove(j);
                slots.insert(j, None);
                let node = x.unwrap();
                out.push(node);
            },
            crate::blocks::PreservedChild::Raw(range) => {
                out.push(MdNode {
                    kind: NodeKind::Html,
                    start: range.start,
                    end: range.end,
                    facts: SourceFacts { starts_with_list_word: false },
                    text: Vec::new(),
                    data: NodeData::Plain,
                    children: Vec::new(),
                });
            },
        }
        k += 1;
        assert forall|j: int| 0 <= j < n implies #[trigger] slots@[j] == if (exists|m: int|
            0 <= m < k && #[trigger] plan@[m] == crate::blocks::PreservedChild::Node((n - 1 - j) as usize)) {
            None
        } else {
            Some(orig[n - 1 - j])
        } by {
            if plan@[k - 1] == crate::blocks::PreservedChild::Node((n - 1 - j) as usize) {
                assert(plan@[k - 1] == crate::blocks::PreservedChild::Node((n - 1 - j) as usize));
            }
        }
    }
    out
}

/// The `anyhow` error that an embedded formatter returns.
#[verifier::external_type_specification]
#[verifier::external_body]
pub struct ExAnyhowError(anyhow::Error);

/// What the embedded formatter is asked for a node: for a code block with
/// a tag and code that is not blank, the language its tag names (up to the
/// first space or comma) and its code without leading blank lines and
/// trailing white space; for a metadata block, `yaml` or `toml` and its
/// text; nothing for other nodes.
pub open spec fn format_request(n: MdNode) -> Option<(Seq<char>, Seq<char>)> {
    match n.data {
        NodeData::CodeBlock(Some(tag), _, _) => {
            let code = crate::gen_code::block_code(n.text@);
            if n.kind == NodeKind::CodeBlock && code.len() > 0 {
                Some((crate::gen_code::tag_language(tag@), code))
            } else {
                None
            }
        },
        NodeData::Metadata(kind, _) => if n.kind == NodeKind::MetadataBlock {
            Some((match kind {
                MetadataBlockKind::YamlStyle => seq!['y', 'a', 'm', 'l'],
                MetadataBlockKind::PlusesStyle => seq!['t', 'o', 'm', 'l'],
            }, n.text@))
        } else {
            None
        },
        _ => None,
    }
}

/// Returns the language and text that the embedded formatter is asked to
/// format for a node, if any.
pub fn embedded_format_request(n: &MdNode) -> (r: Option<(Vec<char>, Vec<char>)>)
    ensures
        match r {
            Some((tag, text)) => format_request(*n) == Some((tag@, text@)),
            None => format_request(*n) is None,
        },
{
    match &n.data {
        NodeData::CodeBlock(Some(tag), _, _) => {
            let code = crate::gen_code::get_code_text(n.text.as_slice());
            if n.kind == NodeKind::CodeBlock && code.len() > 0 {
                Some((copy_chars(crate::gen_code::code_block_language(tag.as_slice())), copy_chars(code)))
            } else {
                None
            }
        },
        NodeData::Metadata(kind, _) => {
            if n.kind == NodeKind::MetadataBlock {
                let tag = match kind {
                    MetadataBlockKind::YamlStyle => vec!['y', 'a', 'm', 'l'],
                    MetadataBlockKind::PlusesStyle => vec!['t', 'o', 'm', 'l'],
                };
                assert(tag@ =~= match kind {
                    MetadataBlockKind::YamlStyle => seq!['y', 'a', 'm', 'l'],
                    MetadataBlockKind::PlusesStyle => seq!['t', 'o', 'm', 'l'],
                });
                Some((tag, copy_chars(n.text.as_slice())))
            } else {
                None
            }
        },
        _ => None,
    }
}

/// Returns what an embedded formatter's answer gives the generator: its
/// text when it formatted something, nothing when it declined or failed.
pub fn embedded_format_result(answer: Result<Option<String>, anyhow::Error>) -> (r: Option<Vec<char>>)
    ensures
        match answer {
            Ok(Some(t)) => r matches Some(v) && v@ == t@,
            _ => r is None,
        },
{
    match answer {
        Ok(Some(t)) => Some(crate::chars::to_chars(t.as_str())),
        _ => None,
    }
}

/// Records what the embedded formatter gave for a code or metadata block;
/// other nodes are left as they are.
pub fn set_formatted(n: &mut MdNode, formatted: Option<Vec<char>>)
    ensures
        final(n).kind == old(n).kind,
        final(n).start == old(n).start,
        final(n).end == old(n).end,
        final(n).text == old(n).text,
        final(n).children == old(n).children,
        final(n).facts == old(n).facts,
        match old(n).data {
            NodeData::CodeBlock(t, f, _) => final(n).data == NodeData::CodeBlock(t, f, formatted),
            NodeData::Metadata(k, _) => final(n).data == NodeData::Metadata(k, formatted),
            _ => final(n).data == old(n).data,
        },
{
    let mut data = NodeData::Plain;
    std::mem::swap(&mut data, &mut n.data);
    n.data = match data {
        NodeData::CodeBlock(t, f, _) => NodeData::CodeBlock(t, f, formatted),
        NodeData::Metadata(k, _) => NodeData::Metadata(k, formatted),
        other => other,
    };
}

} // verus!