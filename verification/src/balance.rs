//! The balance of print items: every section that they end was started,
//! and every section that they start is ended.
use vstd::prelude::*;

use crate::gen_block::{level_after, levels_fit, quote_from, QuoteItem};
use crate::generate::{line_prefix, quote_kinds, quote_kind, quote_step_items, quoted};
use crate::items::{
    indented, line_items, lines_items, maybe_trimmed, raw_items, separator_item, separator_items, sig, string_items,
    wrapped,
};
use crate::gen_block::{MetadataBlockKind, TableFormat};
use crate::gen_inline::{Separator, TextDecorationKind, TextWrap};
use crate::gen_nodes::{plan_from, NodeKind, StepView};
use crate::generate::{
    children_items, compact_rows_items, list_items, list_items_from, marker_children_items, marker_items, node_items,
    row_cells_items, steps_items, table_items, text_items, GenContext, MdNode, NodeData,
};
use crate::print::{clean_text, levels_fit_printer, printable, signal_step, walk, Levels, PrintItemView, PrintSignal};
use crate::text::{char_at, first_from, lemma_first_from_props};

verus! {

/// Counts of open sections, none below zero.
pub open spec fn counts_ok(l: Levels) -> bool {
    l.0 >= 0 && l.1 >= 0 && l.2 >= 0 && l.3 >= 0
}

/// The counts of open sections after the items from `i` on, starting from
/// `l`: nothing where a section ends that was not started, or where the
/// items printed at the start of a line do not close what they open.
pub open spec fn bal(items: Seq<PrintItemView>, i: int, l: Levels) -> Option<Levels>
    decreases items, items.len() - i,
{
    if i < 0 || i >= items.len() {
        Some(l)
    } else {
        match items[i] {
            PrintItemView::Signal(s) => {
                let n = signal_step(s, l);
                if counts_ok(n) {
                    bal(items, i + 1, n)
                } else {
                    None
                }
            },
            PrintItemView::IfStartOfLine(inner) => {
                proof {
                    assert(decreases_to!(items => items[i]));
                }
                if bal(inner, 0, l) == Some(l) {
                    bal(items, i + 1, l)
                } else {
                    None
                }
            },
            _ => bal(items, i + 1, l),
        }
    }
}

/// Items that close every section they open and end none that they did
/// not open, whatever sections are open around them.
pub open spec fn neutral(items: Seq<PrintItemView>) -> bool {
    forall|l: Levels| counts_ok(l) ==> #[trigger] bal(items, 0, l) == Some(l)
}

/// An item that opens and closes no section.
pub open spec fn plain_item(x: PrintItemView) -> bool {
    match x {
        PrintItemView::Text(_) => true,
        PrintItemView::Signal(s) => s == PrintSignal::NewLine || s == PrintSignal::Tab || s
            == PrintSignal::SpaceOrNewLine || s == PrintSignal::SpaceIfNotTrailing,
        PrintItemView::IfStartOfLine(_) => false,
        PrintItemView::SpaceIfNoNewLinesElseNewLine => true,
    }
}

/// Items none of which opens or closes a section.
pub open spec fn all_plain(items: Seq<PrintItemView>) -> bool {
    forall|k: int| 0 <= k < items.len() ==> plain_item(#[trigger] items[k])
}

proof fn lemma_bal_shift(a: Seq<PrintItemView>, b: Seq<PrintItemView>, j: int, l: Levels)
    requires
        0 <= j,
    ensures
        bal(a + b, a.len() + j, l) == bal(b, j, l),
    decreases b.len() - j,
{
    if j < b.len() {
        assert((a + b)[a.len() + j] == b[j]);
        match b[j] {
            PrintItemView::Signal(s) => lemma_bal_shift(a, b, j + 1, signal_step(s, l)),
            _ => lemma_bal_shift(a, b, j + 1, l),
        }
    }
}

/// The counts after two sequences of items are those after the second,
/// starting from the counts after the first.
pub proof fn lemma_bal_concat(a: Seq<PrintItemView>, b: Seq<PrintItemView>, i: int, l: Levels)
    requires
        0 <= i <= a.len(),
    ensures
        bal(a + b, i, l) == match bal(a, i, l) {
            Some(m) => bal(b, 0, m),
            None => None,
        },
    decreases a.len() - i,
{
    if i == a.len() {
        lemma_bal_shift(a, b, 0, l);
    } else {
        assert((a + b)[i] == a[i]);
        match a[i] {
            PrintItemView::Signal(s) => lemma_bal_concat(a, b, i + 1, signal_step(s, l)),
            _ => lemma_bal_concat(a, b, i + 1, l),
        }
    }
}

/// Two neutral sequences make a neutral sequence.
pub proof fn lemma_neutral_concat(a: Seq<PrintItemView>, b: Seq<PrintItemView>)
    requires
        neutral(a),
        neutral(b),
    ensures
        neutral(a + b),
{
    assert forall|l: Levels| counts_ok(l) implies #[trigger] bal(a + b, 0, l) == Some(l) by {
        lemma_bal_concat(a, b, 0, l);
    }
}

proof fn lemma_plain_bal(items: Seq<PrintItemView>, i: int, l: Levels)
    requires
        all_plain(items),
        0 <= i,
        counts_ok(l),
    ensures
        bal(items, i, l) == Some(l),
    decreases items.len() - i,
{
    if i < items.len() {
        assert(plain_item(items[i]));
        lemma_plain_bal(items, i + 1, l);
    }
}

/// Items none of which opens or closes a section are neutral.
pub proof fn lemma_plain_neutral(items: Seq<PrintItemView>)
    requires
        all_plain(items),
    ensures
        neutral(items),
{
    assert forall|l: Levels| counts_ok(l) implies #[trigger] bal(items, 0, l) == Some(l) by {
        lemma_plain_bal(items, 0, l);
    }
}

proof fn lemma_plain_concat(a: Seq<PrintItemView>, b: Seq<PrintItemView>)
    requires
        all_plain(a),
        all_plain(b),
    ensures
        all_plain(a + b),
{
    assert forall|k: int| 0 <= k < (a + b).len() implies plain_item(#[trigger] (a + b)[k]) by {
        if k < a.len() {
            assert((a + b)[k] == a[k]);
        } else {
            assert((a + b)[k] == b[k - a.len()]);
        }
    }
}

/// The items of a line are texts and tabs.
pub proof fn lemma_line_items_plain(line: Seq<char>)
    ensures
        all_plain(line_items(line)),
    decreases line.len(),
{
    let k = first_from(0, line.len() as int, char_at(line, '\t'));
    if k < line.len() {
        lemma_first_from_props(0, line.len() as int, char_at(line, '\t'));
        lemma_line_items_plain(line.skip(k + 1));
        let head: Seq<PrintItemView> = if k > 0 {
            seq![PrintItemView::Text(line.take(k))]
        } else {
            Seq::empty()
        };
        lemma_plain_concat(head, seq![sig(PrintSignal::Tab)]);
        lemma_plain_concat(head + seq![sig(PrintSignal::Tab)], line_items(line.skip(k + 1)));
    }
}

proof fn lemma_lines_items_plain(lines: Seq<Seq<char>>, i: int, trim: bool)
    ensures
        all_plain(lines_items(lines, i, trim)),
    decreases lines.len() - i,
{
    if 0 <= i < lines.len() {
        let head: Seq<PrintItemView> = if i > 0 {
            seq![sig(PrintSignal::NewLine)]
        } else {
            Seq::empty()
        };
        lemma_line_items_plain(maybe_trimmed(lines[i], trim));
        lemma_lines_items_plain(lines, i + 1, trim);
        lemma_plain_concat(head, line_items(maybe_trimmed(lines[i], trim)));
        lemma_plain_concat(head + line_items(maybe_trimmed(lines[i], trim)), lines_items(lines, i + 1, trim));
    }
}

/// The items of a text are texts, tabs and line breaks.
pub proof fn lemma_string_items_plain(s: Seq<char>, trim: bool)
    ensures
        all_plain(string_items(s, trim)),
{
    lemma_lines_items_plain(crate::gen_block::std_lines_from(s, 0), 0, trim);
    let tail: Seq<PrintItemView> = if s.len() > 0 && s.last() == '\n' {
        seq![sig(PrintSignal::NewLine)]
    } else {
        Seq::empty()
    };
    lemma_plain_concat(lines_items(crate::gen_block::std_lines_from(s, 0), 0, trim), tail);
}

/// Separators are texts, line breaks and spaces.
pub proof fn lemma_separators_plain(v: Seq<crate::gen_inline::Separator>)
    ensures
        all_plain(separator_items(v)),
{
    assert forall|k: int| 0 <= k < separator_items(v).len() implies plain_item(#[trigger] separator_items(v)[k]) by {
        assert(separator_items(v)[k] == separator_item(v[k]));
    }
}

/// A start and the end of the same kind of section.
pub open spec fn section_pair(start: PrintSignal, finish: PrintSignal) -> bool {
    ||| start == PrintSignal::StartIndent && finish == PrintSignal::FinishIndent
    ||| start == PrintSignal::StartNewLineGroup && finish == PrintSignal::FinishNewLineGroup
    ||| start == PrintSignal::StartForceNoNewLines && finish == PrintSignal::FinishForceNoNewLines
    ||| start == PrintSignal::StartIgnoringIndent && finish == PrintSignal::FinishIgnoringIndent
}

/// Neutral items between the start and the end of a section are neutral.
pub proof fn lemma_enclosed_neutral(items: Seq<PrintItemView>, start: PrintSignal, finish: PrintSignal)
    requires
        neutral(items),
        section_pair(start, finish),
    ensures
        neutral(seq![sig(start)] + items + seq![sig(finish)]),
{
    assert forall|l: Levels| counts_ok(l) implies #[trigger] bal(seq![sig(start)] + items + seq![sig(finish)], 0, l)
        == Some(l) by {
        let a = seq![sig(start)];
        let c = seq![sig(finish)];
        lemma_bal_concat(a + items, c, 0, l);
        lemma_bal_concat(a, items, 0, l);
        let m = signal_step(start, l);
        assert(bal(a, 0, l) == Some(m)) by {
            assert(bal(a, 1, m) == Some(m));
        }
        assert(bal(items, 0, m) == Some(m));
        assert(bal(c, 0, m) == Some(l)) by {
            assert(bal(c, 1, l) == Some(l));
        }
    }
}

/// Neutral items inside a section are neutral.
pub proof fn lemma_wrapped_neutral(items: Seq<PrintItemView>, start: PrintSignal, finish: PrintSignal)
    requires
        neutral(items),
        section_pair(start, finish),
    ensures
        neutral(wrapped(items, start, finish)),
{
    if items.len() > 0 {
        lemma_enclosed_neutral(items, start, finish);
    }
}

proof fn lemma_starts_bal(n: nat, i: int, l: Levels)
    requires
        0 <= i <= n,
        counts_ok(l),
    ensures
        bal(Seq::new(n, |k: int| sig(PrintSignal::StartIndent)), i, l) == Some((l.0 + (n - i), l.1, l.2, l.3)),
    decreases n - i,
{
    if i < n {
        lemma_starts_bal(n, i + 1, (l.0 + 1, l.1, l.2, l.3));
    }
}

proof fn lemma_finishes_bal(n: nat, i: int, l: Levels)
    requires
        0 <= i <= n,
        counts_ok(l),
        l.0 >= n - i,
    ensures
        bal(Seq::new(n, |k: int| sig(PrintSignal::FinishIndent)), i, l) == Some((l.0 - (n - i), l.1, l.2, l.3)),
    decreases n - i,
{
    if i < n {
        lemma_finishes_bal(n, i + 1, (l.0 - 1, l.1, l.2, l.3));
    }
}

/// Neutral items indented any number of times are neutral.
pub proof fn lemma_indented_neutral(items: Seq<PrintItemView>, n: nat)
    requires
        neutral(items),
    ensures
        neutral(indented(items, n)),
{
    if items.len() > 0 {
        let a = Seq::new(n, |k: int| sig(PrintSignal::StartIndent));
        let c = Seq::new(n, |k: int| sig(PrintSignal::FinishIndent));
        assert forall|l: Levels| counts_ok(l) implies #[trigger] bal(indented(items, n), 0, l) == Some(l) by {
            let m = (l.0 + n, l.1, l.2, l.3);
            lemma_bal_concat(a + items, c, 0, l);
            lemma_bal_concat(a, items, 0, l);
            lemma_starts_bal(n, 0, l);
            assert(bal(items, 0, m) == Some(m));
            lemma_finishes_bal(n, 0, m);
        }
    }
}

/// The items of a text printed as it is are neutral.
pub proof fn lemma_raw_items_neutral(s: Seq<char>, trim: bool)
    ensures
        neutral(raw_items(s, trim)),
{
    lemma_string_items_plain(s, trim);
    lemma_plain_neutral(string_items(s, trim));
    lemma_line_items_plain(maybe_trimmed(s, trim));
    lemma_plain_neutral(line_items(maybe_trimmed(s, trim)));
    if crate::items::has_newline(s) {
        lemma_enclosed_neutral(string_items(s, trim), PrintSignal::StartIgnoringIndent, PrintSignal::FinishIgnoringIndent);
    }
}

/// A line prefix at a level no deeper than the indentation leaves the
/// counts as they are.
proof fn lemma_line_prefix_bal(level: int, prefix: Seq<char>, l: Levels)
    requires
        0 <= level <= l.0,
        counts_ok(l),
    ensures
        bal(seq![line_prefix(level, prefix)], 0, l) == Some(l),
{
    let n = level as nat;
    let a = Seq::new(n, |k: int| sig(PrintSignal::FinishIndent));
    let t = seq![PrintItemView::Text(prefix)];
    let c = Seq::new(n, |k: int| sig(PrintSignal::StartIndent));
    let m = (l.0 - n, l.1, l.2, l.3);
    lemma_bal_concat(a + t, c, 0, l);
    lemma_bal_concat(a, t, 0, l);
    lemma_finishes_bal(n, 0, l);
    assert(bal(t, 0, m) == Some(m)) by {
        assert(bal(t, 1, m) == Some(m));
    }
    lemma_starts_bal(n, 0, m);
    assert(bal(a + t + c, 0, l) == Some(l));
    if let PrintItemView::IfStartOfLine(inner) = line_prefix(level, prefix) {
        assert(inner == a + t + c);
    }
    assert(bal(seq![line_prefix(level, prefix)], 1, l) == Some(l));
}

/// Prefixing the lines inside block quotes leaves the counts of open
/// sections after the items from `i` on as they are.
proof fn lemma_quote_bal(items: Seq<PrintItemView>, depth: usize, i: int, level: int, l: Levels)
    requires
        0 <= i <= items.len(),
        0 <= level <= l.0,
        levels_fit(quote_kinds(items), i, level),
        counts_ok(l),
    ensures
        bal(quote_step_items(quote_from(quote_kinds(items), depth, i, level), items), 0, l) == bal(items, i, l),
    decreases items.len() - i,
{
    let kinds = quote_kinds(items);
    if i < items.len() {
        let x = items[i];
        assert(kinds[i] == quote_kind(x));
        let next = level_after(kinds[i], level);
        let rest = quote_from(kinds, depth, i + 1, next);
        let r = quote_step_items(rest, items);
        let pre: Seq<PrintItemView> = match kinds[i] {
            QuoteItem::Text => seq![line_prefix(level, crate::gen_block::quote_prefix(depth, true))],
            QuoteItem::NewLine => seq![line_prefix(level, crate::gen_block::quote_prefix(depth, false))],
            _ => Seq::empty(),
        };
        assert(quote_step_items(quote_from(kinds, depth, i, level), items) =~= pre + (seq![x] + r));
        lemma_bal_concat(pre, seq![x] + r, 0, l);
        match kinds[i] {
            QuoteItem::Text => lemma_line_prefix_bal(level, crate::gen_block::quote_prefix(depth, true), l),
            QuoteItem::NewLine => lemma_line_prefix_bal(level, crate::gen_block::quote_prefix(depth, false), l),
            _ => {},
        }
        assert(bal(pre, 0, l) == Some(l));
        match x {
            PrintItemView::Signal(s) => {
                let n = signal_step(s, l);
                lemma_bal_shift(seq![x], r, 0, n);
                if counts_ok(n) {
                    lemma_quote_bal(items, depth, i + 1, next, n);
                }
            },
            _ => {
                lemma_bal_shift(seq![x], r, 0, l);
                lemma_quote_bal(items, depth, i + 1, next, l);
            },
        }
    }
}

/// Prefixing the lines inside block quotes keeps what the items open and
/// close.
pub proof fn lemma_quoted_bal(items: Seq<PrintItemView>, depth: usize, l: Levels)
    requires
        counts_ok(l),
    ensures
        bal(quoted(items, depth), 0, l) == bal(items, 0, l),
{
    if levels_fit(quote_kinds(items), 0, 0) {
        lemma_quote_bal(items, depth, 0, 0, l);
    }
}

/// Neutral items stay neutral inside block quotes.
pub proof fn lemma_quoted_neutral(items: Seq<PrintItemView>, depth: usize)
    requires
        neutral(items),
    ensures
        neutral(quoted(items, depth)),
{
    assert forall|l: Levels| counts_ok(l) implies #[trigger] bal(quoted(items, depth), 0, l) == Some(l) by {
        lemma_quoted_bal(items, depth, l);
    }
}

/// The empty sequence is neutral.
proof fn lemma_empty_neutral()
    ensures
        neutral(Seq::<PrintItemView>::empty()),
{
    assert forall|l: Levels| counts_ok(l) implies #[trigger] bal(Seq::<PrintItemView>::empty(), 0, l) == Some(l) by {}
}

/// A text item alone is neutral.
proof fn lemma_text_neutral(t: Seq<char>)
    ensures
        neutral(seq![PrintItemView::Text(t)]),
{
    assert(all_plain(seq![PrintItemView::Text(t)])) by {
        assert forall|k: int| 0 <= k < 1 implies plain_item(#[trigger] seq![PrintItemView::Text(t)][k]) by {}
    }
    lemma_plain_neutral(seq![PrintItemView::Text(t)]);
}

/// A plain signal alone is neutral.
proof fn lemma_plain_signal_neutral(s: PrintSignal)
    requires
        plain_item(sig(s)),
    ensures
        neutral(seq![sig(s)]),
{
    assert(all_plain(seq![sig(s)])) by {
        assert forall|k: int| 0 <= k < 1 implies plain_item(#[trigger] seq![sig(s)][k]) by {}
    }
    lemma_plain_neutral(seq![sig(s)]);
}

/// Three neutral sequences make a neutral sequence.
proof fn lemma_neutral3(a: Seq<PrintItemView>, b: Seq<PrintItemView>, c: Seq<PrintItemView>)
    requires
        neutral(a),
        neutral(b),
        neutral(c),
    ensures
        neutral(a + b + c),
{
    lemma_neutral_concat(a, b);
    lemma_neutral_concat(a + b, c);
}

/// The items of the words of a text are neutral.
proof fn lemma_text_items_neutral(words: Seq<(Seq<char>, bool)>, flags: Seq<bool>, ctx: GenContext, i: int)
    ensures
        neutral(text_items(words, flags, ctx, i)),
    decreases words.len() - i,
{
    if i < 0 || i >= words.len() {
        lemma_empty_neutral();
    } else {
        let flag = i < flags.len() && flags[i];
        let sep = crate::gen_inline::word_separator(i == 0, flag, words[i].1, ctx.cfg.text_wrap, ctx.wrap_disabled);
        let a: Seq<PrintItemView> = match sep {
            Some(x) => separator_items(seq![x]),
            None => Seq::empty(),
        };
        match sep {
            Some(x) => {
                lemma_separators_plain(seq![x]);
                lemma_plain_neutral(a);
            },
            None => lemma_empty_neutral(),
        }
        lemma_line_items_plain(words[i].0);
        lemma_plain_neutral(line_items(words[i].0));
        lemma_text_items_neutral(words, flags, ctx, i + 1);
        lemma_neutral3(a, line_items(words[i].0), text_items(words, flags, ctx, i + 1));
    }
}

/// The items of a node are neutral.
#[verifier::spinoff_prover]
#[verifier::rlimit(60)]
pub proof fn lemma_node_neutral(node: MdNode, ctx: GenContext, ft: Seq<char>, dir: Seq<char>)
    ensures
        neutral(node_items(node, ctx, ft, dir)),
    decreases node, 4int, 0int, 0int,
{
    let n = node.children@.len() as int;
    let items = node_items(node, ctx, ft, dir);
    match node.kind {
        NodeKind::Heading => {
            let level = match node.data {
                NodeData::Heading(l) => l,
                _ => 1u8,
            };
            let content = children_items(node, 0, n, ctx, ft, dir);
            lemma_children_neutral(node, 0, n, ctx, ft, dir);
            if crate::gen_block::setext_heading(level, ctx.cfg.heading_kind) {
                let width = match crate::generate::measured(content, crate::generate::wrap_settings(ctx.cfg.line_width)) {
                    Some(t) => crate::gen_block::max_width(crate::gen_block::std_lines_from(t, 0)),
                    None => 0,
                };
                lemma_plain_signal_neutral(PrintSignal::NewLine);
                lemma_text_neutral(crate::gen_block::setext_underline(level, width as usize));
                lemma_neutral3(content, seq![sig(PrintSignal::NewLine)], seq![
                    PrintItemView::Text(crate::gen_block::setext_underline(level, width as usize)),
                ]);
            } else {
                lemma_text_neutral(crate::gen_block::atx_prefix(level));
                lemma_wrapped_neutral(content, PrintSignal::StartForceNoNewLines, PrintSignal::FinishForceNoNewLines);
                lemma_neutral_concat(seq![PrintItemView::Text(crate::gen_block::atx_prefix(level))], wrapped(
                    content,
                    PrintSignal::StartForceNoNewLines,
                    PrintSignal::FinishForceNoNewLines,
                ));
            }
        },
        NodeKind::Paragraph => {
            let marker = match node.data {
                NodeData::Marker(m) => m,
                _ => None,
            };
            lemma_marker_neutral(marker, n > 0);
            lemma_marker_children_neutral(node, marker is Some, 0, n, ctx, ft, dir);
            lemma_neutral_concat(marker_items(marker, n > 0), marker_children_items(node, marker is Some, 0, n, ctx, ft, dir));
        },
        NodeKind::Item => {
            let (marker, from) = match node.data {
                NodeData::Item(m, f) => (m, if f as int <= n {
                    f as int
                } else {
                    n
                }),
                _ => (None, n),
            };
            lemma_marker_neutral(marker, from > 0);
            lemma_marker_children_neutral(node, marker is Some, 0, from, ctx, ft, dir);
            let tail: Seq<PrintItemView> = if from < n {
                separator_items(
                    if crate::source::blank_line_before(ft, node.children@[from].start as int) {
                        seq![Separator::NewLine, Separator::NewLine]
                    } else {
                        seq![Separator::NewLine]
                    },
                ) + children_items(node, from, n, ctx, ft, dir)
            } else {
                Seq::empty()
            };
            if from < n {
                let v = if crate::source::blank_line_before(ft, node.children@[from].start as int) {
                    seq![Separator::NewLine, Separator::NewLine]
                } else {
                    seq![Separator::NewLine]
                };
                lemma_separators_plain(v);
                lemma_plain_neutral(separator_items(v));
                lemma_children_neutral(node, from, n, ctx, ft, dir);
                lemma_neutral_concat(separator_items(v), children_items(node, from, n, ctx, ft, dir));
            } else {
                lemma_empty_neutral();
            }
            lemma_neutral3(marker_items(marker, from > 0), marker_children_items(node, marker is Some, 0, from, ctx, ft, dir), tail);
        },
        NodeKind::BlockQuote => {
            let inner_ctx = crate::generate::block_quote_context(ctx);
            lemma_children_neutral(node, 0, n, inner_ctx, ft, dir);
            lemma_quoted_neutral(children_items(node, 0, n, inner_ctx, ft, dir), inner_ctx.quote_depth);
        },
        NodeKind::CodeBlock => {
            let (tag, fenced, formatted) = match node.data {
                NodeData::CodeBlock(t, f, o) => (
                    match t {
                        Some(v) => Some(v@),
                        None => None,
                    },
                    f,
                    match o {
                        Some(v) => Some(v@),
                        None => None,
                    },
                ),
                _ => (None, true, None),
            };
            let code_text = crate::text::trim_end(match formatted {
                Some(f) => f,
                None => crate::gen_code::block_code(node.text@),
            });
            let text = crate::gen_code::code_block_text(code_text, tag, fenced);
            lemma_string_items_plain(text, false);
            lemma_plain_neutral(string_items(text, false));
            lemma_indented_neutral(string_items(text, false), if fenced {
                0
            } else {
                4
            });
        },
        NodeKind::Code => {
            lemma_line_items_plain(crate::gen_code::code_span_text(node.text@));
            lemma_plain_neutral(items);
        },
        NodeKind::Text => {
            let flags = match node.data {
                NodeData::Text(f) => f@,
                _ => Seq::empty(),
            };
            lemma_text_items_neutral(
                crate::gen_inline::words_from(node.text@, 0, false, ctx.cfg.text_wrap == TextWrap::Maintain),
                flags,
                ctx,
                0,
            );
        },
        NodeKind::TextDecoration => {
            let kind = match node.data {
                NodeData::Decoration(k) => k,
                _ => TextDecorationKind::Strikethrough,
            };
            let d = crate::gen_inline::decoration_delimiter(kind, ctx.cfg.emphasis, ctx.cfg.strong, ft, node.end as int);
            lemma_text_neutral(d);
            lemma_children_neutral(node, 0, n, ctx, ft, dir);
            lemma_neutral3(seq![PrintItemView::Text(d)], children_items(node, 0, n, ctx, ft, dir), seq![PrintItemView::Text(d)]);
        },
        NodeKind::Html | NodeKind::DisplayMath | NodeKind::InlineMath => {
            if node.start <= node.end <= ft.len() {
                let t = crate::text::trim_end(ft.subrange(node.start as int, node.end as int));
                if t.len() > 0 {
                    lemma_text_neutral(Seq::empty());
                    lemma_raw_items_neutral(t, true);
                    lemma_neutral_concat(seq![PrintItemView::Text(Seq::empty())], raw_items(t, true));
                } else {
                    lemma_empty_neutral();
                }
            } else {
                lemma_empty_neutral();
            }
        },
        NodeKind::FootnoteReference => {
            let t = crate::gen_inline::bracketed(seq!['[', '^'], node.text@, seq![']']);
            lemma_text_neutral(t);
            lemma_wrapped_neutral(seq![PrintItemView::Text(t)], PrintSignal::StartForceNoNewLines, PrintSignal::FinishForceNoNewLines);
        },
        NodeKind::FootnoteDefinition => {
            let t = crate::gen_inline::bracketed(seq!['[', '^'], node.text@, seq![']', ':', ' ']);
            lemma_text_neutral(t);
            lemma_children_neutral(node, 0, n, ctx, ft, dir);
            lemma_indented_neutral(children_items(node, 0, n, ctx, ft, dir), 4);
            lemma_neutral_concat(seq![PrintItemView::Text(t)], indented(children_items(node, 0, n, ctx, ft, dir), 4));
        },
        NodeKind::InlineLink => {
            let (url, title) = crate::generate::link_parts(node.data);
            let content = children_items(node, 0, n, crate::generate::no_wrap(ctx), ft, dir);
            lemma_children_neutral(node, 0, n, crate::generate::no_wrap(ctx), ft, dir);
            let single = crate::generate::measured(
                wrapped(content, PrintSignal::StartForceNoNewLines, PrintSignal::FinishForceNoNewLines),
                crate::generate::measure_settings(),
            );
            let text = match single {
                Some(t) => if crate::gen_inline::link_text_on_one_line(t, ctx.cfg.line_width) {
                    string_items(t, false)
                } else {
                    content
                },
                None => content,
            };
            if let Some(t) = single {
                lemma_string_items_plain(t, false);
                lemma_plain_neutral(string_items(t, false));
            }
            let tail = seq![
                PrintItemView::Text(seq![']']),
                PrintItemView::Text(crate::gen_inline::destination_text(url, title)),
            ];
            lemma_text_neutral(seq!['[']);
            lemma_text_neutral(seq![']']);
            lemma_text_neutral(crate::gen_inline::destination_text(url, title));
            lemma_neutral_concat(seq![PrintItemView::Text(seq![']'])], seq![PrintItemView::Text(crate::gen_inline::destination_text(url, title))]);
            assert(tail == seq![PrintItemView::Text(seq![']'])] + seq![PrintItemView::Text(crate::gen_inline::destination_text(url, title))]);
            lemma_neutral3(seq![PrintItemView::Text(seq!['['])], text, tail);
            lemma_wrapped_neutral(seq![PrintItemView::Text(seq!['['])] + text + tail, PrintSignal::StartNewLineGroup, PrintSignal::FinishNewLineGroup);
        },
        NodeKind::ReferenceLink => {
            let content = children_items(node, 0, n, crate::generate::no_wrap(ctx), ft, dir);
            lemma_children_neutral(node, 0, n, crate::generate::no_wrap(ctx), ft, dir);
            let r = crate::gen_inline::bracketed(seq!['['], node.text@, seq![']']);
            let tail = seq![PrintItemView::Text(seq![']']), PrintItemView::Text(r)];
            lemma_text_neutral(seq!['[']);
            lemma_text_neutral(seq![']']);
            lemma_text_neutral(r);
            lemma_neutral_concat(seq![PrintItemView::Text(seq![']'])], seq![PrintItemView::Text(r)]);
            assert(tail == seq![PrintItemView::Text(seq![']'])] + seq![PrintItemView::Text(r)]);
            lemma_neutral3(seq![PrintItemView::Text(seq!['['])], content, tail);
            lemma_wrapped_neutral(seq![PrintItemView::Text(seq!['['])] + content + tail, PrintSignal::StartNewLineGroup, PrintSignal::FinishNewLineGroup);
        },
        NodeKind::ShortcutLink => {
            let content = children_items(node, 0, n, crate::generate::no_wrap(ctx), ft, dir);
            lemma_children_neutral(node, 0, n, crate::generate::no_wrap(ctx), ft, dir);
            lemma_text_neutral(seq!['[']);
            lemma_text_neutral(seq![']']);
            lemma_neutral3(seq![PrintItemView::Text(seq!['['])], content, seq![PrintItemView::Text(seq![']'])]);
            lemma_wrapped_neutral(seq![PrintItemView::Text(seq!['['])] + content + seq![PrintItemView::Text(seq![']'])], PrintSignal::StartNewLineGroup, PrintSignal::FinishNewLineGroup);
        },
        NodeKind::AutoLink => {
            let content = children_items(node, 0, n, crate::generate::no_wrap(ctx), ft, dir);
            lemma_children_neutral(node, 0, n, crate::generate::no_wrap(ctx), ft, dir);
            lemma_text_neutral(seq!['<']);
            lemma_text_neutral(seq!['>']);
            lemma_neutral3(seq![PrintItemView::Text(seq!['<'])], content, seq![PrintItemView::Text(seq!['>'])]);
            lemma_wrapped_neutral(seq![PrintItemView::Text(seq!['<'])] + content + seq![PrintItemView::Text(seq!['>'])], PrintSignal::StartNewLineGroup, PrintSignal::FinishNewLineGroup);
        },
        NodeKind::LinkReference => {
            let (link, title) = crate::generate::link_parts(node.data);
            let t = crate::gen_inline::link_reference_text(node.text@, link, title);
            lemma_text_neutral(t);
            lemma_wrapped_neutral(seq![PrintItemView::Text(t)], PrintSignal::StartNewLineGroup, PrintSignal::FinishNewLineGroup);
        },
        NodeKind::InlineImage => {
            let (url, title) = crate::generate::link_parts(node.data);
            lemma_text_neutral(crate::gen_inline::inline_image_text(node.text@, url, title));
        },
        NodeKind::ReferenceImage => {
            let (reference, _title) = crate::generate::link_parts(node.data);
            lemma_text_neutral(crate::gen_inline::reference_image_text(node.text@, reference));
        },
        NodeKind::List => {
            lemma_list_neutral(node, false, ctx, ft, dir, 0);
        },
        NodeKind::HorizontalRule => lemma_text_neutral(seq!['-', '-', '-']),
        NodeKind::SoftBreak => lemma_empty_neutral(),
        NodeKind::HardBreak => {
            lemma_text_neutral(seq!['\\']);
            lemma_plain_signal_neutral(PrintSignal::NewLine);
            lemma_neutral_concat(seq![PrintItemView::Text(seq!['\\'])], seq![sig(PrintSignal::NewLine)]);
            assert(items == seq![PrintItemView::Text(seq!['\\'])] + seq![sig(PrintSignal::NewLine)]);
        },
        NodeKind::Table => lemma_table_neutral(node, ctx, ft, dir),
        NodeKind::MetadataBlock => {
            let (kind, formatted) = match node.data {
                NodeData::Metadata(k, f) => (k, match f {
                    Some(v) => Some(v@),
                    None => None,
                }),
                _ => (MetadataBlockKind::YamlStyle, None),
            };
            let src = crate::gen_block::metadata_source(node.text@, formatted);
            let body = match kind {
                MetadataBlockKind::YamlStyle => string_items(src, true),
                MetadataBlockKind::PlusesStyle => raw_items(src, true),
            };
            lemma_string_items_plain(src, true);
            lemma_plain_neutral(string_items(src, true));
            lemma_raw_items_neutral(src, true);
            let d = crate::gen_block::metadata_delimiter(kind);
            lemma_text_neutral(d);
            lemma_plain_signal_neutral(PrintSignal::NewLine);
            lemma_neutral_concat(seq![PrintItemView::Text(d)], seq![sig(PrintSignal::NewLine)]);
            lemma_neutral_concat(seq![sig(PrintSignal::NewLine)], seq![PrintItemView::Text(d)]);
            assert(seq![PrintItemView::Text(d), sig(PrintSignal::NewLine)] == seq![PrintItemView::Text(d)] + seq![sig(PrintSignal::NewLine)]);
            assert(seq![sig(PrintSignal::NewLine), PrintItemView::Text(d)] == seq![sig(PrintSignal::NewLine)] + seq![PrintItemView::Text(d)]);
            lemma_neutral3(seq![PrintItemView::Text(d), sig(PrintSignal::NewLine)], body, seq![sig(PrintSignal::NewLine), PrintItemView::Text(d)]);
        },
        NodeKind::NotImplemented => lemma_raw_items_neutral(crate::generate::range_of(ft, node.start as int, node.end as int), false),
        _ => lemma_children_neutral(node, 0, n, ctx, ft, dir),
    }
}

/// The items of a task marker are texts.
proof fn lemma_marker_neutral(marker: Option<bool>, has_children: bool)
    ensures
        neutral(marker_items(marker, has_children)),
{
    match marker {
        Some(checked) => {
            lemma_text_neutral(crate::gen_inline::task_marker_text(checked));
            if has_children {
                lemma_text_neutral(seq![' ']);
                lemma_neutral_concat(seq![PrintItemView::Text(crate::gen_inline::task_marker_text(checked))], seq![PrintItemView::Text(seq![' '])]);
            } else {
                lemma_empty_neutral();
                lemma_neutral_concat(seq![PrintItemView::Text(crate::gen_inline::task_marker_text(checked))], Seq::empty());
            }
        },
        None => lemma_empty_neutral(),
    }
}

/// The items of some children of a node are neutral.
pub proof fn lemma_children_neutral(parent: MdNode, lo: int, hi: int, ctx: GenContext, ft: Seq<char>, dir: Seq<char>)
    ensures
        neutral(children_items(parent, lo, hi, ctx, ft, dir)),
    decreases parent, 3int, 0int, 0int,
{
    if 0 <= lo <= hi <= parent.children@.len() {
        let steps = plan_from(crate::generate::node_infos(parent.children@.subrange(lo, hi), ctx, ft, dir), 0, None);
        lemma_steps_neutral(parent, lo, hi, ctx, ft, dir, steps, 0);
    } else {
        lemma_empty_neutral();
    }
}

proof fn lemma_steps_neutral(
    parent: MdNode,
    lo: int,
    hi: int,
    ctx: GenContext,
    ft: Seq<char>,
    dir: Seq<char>,
    steps: Seq<StepView>,
    j: int,
)
    ensures
        neutral(steps_items(parent, lo, hi, ctx, ft, dir, steps, j)),
    decreases parent, 2int, steps.len() - j, 0int,
{
    if j < 0 || j >= steps.len() || !(0 <= lo <= hi <= parent.children@.len()) {
        lemma_empty_neutral();
    } else {
        let here = match steps[j] {
            StepView::Separators(v) => separator_items(v),
            StepView::Generate(k) => if 0 <= k < hi - lo {
                node_items(parent.children@[lo + k], ctx, ft, dir)
            } else {
                Seq::empty()
            },
            StepView::GenerateAlternateList(k) => if 0 <= k < hi - lo {
                list_items(parent.children@[lo + k], true, ctx, ft, dir)
            } else {
                Seq::empty()
            },
            StepView::NewLine => seq![sig(PrintSignal::NewLine)],
            StepView::RawNode(k) => if 0 <= k < hi - lo {
                let c = parent.children@[lo + k];
                raw_items(crate::text::trim_end(crate::generate::range_of(ft, crate::generate::leading_start(ft, c.start as int), c.end as int)), false)
            } else {
                Seq::empty()
            },
            StepView::RawText(a, b, t) => {
                let r = crate::generate::range_of(ft, a, b);
                raw_items(if t {
                    crate::text::trim_end(r)
                } else {
                    r
                }, false)
            },
        };
        match steps[j] {
            StepView::Separators(v) => {
                lemma_separators_plain(v);
                lemma_plain_neutral(separator_items(v));
            },
            StepView::Generate(k) => if 0 <= k < hi - lo {
                lemma_node_neutral(parent.children@[lo + k], ctx, ft, dir);
            } else {
                lemma_empty_neutral();
            },
            StepView::GenerateAlternateList(k) => if 0 <= k < hi - lo {
                lemma_list_neutral(parent.children@[lo + k], true, ctx, ft, dir, 0);
            } else {
                lemma_empty_neutral();
            },
            StepView::NewLine => lemma_plain_signal_neutral(PrintSignal::NewLine),
            StepView::RawNode(k) => if 0 <= k < hi - lo {
                let c = parent.children@[lo + k];
                lemma_raw_items_neutral(crate::text::trim_end(crate::generate::range_of(ft, crate::generate::leading_start(ft, c.start as int), c.end as int)), false);
            } else {
                lemma_empty_neutral();
            },
            StepView::RawText(a, b, t) => {
                let r = crate::generate::range_of(ft, a, b);
                lemma_raw_items_neutral(if t {
                    crate::text::trim_end(r)
                } else {
                    r
                }, false);
            },
        }
        lemma_steps_neutral(parent, lo, hi, ctx, ft, dir, steps, j + 1);
        lemma_neutral_concat(here, steps_items(parent, lo, hi, ctx, ft, dir, steps, j + 1));
    }
}

proof fn lemma_list_neutral(list: MdNode, alternate: bool, ctx: GenContext, ft: Seq<char>, dir: Seq<char>, i: int)
    ensures
        neutral(list_items_from(list, alternate, ctx, ft, dir, i)),
    decreases list, 2int, list.children@.len() - i, 0int,
{
    let n = list.children@.len() as int;
    if i < 0 || i >= n {
        lemma_empty_neutral();
    } else {
        let marker = crate::gen_block::list_marker(
            crate::generate::start_index(list),
            i,
            alternate,
            crate::generate::list_all_ones(list, ft),
            crate::generate::bullet_of(ctx.cfg, alternate),
        );
        let child = node_items(list.children@[i], crate::generate::in_list(ctx), ft, dir);
        let v = crate::gen_block::item_separators(i, crate::source::blank_line_before(ft, list.children@[i].start as int));
        let space: Seq<PrintItemView> = if crate::generate::prints_something(child) {
            seq![sig(PrintSignal::SpaceIfNotTrailing)]
        } else {
            Seq::empty()
        };
        lemma_separators_plain(v);
        lemma_plain_neutral(separator_items(v));
        lemma_text_neutral(marker);
        if crate::generate::prints_something(child) {
            lemma_plain_signal_neutral(PrintSignal::SpaceIfNotTrailing);
        } else {
            lemma_empty_neutral();
        }
        lemma_node_neutral(list.children@[i], crate::generate::in_list(ctx), ft, dir);
        lemma_indented_neutral(child, ((marker.len() + 1) as u32) as nat);
        lemma_list_neutral(list, alternate, ctx, ft, dir, i + 1);
        lemma_neutral3(separator_items(v), seq![PrintItemView::Text(marker)], space);
        lemma_neutral3(
            separator_items(v) + seq![PrintItemView::Text(marker)] + space,
            indented(child, ((marker.len() + 1) as u32) as nat),
            list_items_from(list, alternate, ctx, ft, dir, i + 1),
        );
    }
}

proof fn lemma_marker_children_neutral(
    node: MdNode,
    has_marker: bool,
    lo: int,
    hi: int,
    ctx: GenContext,
    ft: Seq<char>,
    dir: Seq<char>,
)
    ensures
        neutral(marker_children_items(node, has_marker, lo, hi, ctx, ft, dir)),
    decreases node, 3int, 1int, 0int,
{
    if 0 <= lo <= hi <= node.children@.len() {
        let infos = crate::generate::child_infos(node.children@.subrange(lo, hi), ft);
        let e = lo + crate::gen_nodes::marker_run_end(infos);
        let w: nat = if has_marker {
            4
        } else {
            0
        };
        lemma_children_neutral(node, lo, e, ctx, ft, dir);
        lemma_indented_neutral(children_items(node, lo, e, ctx, ft, dir), w);
        lemma_separators_plain(crate::gen_nodes::marker_run_separators(infos));
        lemma_plain_neutral(separator_items(crate::gen_nodes::marker_run_separators(infos)));
        lemma_children_neutral(node, e, hi, ctx, ft, dir);
        lemma_neutral3(
            indented(children_items(node, lo, e, ctx, ft, dir), w),
            separator_items(crate::gen_nodes::marker_run_separators(infos)),
            children_items(node, e, hi, ctx, ft, dir),
        );
    } else {
        lemma_empty_neutral();
    }
}

proof fn lemma_row_cells_neutral(table: MdNode, r: int, c: int, ctx: GenContext, ft: Seq<char>, dir: Seq<char>)
    ensures
        neutral(row_cells_items(table, r, c, ctx, ft, dir)),
    decreases table, 2int, table.children@.len() - r, table.children@[r].children@.len() - c,
{
    if r < 0 || r >= table.children@.len() || c < 0 || c >= table.children@[r].children@.len() {
        lemma_empty_neutral();
    } else {
        let cell = table.children@[r].children@[c];
        let lead: Seq<char> = if c == 0 {
            seq!['|', ' ']
        } else {
            seq![' ']
        };
        lemma_text_neutral(lead);
        lemma_children_neutral(cell, 0, cell.children@.len() as int, ctx, ft, dir);
        lemma_text_neutral(seq![' ', '|']);
        lemma_row_cells_neutral(table, r, c + 1, ctx, ft, dir);
        lemma_neutral3(
            seq![PrintItemView::Text(lead)],
            children_items(cell, 0, cell.children@.len() as int, ctx, ft, dir),
            seq![PrintItemView::Text(seq![' ', '|'])],
        );
        lemma_neutral_concat(
            seq![PrintItemView::Text(lead)] + children_items(cell, 0, cell.children@.len() as int, ctx, ft, dir) + seq![
                PrintItemView::Text(seq![' ', '|']),
            ],
            row_cells_items(table, r, c + 1, ctx, ft, dir),
        );
    }
}

proof fn lemma_compact_rows_neutral(table: MdNode, r: int, ctx: GenContext, ft: Seq<char>, dir: Seq<char>)
    ensures
        neutral(compact_rows_items(table, r, ctx, ft, dir)),
    decreases table, 2int, table.children@.len() - r + 1, 0int,
{
    if r < 1 || r >= table.children@.len() {
        lemma_empty_neutral();
    } else {
        lemma_plain_signal_neutral(PrintSignal::NewLine);
        lemma_row_cells_neutral(table, r, 0, ctx, ft, dir);
        lemma_wrapped_neutral(
            row_cells_items(table, r, 0, ctx, ft, dir),
            PrintSignal::StartForceNoNewLines,
            PrintSignal::FinishForceNoNewLines,
        );
        lemma_compact_rows_neutral(table, r + 1, ctx, ft, dir);
        lemma_neutral3(
            seq![sig(PrintSignal::NewLine)],
            wrapped(row_cells_items(table, r, 0, ctx, ft, dir), PrintSignal::StartForceNoNewLines, PrintSignal::FinishForceNoNewLines),
            compact_rows_items(table, r + 1, ctx, ft, dir),
        );
    }
}

proof fn lemma_table_neutral(table: MdNode, ctx: GenContext, ft: Seq<char>, dir: Seq<char>)
    ensures
        neutral(table_items(table, ctx, ft, dir)),
    decreases table, 3int, 0int, 0int,
{
    let n = table.children@.len() as int;
    if n == 0 {
        lemma_empty_neutral();
    } else {
        match ctx.cfg.table_format {
            TableFormat::Compact => {
                let divider = crate::gen_block::divider_row(
                    crate::generate::table_width(table) as int,
                    crate::generate::table_alignments(table),
                );
                lemma_row_cells_neutral(table, 0, 0, ctx, ft, dir);
                lemma_wrapped_neutral(
                    row_cells_items(table, 0, 0, ctx, ft, dir),
                    PrintSignal::StartForceNoNewLines,
                    PrintSignal::FinishForceNoNewLines,
                );
                lemma_plain_signal_neutral(PrintSignal::NewLine);
                lemma_text_neutral(divider);
                lemma_neutral_concat(seq![sig(PrintSignal::NewLine)], seq![PrintItemView::Text(divider)]);
                assert(seq![sig(PrintSignal::NewLine), PrintItemView::Text(divider)] == seq![sig(PrintSignal::NewLine)]
                    + seq![PrintItemView::Text(divider)]);
                lemma_compact_rows_neutral(table, 1, ctx, ft, dir);
                lemma_neutral3(
                    wrapped(row_cells_items(table, 0, 0, ctx, ft, dir), PrintSignal::StartForceNoNewLines, PrintSignal::FinishForceNoNewLines),
                    seq![sig(PrintSignal::NewLine), PrintItemView::Text(divider)],
                    compact_rows_items(table, 1, ctx, ft, dir),
                );
            },
            TableFormat::Aligned => {
                let t = crate::gen_block::table_text(
                    crate::generate::row_cell_texts(table, 0, 0, ctx, ft, dir),
                    crate::generate::body_cell_texts(table, 1, ctx, ft, dir),
                    crate::generate::table_alignments(table),
                    TableFormat::Aligned,
                );
                lemma_string_items_plain(t, false);
                lemma_plain_neutral(string_items(t, false));
            },
        }
    }
}

proof fn lemma_levels_fit(items: Seq<PrintItemView>, i: int, l: Levels)
    requires
        0 <= i <= items.len() <= u32::MAX,
        counts_ok(l),
        l.0 <= i,
        bal(items, i, l) is Some,
    ensures
        levels_fit(quote_kinds(items), i, l.0),
    decreases items.len() - i,
{
    let kinds = quote_kinds(items);
    if i < items.len() {
        assert(kinds[i] == quote_kind(items[i]));
        match items[i] {
            PrintItemView::Signal(s) => {
                let n = signal_step(s, l);
                assert(level_after(kinds[i], l.0) == n.0);
                lemma_levels_fit(items, i + 1, n);
            },
            _ => lemma_levels_fit(items, i + 1, l),
        }
    }
}

/// Neutral items, no more of them than a `u32` counts, have every line
/// prefixed inside block quotes: the indentation they end was started.
pub proof fn lemma_neutral_quoted(items: Seq<PrintItemView>, depth: usize)
    requires
        neutral(items),
        items.len() <= u32::MAX,
    ensures
        quoted(items, depth) == quote_step_items(quote_from(quote_kinds(items), depth, 0, 0), items),
{
    assert(counts_ok((0int, 0int, 0int, 0int)));
    assert(bal(items, 0, (0int, 0int, 0int, 0int)) == Some((0int, 0int, 0int, 0int)));
    lemma_levels_fit(items, 0, (0int, 0int, 0int, 0int));
}

/// From item `i` on, starting from the counts `l`: no text holds a line
/// break or tab, and where the counts of open sections stay at zero or
/// above they stay within the printer's integer types.
pub open spec fn within_printer(items: Seq<PrintItemView>, i: int, l: Levels) -> bool
    decreases items, items.len() - i,
{
    if i < 0 || i >= items.len() {
        true
    } else {
        match items[i] {
            PrintItemView::Text(t) => clean_text(t) && within_printer(items, i + 1, l),
            PrintItemView::Signal(s) => {
                let n = signal_step(s, l);
                (counts_ok(n) ==> levels_fit_printer(n)) && within_printer(items, i + 1, n)
            },
            PrintItemView::IfStartOfLine(inner) => {
                proof {
                    assert(decreases_to!(items => items[i]));
                }
                within_printer(inner, 0, l) && within_printer(items, i + 1, l)
            },
            PrintItemView::SpaceIfNoNewLinesElseNewLine => within_printer(items, i + 1, l),
        }
    }
}

/// The printer's walk over the items is the balance of their sections,
/// where the texts and counts stay within what the printer takes.
pub proof fn lemma_walk_bal(items: Seq<PrintItemView>, i: int, l: Levels)
    requires
        levels_fit_printer(l),
    ensures
        walk(items, i, l) == (if bal(items, i, l) is Some && within_printer(items, i, l) {
            bal(items, i, l)
        } else {
            None
        }),
    decreases items, items.len() - i,
{
    if 0 <= i < items.len() {
        match items[i] {
            PrintItemView::Signal(s) => {
                let n = signal_step(s, l);
                if levels_fit_printer(n) {
                    lemma_walk_bal(items, i + 1, n);
                }
            },
            PrintItemView::IfStartOfLine(inner) => {
                assert(decreases_to!(items => items[i]));
                lemma_walk_bal(inner, 0, l);
                lemma_walk_bal(items, i + 1, l);
            },
            _ => lemma_walk_bal(items, i + 1, l),
        }
    }
}

/// Neutral items are printed without a panic of the printer exactly when
/// no text holds a line break or tab and their sections nest within the
/// printer's counters.
pub proof fn lemma_neutral_printable(items: Seq<PrintItemView>)
    requires
        neutral(items),
    ensures
        printable(items) <==> within_printer(items, 0, (0int, 0int, 0int, 0int)),
{
    assert(counts_ok((0int, 0int, 0int, 0int)));
    assert(bal(items, 0, (0int, 0int, 0int, 0int)) == Some((0int, 0int, 0int, 0int)));
    lemma_walk_bal(items, 0, (0int, 0int, 0int, 0int));
}

} // verus!
