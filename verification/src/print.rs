//! Print items, the intermediate form of a formatted document, and their
//! printing with dprint's printer.
use vstd::prelude::*;

use dprint_core::formatting::{Arena, PrintItems, Signal, TracingResult};

use crate::format::PrintSettings;

verus! {

/// dprint's allocator of print items.
#[verifier::external_type_specification]
#[verifier::external_body]
pub struct ExArena(dprint_core::formatting::Arena);

/// dprint's list of print items.
#[verifier::external_type_specification]
#[verifier::external_body]
pub struct ExPrintItems<'a>(dprint_core::formatting::PrintItems<'a>);

/// dprint's record of a printing, for analysis.
#[verifier::external_type_specification]
#[verifier::external_body]
pub struct ExTracingResult(dprint_core::formatting::TracingResult);

/// A signal to the printer.
#[derive(Clone, Copy, PartialEq, Eq, Structural, Debug)]
pub enum PrintSignal {
    /// A line break.
    NewLine,
    /// A tab.
    Tab,
    /// A space, or a line break where the line would be too long.
    SpaceOrNewLine,
    /// A space, unless it would end the line.
    SpaceIfNotTrailing,
    /// The start of an indented section.
    StartIndent,
    /// The end of an indented section.
    FinishIndent,
    /// The start of a group that is broken into lines last.
    StartNewLineGroup,
    /// The end of such a group.
    FinishNewLineGroup,
    /// The start of a section printed without indentation.
    StartIgnoringIndent,
    /// The end of such a section.
    FinishIgnoringIndent,
    /// The start of a section printed without line breaks.
    StartForceNoNewLines,
    /// The end of such a section.
    FinishForceNoNewLines,
}

/// An item of a printed document.
#[derive(PartialEq, Eq, Debug)]
pub enum PrintItem {
    /// Text without line breaks.
    Text(Vec<char>),
    /// A signal to the printer.
    Signal(PrintSignal),
    /// Items printed only at the start of a line.
    IfStartOfLine(Vec<PrintItem>),
    /// A space inside a section without line breaks, a line break elsewhere.
    SpaceIfNoNewLinesElseNewLine,
}

/// The view of a print item.
pub enum PrintItemView {
    Text(Seq<char>),
    Signal(PrintSignal),
    IfStartOfLine(Seq<PrintItemView>),
    SpaceIfNoNewLinesElseNewLine,
}

/// The view of a print item.
pub open spec fn item_view(i: PrintItem) -> PrintItemView
    decreases i,
{
    match i {
        PrintItem::Text(t) => PrintItemView::Text(t@),
        PrintItem::Signal(s) => PrintItemView::Signal(s),
        PrintItem::IfStartOfLine(v) => PrintItemView::IfStartOfLine(
            Seq::new(v@.len(), |k: int| if 0 <= k < v@.len() {
                item_view(v@[k])
            } else {
                PrintItemView::SpaceIfNoNewLinesElseNewLine
            }),
        ),
        PrintItem::SpaceIfNoNewLinesElseNewLine => PrintItemView::SpaceIfNoNewLinesElseNewLine,
    }
}

/// The views of print items.
pub open spec fn items_view(v: Seq<PrintItem>) -> Seq<PrintItemView> {
    v.map_values(|i: PrintItem| item_view(i))
}

/// What dprint's print items hold, as library items.
pub uninterp spec fn items_content(p: PrintItems) -> Seq<PrintItemView>;

/// `dprint_core::formatting::print`: the text that dprint's printer writes
/// for the items with the settings.
pub uninterp spec fn printed(items: Seq<PrintItemView>, o: PrintSettings) -> Seq<char>;

/// `Arena::new`: the allocator of a list of dprint print items.
#[verifier::external_body]
fn new_arena() -> Arena {
    Arena::new()
}

/// `PrintItems::new`: an empty list of dprint print items.
#[verifier::external_body]
fn new_items(arena: &Arena) -> (r: PrintItems)
    ensures
        items_content(r) == Seq::<PrintItemView>::empty(),
{
    PrintItems::new(arena)
}

/// `PrintItems::push_str`: appends a copy of the text.
#[verifier::external_body]
fn push_text(p: &mut PrintItems, text: &str)
    ensures
        items_content(*final(p)) == items_content(*old(p)).push(PrintItemView::Text(text@)),
{
    p.push_str(text)
}

/// `PrintItems::push_signal`: appends the signal of the same name.
#[verifier::external_body]
fn push_signal(p: &mut PrintItems, s: PrintSignal)
    ensures
        items_content(*final(p)) == items_content(*old(p)).push(PrintItemView::Signal(s)),
{
    p.push_signal(match s {
        PrintSignal::NewLine => Signal::NewLine, PrintSignal::Tab => Signal::Tab,
        PrintSignal::SpaceOrNewLine => Signal::SpaceOrNewLine, PrintSignal::SpaceIfNotTrailing => Signal::SpaceIfNotTrailing,
        PrintSignal::StartIndent => Signal::StartIndent, PrintSignal::FinishIndent => Signal::FinishIndent,
        PrintSignal::StartNewLineGroup => Signal::StartNewLineGroup, PrintSignal::FinishNewLineGroup => Signal::FinishNewLineGroup,
        PrintSignal::StartIgnoringIndent => Signal::StartIgnoringIndent,
        PrintSignal::FinishIgnoringIndent => Signal::FinishIgnoringIndent,
        PrintSignal::StartForceNoNewLines => Signal::StartForceNoNewLines,
        PrintSignal::FinishForceNoNewLines => Signal::FinishForceNoNewLines,
    })
}

/// `PrintItems::push_condition` of `conditions::if_true` with
/// `condition_resolvers::is_start_of_line`: appends `inner`, printed only at
/// the start of a line.
#[verifier::external_body]
fn push_if_start_of_line<'a>(p: &mut PrintItems<'a>, inner: PrintItems<'a>)
    ensures
        items_content(*final(p)) == items_content(*old(p)).push(PrintItemView::IfStartOfLine(items_content(inner))),
{
    let resolver = dprint_core::formatting::condition_resolvers::is_start_of_line();
    p.push_condition(dprint_core::formatting::conditions::if_true("angleBracketIfStartOfLine", resolver, inner))
}

/// `PrintItems::push_condition` of `conditions::if_true_or` with
/// `condition_resolvers::is_forcing_no_newlines`: appends a space where line
/// breaks are being suppressed and a line break elsewhere.
#[verifier::external_body]
fn push_space_if_no_new_lines(p: &mut PrintItems)
    ensures
        items_content(*final(p)) == items_content(*old(p)).push(PrintItemView::SpaceIfNoNewLinesElseNewLine),
{
    let (mut space, mut new_line) = (PrintItems::new(p.arena()), PrintItems::new(p.arena()));
    space.push_space();
    new_line.push_signal(Signal::NewLine);
    let resolver = dprint_core::formatting::condition_resolvers::is_forcing_no_newlines();
    let name = "newLineOrSpaceIfNewlinesDisabled";
    p.push_condition(dprint_core::formatting::conditions::if_true_or(name, resolver, space, new_line))
}

/// The counts of open sections while printing: indentation, line break
/// groups, sections without line breaks, and sections ignoring indentation.
pub type Levels = (int, int, int, int);

/// The counts after a signal.
pub open spec fn signal_step(s: PrintSignal, l: Levels) -> Levels {
    match s {
        PrintSignal::StartIndent => (l.0 + 1, l.1, l.2, l.3),
        PrintSignal::FinishIndent => (l.0 - 1, l.1, l.2, l.3),
        PrintSignal::StartNewLineGroup => (l.0, l.1 + 1, l.2, l.3),
        PrintSignal::FinishNewLineGroup => (l.0, l.1 - 1, l.2, l.3),
        PrintSignal::StartForceNoNewLines => (l.0, l.1, l.2 + 1, l.3),
        PrintSignal::FinishForceNoNewLines => (l.0, l.1, l.2 - 1, l.3),
        PrintSignal::StartIgnoringIndent => (l.0, l.1, l.2, l.3 + 1),
        PrintSignal::FinishIgnoringIndent => (l.0, l.1, l.2, l.3 - 1),
        _ => l,
    }
}

/// Counts that dprint's printer holds: none below zero, and each within
/// the integer type that the printer keeps it in.
pub open spec fn levels_fit_printer(l: Levels) -> bool {
    0 <= l.0 <= 255 && 0 <= l.1 <= 65535 && 0 <= l.2 <= 255 && 0 <= l.3 <= 255
}

/// Text without line breaks and tabs, which the printer takes as signals.
pub open spec fn clean_text(t: Seq<char>) -> bool {
    forall|i: int| 0 <= i < t.len() ==> #[trigger] t[i] != '\n' && t[i] != '\t'
}

/// The counts after the items from `i` on, starting from `l`: nothing
/// where a text holds a line break or tab, a count leaves the printer's
/// range, or the items printed at the start of a line do not close what
/// they open.
pub open spec fn walk(items: Seq<PrintItemView>, i: int, l: Levels) -> Option<Levels>
    decreases items, items.len() - i,
{
    if i < 0 || i >= items.len() {
        Some(l)
    } else {
        match items[i] {
            PrintItemView::Text(t) => if clean_text(t) {
                walk(items, i + 1, l)
            } else {
                None
            },
            PrintItemView::Signal(s) => {
                let n = signal_step(s, l);
                if levels_fit_printer(n) {
                    walk(items, i + 1, n)
                } else {
                    None
                }
            },
            PrintItemView::IfStartOfLine(inner) => {
                proof {
                    assert(decreases_to!(items => items[i]));
                }
                if walk(inner, 0, l) == Some(l) {
                    walk(items, i + 1, l)
                } else {
                    None
                }
            },
            PrintItemView::SpaceIfNoNewLinesElseNewLine => walk(items, i + 1, l),
        }
    }
}

/// Items that dprint's printer prints without panicking: every section
/// that they end was started, all end closed, the counts of open sections
/// stay within the printer's integer types, and no text holds a line
/// break or tab.
pub open spec fn printable(items: Seq<PrintItemView>) -> bool {
    walk(items, 0, (0, 0, 0, 0)) == Some((0int, 0int, 0int, 0int))
}

/// `dprint_core::formatting::print`: the text that dprint's printer writes
/// for the items with the settings; the contract names it `printed`. The
/// printer panics on a section end without its start, on counts beyond its
/// integer types, and (in builds with debug assertions) on texts holding a
/// line break or tab and on sections left open; the items are required to
/// be free of these.
#[verifier::external_body]
fn print_dprint_items(p: PrintItems, o: &PrintSettings) -> (r: String)
    requires
        printable(items_content(p)),
    ensures
        r@ == printed(items_content(p), *o),
{
    let options = dprint_core::formatting::PrintOptions {
        indent_width: o.indent_width, max_width: o.max_width, use_tabs: o.use_tabs, new_line_text: o.new_line_text,
    };
    dprint_core::formatting::print(p, options)
}

/// `dprint_core::formatting::trace_printing`: dprint's record of how its
/// printer prints the items with the settings. It runs the same printer as
/// `print` and panics on the same items, which are required to be free of
/// them; the record itself is not described.
#[verifier::external_body]
fn trace_dprint_items(p: PrintItems, o: &PrintSettings) -> TracingResult
    requires
        printable(items_content(p)),
{
    let options = dprint_core::formatting::PrintOptions {
        indent_width: o.indent_width, max_width: o.max_width, use_tabs: o.use_tabs, new_line_text: o.new_line_text,
    };
    dprint_core::formatting::trace_printing(p, options)
}

/// Builds dprint's print items for the library's items.
fn build_items<'a>(arena: &'a Arena, items: &Vec<PrintItem>) -> (r: PrintItems<'a>)
    ensures
        items_content(r) == items_view(items@),
    decreases items@,
{
    let mut p = new_items(arena);
    let mut i: usize = 0;
    while i < items.len()
        invariant
            i <= items@.len(),
            items_content(p) == items_view(items@.take(i as int)),
        decreases items.len() - i,
    {
        let ghost before = items_content(p);
        match &items[i] {
            PrintItem::Text(t) => {
                let s = crate::chars::chars_to_string(t.as_slice());
                push_text(&mut p, s.as_str());
                assert(items_content(p) == before.push(item_view(items@[i as int])));
            },
            PrintItem::Signal(sig) => {
                push_signal(&mut p, *sig);
                assert(items_content(p) == before.push(item_view(items@[i as int])));
            },
            PrintItem::IfStartOfLine(inner) => {
                assert(decreases_to!(items@ => items@[i as int]));
                let q = build_items(arena, inner);
                push_if_start_of_line(&mut p, q);
                proof {
                    let iv = item_view(items@[i as int]);
                    if let PrintItemView::IfStartOfLine(sv) = iv {
                        assert(sv =~= items_view(inner@));
                    }
                    assert(items_content(p) == before.push(item_view(items@[i as int])));
                }
            },
            PrintItem::SpaceIfNoNewLinesElseNewLine => push_space_if_no_new_lines(&mut p),
        }
        assert(items_content(p) == before.push(item_view(items@[i as int])));
        assert(items_view(items@.take(i + 1)) =~= items_view(items@.take(i as int)).push(item_view(items@[i as int])));
        i += 1;
    }
    assert(items@.take(i as int) =~= items@);
    p
}

/// Prints the items with dprint's printer.
pub fn print_items(items: &Vec<PrintItem>, o: &PrintSettings) -> (r: String)
    requires
        printable(items_view(items@)),
    ensures
        r@ == printed(items_view(items@), *o),
{
    let arena = new_arena();
    let p = build_items(&arena, items);
    print_dprint_items(p, o)
}

/// Returns whether a text holds no line break or tab.
fn clean_text_exec(t: &Vec<char>) -> (r: bool)
    ensures
        r == clean_text(t@),
{
    let mut i: usize = 0;
    while i < t.len()
        invariant
            i <= t@.len(),
            forall|j: int| 0 <= j < i ==> #[trigger] t@[j] != '\n' && t@[j] != '\t',
        decreases t.len() - i,
    {
        if t[i] == '\n' || t[i] == '\t' {
            return false;
        }
        i += 1;
    }
    true
}

/// Returns the counts after the items, or nothing where they cannot be printed.
fn walk_exec(items: &Vec<PrintItem>, l: (u32, u32, u32, u32)) -> (r: Option<(u32, u32, u32, u32)>)
    requires
        levels_fit_printer((l.0 as int, l.1 as int, l.2 as int, l.3 as int)),
    ensures
        match r {
            Some(x) => walk(items_view(items@), 0, (l.0 as int, l.1 as int, l.2 as int, l.3 as int)) == Some(
                (x.0 as int, x.1 as int, x.2 as int, x.3 as int),
            ),
            None => walk(items_view(items@), 0, (l.0 as int, l.1 as int, l.2 as int, l.3 as int)) is None,
        },
    decreases items@,
{
    let ghost v = items_view(items@);
    let ghost start = (l.0 as int, l.1 as int, l.2 as int, l.3 as int);
    let mut c = l;
    let mut i: usize = 0;
    while i < items.len()
        invariant
            v == items_view(items@),
            start == (l.0 as int, l.1 as int, l.2 as int, l.3 as int),
            i <= items@.len(),
            levels_fit_printer((c.0 as int, c.1 as int, c.2 as int, c.3 as int)),
            walk(v, 0, start) == walk(v, i as int, (c.0 as int, c.1 as int, c.2 as int, c.3 as int)),
        decreases items.len() - i,
    {
        assert(v[i as int] == item_view(items@[i as int]));
        match &items[i] {
            PrintItem::Text(t) => {
                if !clean_text_exec(t) {
                    assert(v[i as int] == PrintItemView::Text(t@));
                    assert(walk(v, i as int, (c.0 as int, c.1 as int, c.2 as int, c.3 as int)) is None);
                    return None;
                }
            },
            PrintItem::Signal(s) => {
                let n: (u32, u32, u32, u32) = match s {
                    PrintSignal::StartIndent => {
                        if c.0 >= 255 {
                            return None;
                        }
                        (c.0 + 1, c.1, c.2, c.3)
                    },
                    PrintSignal::FinishIndent => {
                        if c.0 == 0 {
                            return None;
                        }
                        (c.0 - 1, c.1, c.2, c.3)
                    },
                    PrintSignal::StartNewLineGroup => {
                        if c.1 >= 65535 {
                            return None;
                        }
                        (c.0, c.1 + 1, c.2, c.3)
                    },
                    PrintSignal::FinishNewLineGroup => {
                        if c.1 == 0 {
                            return None;
                        }
                        (c.0, c.1 - 1, c.2, c.3)
                    },
                    PrintSignal::StartForceNoNewLines => {
                        if c.2 >= 255 {
                            return None;
                        }
                        (c.0, c.1, c.2 + 1, c.3)
                    },
                    PrintSignal::FinishForceNoNewLines => {
                        if c.2 == 0 {
                            return None;
                        }
                        (c.0, c.1, c.2 - 1, c.3)
                    },
                    PrintSignal::StartIgnoringIndent => {
                        if c.3 >= 255 {
                            return None;
                        }
                        (c.0, c.1, c.2, c.3 + 1)
                    },
                    PrintSignal::FinishIgnoringIndent => {
                        if c.3 == 0 {
                            return None;
                        }
                        (c.0, c.1, c.2, c.3 - 1)
                    },
                    _ => c,
                };
                c = n;
            },
            PrintItem::IfStartOfLine(inner) => {
                assert(decreases_to!(items@ => items@[i as int]));
                proof {
                    if let PrintItemView::IfStartOfLine(sv) = v[i as int] {
                        assert(sv =~= items_view(inner@));
                    }
                }
                let ghost cur = (c.0 as int, c.1 as int, c.2 as int, c.3 as int);
                match walk_exec(inner, c) {
                    Some(x) => {
                        if x.0 != c.0 || x.1 != c.1 || x.2 != c.2 || x.3 != c.3 {
                            assert(walk(items_view(inner@), 0, cur) != Some(cur));
                            assert(walk(v, i as int, cur) is None);
                            return None;
                        }
                    },
                    None => {
                        assert(walk(v, i as int, cur) is None);
                        return None;
                    },
                }
            },
            PrintItem::SpaceIfNoNewLinesElseNewLine => {},
        }
        i += 1;
    }
    Some(c)
}

/// Returns whether dprint's printer prints the items without panicking.
pub fn is_printable(items: &Vec<PrintItem>) -> (r: bool)
    ensures
        r == printable(items_view(items@)),
{
    match walk_exec(items, (0, 0, 0, 0)) {
        Some(x) => x.0 == 0 && x.1 == 0 && x.2 == 0 && x.3 == 0,
        None => false,
    }
}

/// Prints the items with dprint's printer where it prints them without
/// panicking, and returns nothing otherwise.
pub fn print_checked(items: &Vec<PrintItem>, o: &PrintSettings) -> (r: Option<String>)
    ensures
        match r {
            Some(t) => printable(items_view(items@)) && t@ == printed(items_view(items@), *o),
            None => !printable(items_view(items@)),
        },
{
    if is_printable(items) {
        Some(print_items(items, o))
    } else {
        None
    }
}

/// Records with dprint's printer how it prints the items, where it prints
/// them without panicking, and returns nothing otherwise.
pub fn trace_checked(items: &Vec<PrintItem>, o: &PrintSettings) -> (r: Option<TracingResult>)
    ensures
        r is Some <==> printable(items_view(items@)),
{
    if is_printable(items) {
        let arena = new_arena();
        let p = build_items(&arena, items);
        Some(trace_dprint_items(p, o))
    } else {
        None
    }
}

} // verus!
