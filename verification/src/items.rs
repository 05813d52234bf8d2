//! Building print items: text split at lines and tabs, and the sections
//! that indent, suppress line breaks or group what they hold.
use vstd::prelude::*;

use crate::chars::copy_chars;
use crate::gen_block::std_lines_from;
use crate::gen_inline::Separator;
use crate::lines::{lemma_piece_end, piece_end, std_line_end};
use crate::print::{item_view, items_view, PrintItem, PrintItemView, PrintSignal};
use crate::text::{char_at, first_from, lemma_first_from, lemma_first_from_props, trim_end, trim_end_exec};

verus! {

/// A signal item.
pub open spec fn sig(s: PrintSignal) -> PrintItemView {
    PrintItemView::Signal(s)
}

/// The items of a line: its parts between tabs, each tab as a signal.
pub open spec fn line_items(line: Seq<char>) -> Seq<PrintItemView>
    decreases line.len(),
{
    let k = first_from(0, line.len() as int, char_at(line, '\t'));
    if k >= line.len() {
        if line.len() > 0 {
            seq![PrintItemView::Text(line)]
        } else {
            Seq::empty()
        }
    } else {
        proof {
            lemma_first_from_props(0, line.len() as int, char_at(line, '\t'));
        }
        (if k > 0 {
            seq![PrintItemView::Text(line.take(k))]
        } else {
            Seq::empty()
        }) + seq![sig(PrintSignal::Tab)] + line_items(line.skip(k + 1))
    }
}

/// Appends an item.
pub fn push_item(out: &mut Vec<PrintItem>, item: PrintItem)
    ensures
        items_view(final(out)@) == items_view(old(out)@).push(item_view(item)),
{
    let ghost before = out@;
    let ghost iv = item_view(item);
    out.push(item);
    assert(items_view(out@) =~= items_view(before).push(iv));
}

/// Appends the items of a line.
pub fn push_line_items(out: &mut Vec<PrintItem>, line: &[char])
    ensures
        items_view(final(out)@) == items_view(old(out)@) + line_items(line@),
    decreases line@.len(),
{
    let ghost before = items_view(out@);
    let mut k: usize = 0;
    while k < line.len() && line[k] != '\t'
        invariant
            k <= line@.len(),
            forall|j: int| 0 <= j < k ==> !#[trigger] char_at(line@, '\t')(j),
        decreases line.len() - k,
    {
        k += 1;
    }
    proof {
        lemma_first_from(0, k as int, line@.len() as int, char_at(line@, '\t'));
    }
    if k >= line.len() {
        if line.len() > 0 {
            push_item(out, PrintItem::Text(copy_chars(line)));
        }
        assert(items_view(out@) =~= before + line_items(line@));
    } else {
        if k > 0 {
            push_item(out, PrintItem::Text(copy_chars(&line[0..k])));
        }
        push_item(out, PrintItem::Signal(PrintSignal::Tab));
        assert(line@.subrange(0, k as int) =~= line@.take(k as int));
        assert(line@.subrange(k + 1, line@.len() as int) =~= line@.skip(k + 1));
        let ghost mid = items_view(out@);
        assert(mid =~= before + (if k > 0 {
            seq![PrintItemView::Text(line@.take(k as int))]
        } else {
            Seq::empty()
        }) + seq![sig(PrintSignal::Tab)]);
        push_line_items(out, &line[k + 1..line.len()]);
        assert(items_view(out@) =~= before + line_items(line@));
    }
}

/// Returns the lines of a text, as `str::lines` gives them.
pub fn std_lines(text: &[char]) -> (r: Vec<Vec<char>>)
    ensures
        r@.map_values(|l: Vec<char>| l@) == std_lines_from(text@, 0),
{
    let ghost s = text@;
    let len = text.len();
    let mut lines: Vec<Vec<char>> = Vec::new();
    let mut start: usize = 0;
    while start < len
        invariant
            s == text@,
            len == s.len(),
            start <= len,
            lines@.map_values(|l: Vec<char>| l@) + std_lines_from(s, start as int) == std_lines_from(s, 0),
        decreases len - start,
    {
        let mut j = start;
        while j < len && text[j] != '\n'
            invariant
                s == text@,
                len == s.len(),
                start <= j <= len,
                forall|k: int| start <= k < j ==> s[k] != '\n',
            decreases len - j,
        {
            j += 1;
        }
        proof {
            lemma_first_from(start as int, j as int, len as int, char_at(s, '\n'));
            lemma_piece_end(s, start as int);
        }
        let line_end = if j < len {
            if j > start && text[j - 1] == '\r' {
                j - 1
            } else {
                j
            }
        } else {
            len
        };
        let ghost old_lines = lines@.map_values(|l: Vec<char>| l@);
        lines.push(copy_chars(&text[start..line_end]));
        let next = if j < len {
            j + 1
        } else {
            len
        };
        assert(lines@.map_values(|l: Vec<char>| l@) =~= old_lines.push(s.subrange(start as int, std_line_end(s, start as int))));
        assert(std_lines_from(s, start as int) == seq![s.subrange(start as int, std_line_end(s, start as int))]
            + std_lines_from(s, piece_end(s, start as int)));
        assert(next == piece_end(s, start as int));
        assert(lines@.map_values(|l: Vec<char>| l@) + std_lines_from(s, next as int) =~= old_lines
            + std_lines_from(s, start as int));
        start = next;
    }
    assert(lines@.map_values(|l: Vec<char>| l@) =~= lines@.map_values(|l: Vec<char>| l@) + std_lines_from(s, start as int));
    lines
}

/// The line, without trailing white space when `trim` holds.
pub open spec fn maybe_trimmed(line: Seq<char>, trim: bool) -> Seq<char> {
    if trim {
        trim_end(line)
    } else {
        line
    }
}

/// The items of `lines[i..]`, each after a line break but the first line.
pub open spec fn lines_items(lines: Seq<Seq<char>>, i: int, trim: bool) -> Seq<PrintItemView>
    decreases lines.len() - i,
{
    if i < 0 || i >= lines.len() {
        Seq::empty()
    } else {
        (if i > 0 {
            seq![sig(PrintSignal::NewLine)]
        } else {
            Seq::empty()
        }) + line_items(maybe_trimmed(lines[i], trim)) + lines_items(lines, i + 1, trim)
    }
}

/// The items of a text: its lines separated by line breaks, and a line
/// break when it ends with one; each line without trailing white space
/// when `trim` holds.
pub open spec fn string_items(s: Seq<char>, trim: bool) -> Seq<PrintItemView> {
    lines_items(std_lines_from(s, 0), 0, trim) + if s.len() > 0 && s.last() == '\n' {
        seq![sig(PrintSignal::NewLine)]
    } else {
        Seq::empty()
    }
}

/// Appends the items of a text.
pub fn push_string_items(out: &mut Vec<PrintItem>, s: &[char], trim: bool)
    ensures
        items_view(final(out)@) == items_view(old(out)@) + string_items(s@, trim),
{
    let ghost before = items_view(out@);
    let lines = std_lines(s);
    let ghost ls = lines@.map_values(|l: Vec<char>| l@);
    let mut i: usize = 0;
    while i < lines.len()
        invariant
            ls == lines@.map_values(|l: Vec<char>| l@),
            ls == std_lines_from(s@, 0),
            i <= ls.len(),
            items_view(out@) + lines_items(ls, i as int, trim) == before + lines_items(ls, 0, trim),
        decreases lines.len() - i,
    {
        let ghost at = items_view(out@);
        if i > 0 {
            push_item(out, PrintItem::Signal(PrintSignal::NewLine));
        }
        let line: &[char] = if trim {
            trim_end_exec(lines[i].as_slice())
        } else {
            lines[i].as_slice()
        };
        assert(line@ == maybe_trimmed(ls[i as int], trim));
        push_line_items(out, line);
        assert(items_view(out@) + lines_items(ls, i + 1, trim) =~= at + lines_items(ls, i as int, trim));
        i += 1;
    }
    if s.len() > 0 && s[s.len() - 1] == '\n' {
        push_item(out, PrintItem::Signal(PrintSignal::NewLine));
    }
    assert(items_view(out@) =~= before + string_items(s@, trim));
}

/// Whether a text holds a line break.
pub open spec fn has_newline(s: Seq<char>) -> bool {
    exists|j: int| 0 <= j < s.len() && s[j] == '\n'
}

/// The items of a text printed as it is, ignoring the indentation where it
/// spans lines.
pub open spec fn raw_items(s: Seq<char>, trim: bool) -> Seq<PrintItemView> {
    if has_newline(s) {
        seq![sig(PrintSignal::StartIgnoringIndent)] + string_items(s, trim) + seq![sig(PrintSignal::FinishIgnoringIndent)]
    } else {
        line_items(maybe_trimmed(s, trim))
    }
}

/// Appends the items of a text printed as it is.
pub fn push_raw_items(out: &mut Vec<PrintItem>, s: &[char], trim: bool)
    ensures
        items_view(final(out)@) == items_view(old(out)@) + raw_items(s@, trim),
{
    let ghost before = items_view(out@);
    let mut k: usize = 0;
    while k < s.len() && s[k] != '\n'
        invariant
            k <= s@.len(),
            forall|j: int| 0 <= j < k ==> s@[j] != '\n',
        decreases s.len() - k,
    {
        k += 1;
    }
    if k < s.len() {
        push_item(out, PrintItem::Signal(PrintSignal::StartIgnoringIndent));
        push_string_items(out, s, trim);
        push_item(out, PrintItem::Signal(PrintSignal::FinishIgnoringIndent));
        assert(items_view(out@) =~= before + raw_items(s@, trim));
    } else {
        let line: &[char] = if trim {
            trim_end_exec(s)
        } else {
            s
        };
        push_line_items(out, line);
    }
}

/// `items` between `n` starts and `n` ends of indentation, when not empty.
pub open spec fn indented(items: Seq<PrintItemView>, n: nat) -> Seq<PrintItemView> {
    if items.len() == 0 {
        items
    } else {
        Seq::new(n, |k: int| sig(PrintSignal::StartIndent)) + items + Seq::new(n, |k: int| sig(PrintSignal::FinishIndent))
    }
}

/// `items` between a start and an end signal, when not empty.
pub open spec fn wrapped(items: Seq<PrintItemView>, start: PrintSignal, finish: PrintSignal) -> Seq<PrintItemView> {
    if items.len() == 0 {
        items
    } else {
        seq![sig(start)] + items + seq![sig(finish)]
    }
}

/// Appends `items` indented `n` times.
pub fn push_indented(out: &mut Vec<PrintItem>, items: Vec<PrintItem>, n: u32)
    ensures
        items_view(final(out)@) == items_view(old(out)@) + indented(items_view(items@), n as nat),
{
    let ghost before = items_view(out@);
    let ghost iv = items_view(items@);
    if items.len() == 0 {
        assert(items_view(out@) =~= before + indented(iv, n as nat));
        return;
    }
    let mut k: u32 = 0;
    while k < n
        invariant
            k <= n,
            items_view(out@) == before + Seq::new(k as nat, |j: int| sig(PrintSignal::StartIndent)),
        decreases n - k,
    {
        push_item(out, PrintItem::Signal(PrintSignal::StartIndent));
        k += 1;
        assert(items_view(out@) =~= before + Seq::new(k as nat, |j: int| sig(PrintSignal::StartIndent)));
    }
    let ghost mid = items_view(out@);
    let mut items = items;
    let ghost moved = items_view(items@);
    out.append(&mut items);
    assert(items_view(out@) =~= mid + moved);
    let ghost mid2 = items_view(out@);
    let mut k: u32 = 0;
    while k < n
        invariant
            k <= n,
            items_view(out@) == mid2 + Seq::new(k as nat, |j: int| sig(PrintSignal::FinishIndent)),
        decreases n - k,
    {
        push_item(out, PrintItem::Signal(PrintSignal::FinishIndent));
        k += 1;
        assert(items_view(out@) =~= mid2 + Seq::new(k as nat, |j: int| sig(PrintSignal::FinishIndent)));
    }
    assert(items_view(out@) =~= before + indented(iv, n as nat));
}

/// Appends `items` between a start and an end signal.
pub fn push_wrapped(out: &mut Vec<PrintItem>, items: Vec<PrintItem>, start: PrintSignal, finish: PrintSignal)
    ensures
        items_view(final(out)@) == items_view(old(out)@) + wrapped(items_view(items@), start, finish),
{
    let ghost before = items_view(out@);
    let ghost iv = items_view(items@);
    if items.len() == 0 {
        assert(items_view(out@) =~= before + wrapped(iv, start, finish));
        return;
    }
    push_item(out, PrintItem::Signal(start));
    push_items(out, items);
    push_item(out, PrintItem::Signal(finish));
    assert(items_view(out@) =~= before + wrapped(iv, start, finish));
}

/// Appends items.
pub fn push_items(out: &mut Vec<PrintItem>, items: Vec<PrintItem>)
    ensures
        items_view(final(out)@) == items_view(old(out)@) + items_view(items@),
{
    let ghost before = items_view(out@);
    let ghost iv = items_view(items@);
    let mut items = items;
    out.append(&mut items);
    assert(items_view(out@) =~= before + iv);
}

/// The item of a separator.
pub open spec fn separator_item(s: Separator) -> PrintItemView {
    match s {
        Separator::Space => PrintItemView::Text(seq![' ']),
        Separator::NewLine => sig(PrintSignal::NewLine),
        Separator::SpaceOrNewLine => sig(PrintSignal::SpaceOrNewLine),
        Separator::SpaceIfNoNewLinesElseNewLine => PrintItemView::SpaceIfNoNewLinesElseNewLine,
    }
}

/// The items of separators.
pub open spec fn separator_items(v: Seq<Separator>) -> Seq<PrintItemView> {
    v.map_values(|s: Separator| separator_item(s))
}

/// Returns the item of a separator.
pub fn separator_print_item(s: Separator) -> (r: PrintItem)
    ensures
        item_view(r) == separator_item(s),
{
    match s {
        Separator::Space => {
            let t = vec![' '];
            assert(t@ =~= seq![' ']);
            PrintItem::Text(t)
        },
        Separator::NewLine => PrintItem::Signal(PrintSignal::NewLine),
        Separator::SpaceOrNewLine => PrintItem::Signal(PrintSignal::SpaceOrNewLine),
        Separator::SpaceIfNoNewLinesElseNewLine => PrintItem::SpaceIfNoNewLinesElseNewLine,
    }
}

/// Appends the items of separators.
pub fn push_separators(out: &mut Vec<PrintItem>, v: &[Separator])
    ensures
        items_view(final(out)@) == items_view(old(out)@) + separator_items(v@),
{
    let ghost before = items_view(out@);
    let mut i: usize = 0;
    while i < v.len()
        invariant
            i <= v@.len(),
            items_view(out@) == before + separator_items(v@.take(i as int)),
        decreases v.len() - i,
    {
        push_item(out, separator_print_item(v[i]));
        assert(separator_items(v@.take(i + 1)) =~= separator_items(v@.take(i as int)).push(separator_item(v@[i as int])));
        assert(items_view(out@) =~= before + separator_items(v@.take(i + 1)));
        i += 1;
    }
    assert(v@.take(i as int) =~= v@);
}

} // verus!
