//! Block constructs: headings, list markers, tables, block quote prefixes
//! and metadata blocks.
use vstd::prelude::*;

use unicode_width::UnicodeWidthStr;

use crate::chars::{chars_to_string, push_all, repeat_char, repeated};
use crate::lines::{lemma_piece_end, piece_end, std_line_end};
use crate::text::{char_at, lemma_first_from, trim, trim_end, trim_end_exec, trim_exec};
use crate::items::{push_item, push_raw_items, push_string_items, raw_items, sig, string_items};
use crate::print::{items_view, PrintItem, PrintItemView, PrintSignal};

verus! {

/// How level-one and level-two headings are written.
#[derive(Clone, Copy, PartialEq, Eq, Structural, Debug)]
pub enum HeadingKind {
    Atx,
    Setext,
}

/// Whether a heading of `level` is underlined rather than prefixed with `#`.
pub open spec fn setext_heading(level: u8, kind: HeadingKind) -> bool {
    level < 3 && kind == HeadingKind::Setext
}

/// Whether a heading of `level` is underlined rather than prefixed with `#`.
pub fn is_setext_heading(level: u8, kind: HeadingKind) -> (r: bool)
    ensures
        r == setext_heading(level, kind),
{
    level < 3 && kind == HeadingKind::Setext
}

/// The prefix of a `#` heading: `level` number signs and a space.
pub open spec fn atx_prefix(level: u8) -> Seq<char> {
    repeated('#', level as nat) + seq![' ']
}

/// Returns the prefix of a `#` heading.
pub fn gen_heading_prefix(level: u8) -> (r: Vec<char>)
    ensures
        r@ == atx_prefix(level),
        r@.len() == level + 1,
        forall|i: int| 0 <= i < level ==> r@[i] == '#',
        r@[level as int] == ' ',
{
    let mut r = repeat_char('#', level as usize);
    r.push(' ');
    r
}

/// The underline of an underlined heading: `=` for level one, `-` otherwise,
/// as wide as the heading's longest line.
pub open spec fn setext_underline(level: u8, width: usize) -> Seq<char> {
    repeated(if level == 1 {
        '='
    } else {
        '-'
    }, width as nat)
}

/// Returns the underline of an underlined heading.
pub fn gen_heading_underline(level: u8, width: usize) -> (r: Vec<char>)
    ensures
        r@ == setext_underline(level, width),
{
    repeat_char(if level == 1 {
        '='
    } else {
        '-'
    }, width)
}

/// `UnicodeWidthStr::width`: the displayed width of a string in columns.
pub uninterp spec fn display_width(s: Seq<char>) -> nat;

/// `unicode_width::UnicodeWidthStr::width`; the contract states its result
/// through the name `display_width`.
#[verifier::external_body]
fn str_display_width(s: &str) -> (r: usize)
    ensures
        r == display_width(s@),
{
    UnicodeWidthStr::width(s)
}

/// The lines of `s` from position `i` on, as `str::lines` gives them.
pub open spec fn std_lines_from(s: Seq<char>, i: int) -> Seq<Seq<char>>
    decreases s.len() - i,
{
    if i < 0 || i >= s.len() {
        Seq::empty()
    } else {
        proof {
            lemma_piece_end(s, i);
        }
        seq![s.subrange(i, std_line_end(s, i))] + std_lines_from(s, piece_end(s, i))
    }
}

/// The greatest displayed width among `lines`, or 0.
pub open spec fn max_width(lines: Seq<Seq<char>>) -> nat
    decreases lines.len(),
{
    if lines.len() == 0 {
        0
    } else {
        let w = display_width(lines.last());
        let m = max_width(lines.drop_last());
        if w > m {
            w
        } else {
            m
        }
    }
}

/// Returns the displayed width of the longest line of the printed text.
pub fn measure_longest_line_width(rendered: &[char]) -> (r: usize)
    ensures
        r == max_width(std_lines_from(rendered@, 0)),
{
    let ghost s = rendered@;
    let len = rendered.len();
    let mut widest: usize = 0;
    let mut start: usize = 0;
    let ghost mut done: Seq<Seq<char>> = Seq::empty();
    while start < len
        invariant
            s == rendered@,
            len == s.len(),
            start <= len,
            done + std_lines_from(s, start as int) == std_lines_from(s, 0),
            widest == max_width(done),
        decreases len - start,
    {
        let mut j = start;
        while j < len && rendered[j] != '\n'
            invariant
                s == rendered@,
                len == s.len(),
                start <= j <= len,
                forall|k: int| start <= k < j ==> s[k] != '\n',
            decreases len - j,
        {
            j += 1;
        }
        proof {
            lemma_first_from(start as int, j as int, len as int, char_at(s, '\n'));
            lemma_piece_end(s, start as int);
        }
        let line_end = if j < len {
            if j > start && rendered[j - 1] == '\r' {
                j - 1
            } else {
                j
            }
        } else {
            len
        };
        let line = chars_to_string(&rendered[start..line_end]);
        let w = str_display_width(line.as_str());
        proof {
            let next = if j < len {
                j + 1
            } else {
                len as int
            };
            assert(std_lines_from(s, start as int) =~= seq![s.subrange(start as int, line_end as int)]
                + std_lines_from(s, next));
            let d2 = done.push(s.subrange(start as int, line_end as int));
            assert(d2.drop_last() =~= done);
            assert(d2 + std_lines_from(s, next) =~= done + std_lines_from(s, start as int));
            done = d2;
        }
        if w > widest {
            widest = w;
        }
        start = if j < len {
            j + 1
        } else {
            len
        };
    }
    assert(done =~= std_lines_from(s, 0));
    widest
}

/// The decimal digit of `d`.
pub open spec fn digit(d: int) -> char {
    (48 + d) as char
}

/// The decimal numeral of `n`.
pub open spec fn decimal(n: nat) -> Seq<char>
    decreases n,
{
    if n < 10 {
        seq![digit(n as int)]
    } else {
        decimal(n / 10) + seq![digit((n % 10) as int)]
    }
}

/// Appends the decimal numeral of `n`.
pub fn push_decimal(out: &mut Vec<char>, n: u64)
    ensures
        final(out)@ == old(out)@ + decimal(n as nat),
    decreases n,
{
    if n >= 10 {
        push_decimal(out, n / 10);
    }
    let d = (n % 10) as u8;
    out.push((48u8 + d) as char);
    proof {
        if n >= 10 {
            assert(out@ =~= old(out)@ + decimal(n as nat));
        } else {
            assert(out@ =~= old(out)@ + decimal(n as nat));
        }
    }
}

/// The marker of item `index` of a list: for an ordered list its number
/// (every item is numbered 1 when the list is all ones) and `.`, or `)`
/// for an alternate list; for a bullet list the bullet.
pub open spec fn list_marker(
    start_index: Option<u64>,
    index: int,
    is_alternate: bool,
    all_ones: bool,
    bullet: Seq<char>,
) -> Seq<char> {
    match start_index {
        Some(start) => decimal(if all_ones {
            1
        } else {
            (start + index) as nat
        }) + seq![
            if is_alternate {
                ')'
            } else {
                '.'
            },
        ],
        None => bullet,
    }
}

/// Returns the marker of item `index` of a list; its children are indented
/// by its length and one.
pub fn gen_list_item_marker(
    start_index: Option<u64>,
    index: usize,
    is_alternate: bool,
    all_ones: bool,
    bullet: &[char],
) -> (r: Vec<char>)
    requires
        start_index matches Some(start) ==> start + index <= u64::MAX,
    ensures
        r@ == list_marker(start_index, index as int, is_alternate, all_ones, bullet@),
{
    let mut out: Vec<char> = Vec::new();
    match start_index {
        Some(start) => {
            let display_index: u64 = if all_ones {
                1
            } else {
                start + index as u64
            };
            push_decimal(&mut out, display_index);
            out.push(if is_alternate {
                ')'
            } else {
                '.'
            });
        },
        None => {
            push_all(&mut out, bullet);
        },
    }
    assert(out@ =~= list_marker(start_index, index as int, is_alternate, all_ones, bullet@));
    out
}

/// An ordered list of more than one item that starts at 1 and whose second
/// item, trimmed, starts with `1.` or `1)`.
pub open spec fn all_ones_list(children_count: int, start_index: Option<u64>, second_item_text: Seq<char>) -> bool {
    &&& children_count > 1
    &&& start_index.unwrap_or(0) == 1
    &&& {
        let t = trim(second_item_text);
        t.len() >= 2 && t[0] == '1' && (t[1] == '.' || t[1] == ')')
    }
}

/// Whether an ordered list numbers every item 1.
pub fn is_all_ones_list(children_count: usize, start_index: Option<u64>, second_item_text: &[char]) -> (r: bool)
    ensures
        r == all_ones_list(children_count as int, start_index, second_item_text@),
{
    if children_count <= 1 {
        return false;
    }
    let start = match start_index {
        Some(s) => s,
        None => 0,
    };
    if start != 1 {
        return false;
    }
    let t = trim_exec(second_item_text);
    t.len() >= 2 && t[0] == '1' && (t[1] == '.' || t[1] == ')')
}

/// The alignment of a table column.
#[derive(Clone, Copy, PartialEq, Eq, Structural, Debug)]
pub enum ColumnAlignment {
    Unspecified,
    Left,
    Center,
    Right,
}

/// The divider cell of a column: `---`, `:---`, `:---:` or `---:`.
pub open spec fn alignment_text(a: ColumnAlignment) -> Seq<char> {
    match a {
        ColumnAlignment::Unspecified => seq!['-', '-', '-'],
        ColumnAlignment::Left => seq![':', '-', '-', '-'],
        ColumnAlignment::Center => seq![':', '-', '-', '-', ':'],
        ColumnAlignment::Right => seq!['-', '-', '-', ':'],
    }
}

/// The alignment of column `i`, `None` for a column without one.
pub open spec fn alignment_at(aligns: Seq<ColumnAlignment>, i: int) -> ColumnAlignment {
    if 0 <= i < aligns.len() {
        aligns[i]
    } else {
        ColumnAlignment::Unspecified
    }
}

/// The text before cell `i` of a row: `| ` for the first cell, a space otherwise.
pub open spec fn cell_lead(i: int) -> Seq<char> {
    if i == 0 {
        seq!['|', ' ']
    } else {
        seq![' ']
    }
}

/// The first `count` cells of the divider row.
pub open spec fn divider_row(count: int, aligns: Seq<ColumnAlignment>) -> Seq<char>
    decreases count,
{
    if count <= 0 {
        Seq::empty()
    } else {
        divider_row(count - 1, aligns) + cell_lead(count - 1) + alignment_text(alignment_at(aligns, count - 1))
            + seq![' ', '|']
    }
}

/// The first `count` cells of a row of cells.
pub open spec fn row_text(cells: Seq<Seq<char>>, count: int) -> Seq<char>
    decreases count,
{
    if count <= 0 {
        Seq::empty()
    } else {
        row_text(cells, count - 1) + cell_lead(count - 1) + cells[count - 1] + seq![' ', '|']
    }
}

/// Returns the divider row of a table with `column_count` columns.
pub fn gen_divider_row(column_count: usize, alignments: &[ColumnAlignment]) -> (r: Vec<char>)
    ensures
        r@ == divider_row(column_count as int, alignments@),
{
    let mut out: Vec<char> = Vec::new();
    let mut i: usize = 0;
    while i < column_count
        invariant
            i <= column_count,
            out@ == divider_row(i as int, alignments@),
        decreases column_count - i,
    {
        let a = if i < alignments.len() {
            alignments[i]
        } else {
            ColumnAlignment::Unspecified
        };
        let ghost before = out@;
        if i == 0 {
            out.push('|');
            out.push(' ');
        } else {
            out.push(' ');
        }
        match a {
            ColumnAlignment::Unspecified => {
                out.push('-');
                out.push('-');
                out.push('-');
            },
            ColumnAlignment::Left => {
                out.push(':');
                out.push('-');
                out.push('-');
                out.push('-');
            },
            ColumnAlignment::Center => {
                out.push(':');
                out.push('-');
                out.push('-');
                out.push('-');
                out.push(':');
            },
            ColumnAlignment::Right => {
                out.push('-');
                out.push('-');
                out.push('-');
                out.push(':');
            },
        }
        out.push(' ');
        out.push('|');
        assert(out@ =~= before + cell_lead(i as int) + alignment_text(alignment_at(alignments@, i as int)) + seq![' ', '|']);
        i += 1;
    }
    out
}

/// Returns a row of a table from the printed text of its cells.
pub fn gen_table_row(cells: &Vec<Vec<char>>) -> (r: Vec<char>)
    ensures
        r@ == row_text(cells@.map_values(|c: Vec<char>| c@), cells@.len() as int),
{
    let ghost cs = cells@.map_values(|c: Vec<char>| c@);
    let mut out: Vec<char> = Vec::new();
    let mut i: usize = 0;
    while i < cells.len()
        invariant
            cs == cells@.map_values(|c: Vec<char>| c@),
            i <= cells@.len(),
            out@ == row_text(cs, i as int),
        decreases cells.len() - i,
    {
        let ghost before = out@;
        if i == 0 {
            out.push('|');
            out.push(' ');
        } else {
            out.push(' ');
        }
        push_all(&mut out, cells[i].as_slice());
        out.push(' ');
        out.push('|');
        assert(out@ =~= before + cell_lead(i as int) + cs[i as int] + seq![' ', '|']);
        i += 1;
    }
    out
}

/// The greatest of `lens`, or 0.
pub open spec fn max_len(lens: Seq<usize>) -> nat
    decreases lens.len(),
{
    if lens.len() == 0 {
        0
    } else {
        let m = max_len(lens.drop_last());
        if lens.last() > m {
            lens.last() as nat
        } else {
            m
        }
    }
}

/// The number of columns of a table: the most cells of the header, of any
/// row, and of the alignments.
pub open spec fn column_count(header_len: usize, row_lens: Seq<usize>, alignments_len: usize) -> nat {
    let m = max_len(row_lens);
    let a = if header_len > m {
        header_len as nat
    } else {
        m
    };
    if alignments_len > a {
        alignments_len as nat
    } else {
        a
    }
}

/// Returns the number of columns of a table.
pub fn get_column_count(header_len: usize, row_lens: &[usize], alignments_len: usize) -> (r: usize)
    ensures
        r == column_count(header_len, row_lens@, alignments_len),
{
    let mut m: usize = 0;
    let mut i: usize = 0;
    while i < row_lens.len()
        invariant
            i <= row_lens@.len(),
            m == max_len(row_lens@.take(i as int)),
        decreases row_lens.len() - i,
    {
        assert(row_lens@.take(i + 1).drop_last() =~= row_lens@.take(i as int));
        if row_lens[i] > m {
            m = row_lens[i];
        }
        i += 1;
    }
    assert(row_lens@.take(i as int) =~= row_lens@);
    let a = if header_len > m {
        header_len
    } else {
        m
    };
    if alignments_len > a {
        alignments_len
    } else {
        a
    }
}

/// The prefix of a line inside `depth` nested block quotes: `depth` times
/// `>`, and a space before text.
pub open spec fn quote_prefix(depth: usize, before_text: bool) -> Seq<char> {
    repeated('>', depth as nat) + if before_text {
        seq![' ']
    } else {
        Seq::empty()
    }
}

/// Returns the prefix of a line inside nested block quotes.
pub fn gen_block_quote_prefix(depth: usize, before_text: bool) -> (r: Vec<char>)
    ensures
        r@ == quote_prefix(depth, before_text),
{
    let mut r = repeat_char('>', depth);
    if before_text {
        r.push(' ');
    }
    assert(r@ =~= quote_prefix(depth, before_text));
    r
}

/// The kinds of metadata block.
#[derive(Clone, Copy, PartialEq, Eq, Structural, Debug)]
pub enum MetadataBlockKind {
    /// YAML between `---` lines.
    YamlStyle,
    /// TOML between `+++` lines.
    PlusesStyle,
}

/// The delimiter line of a metadata block.
pub open spec fn metadata_delimiter(kind: MetadataBlockKind) -> Seq<char> {
    match kind {
        MetadataBlockKind::YamlStyle => seq!['-', '-', '-'],
        MetadataBlockKind::PlusesStyle => seq!['+', '+', '+'],
    }
}

/// The text a metadata block's body is printed from: what the embedded
/// formatter returned for the block's language (YAML or TOML), when it did,
/// or the block's own text, without trailing white space.
pub open spec fn metadata_source(text: Seq<char>, formatted: Option<Seq<char>>) -> Seq<char> {
    trim_end(formatted.unwrap_or(text))
}

/// The items of a metadata block: the delimiter, the lines of its body
/// without trailing white space (for TOML ignoring the indentation), and
/// the delimiter, each on its own line.
pub open spec fn metadata_items(kind: MetadataBlockKind, text: Seq<char>, formatted: Option<Seq<char>>) -> Seq<PrintItemView> {
    let body = match kind {
        MetadataBlockKind::YamlStyle => string_items(metadata_source(text, formatted), true),
        MetadataBlockKind::PlusesStyle => raw_items(metadata_source(text, formatted), true),
    };
    seq![PrintItemView::Text(metadata_delimiter(kind)), sig(PrintSignal::NewLine)] + body + seq![
        sig(PrintSignal::NewLine),
        PrintItemView::Text(metadata_delimiter(kind)),
    ]
}

/// Returns the items of a metadata block. `formatted` is what the embedded
/// formatter returned for the block's language, if anything.
pub fn gen_metadata_block(kind: MetadataBlockKind, text: &[char], formatted: Option<&[char]>) -> (r: Vec<PrintItem>)
    ensures
        items_view(r@) == metadata_items(kind, text@, match formatted {
            Some(f) => Some(f@),
            None => None,
        }),
{
    let delimiter: char = match kind {
        MetadataBlockKind::YamlStyle => '-',
        MetadataBlockKind::PlusesStyle => '+',
    };
    let source = match formatted {
        Some(f) => trim_end_exec(f),
        None => trim_end_exec(text),
    };
    let mut out: Vec<PrintItem> = Vec::new();
    let d = repeat_char(delimiter, 3);
    assert(d@ =~= metadata_delimiter(kind));
    push_item(&mut out, PrintItem::Text(d));
    push_item(&mut out, PrintItem::Signal(PrintSignal::NewLine));
    match kind {
        MetadataBlockKind::YamlStyle => push_string_items(&mut out, source, true),
        MetadataBlockKind::PlusesStyle => push_raw_items(&mut out, source, true),
    }
    push_item(&mut out, PrintItem::Signal(PrintSignal::NewLine));
    let d = repeat_char(delimiter, 3);
    assert(d@ =~= metadata_delimiter(kind));
    push_item(&mut out, PrintItem::Text(d));
    assert(items_view(out@) =~= metadata_items(kind, text@, match formatted {
        Some(f) => Some(f@),
        None => None,
    }));
    out
}

/// How an item of a list is printed: the separators before it, its marker,
/// and the indentation of its content (the marker's length and one, as a
/// `u32`).
pub struct ListItemPlan {
    pub separators: Vec<crate::gen_inline::Separator>,
    pub marker: Vec<char>,
    pub indent: u32,
}

/// The separators before item `index` of a list: none before the first, a
/// line break before the others, and a blank line where the source has one.
pub open spec fn item_separators(index: int, has_leading_blank_line: bool) -> Seq<crate::gen_inline::Separator> {
    if index == 0 {
        Seq::empty()
    } else if has_leading_blank_line {
        seq![crate::gen_inline::Separator::NewLine, crate::gen_inline::Separator::NewLine]
    } else {
        seq![crate::gen_inline::Separator::NewLine]
    }
}

/// The view of an item plan.
pub open spec fn item_plan_view(p: ListItemPlan) -> (Seq<crate::gen_inline::Separator>, Seq<char>, int) {
    (p.separators@, p.marker@, p.indent as int)
}

/// Returns how the items of a list are printed; `leading_blank_lines` says
/// for each item whether a blank line precedes it in the source.
pub fn gen_list(
    start_index: Option<u64>,
    leading_blank_lines: &[bool],
    is_alternate: bool,
    all_ones: bool,
    bullet: &[char],
) -> (r: Vec<ListItemPlan>)
    requires
        start_index matches Some(start) ==> start + leading_blank_lines@.len() <= u64::MAX,
        bullet@.len() < usize::MAX,
    ensures
        r@.len() == leading_blank_lines@.len(),
        forall|i: int|
            0 <= i < r@.len() ==> #[trigger] item_plan_view(r@[i]) == (
                item_separators(i, leading_blank_lines@[i]),
                list_marker(start_index, i, is_alternate, all_ones, bullet@),
                ((list_marker(start_index, i, is_alternate, all_ones, bullet@).len() + 1) as u32) as int,
            ),
{
    let mut plans: Vec<ListItemPlan> = Vec::new();
    let mut i: usize = 0;
    while i < leading_blank_lines.len()
        invariant
            start_index matches Some(start) ==> start + leading_blank_lines@.len() <= u64::MAX,
            bullet@.len() < usize::MAX,
            i <= leading_blank_lines@.len(),
            plans@.len() == i,
            forall|j: int|
                0 <= j < i ==> #[trigger] item_plan_view(plans@[j]) == (
                    item_separators(j, leading_blank_lines@[j]),
                    list_marker(start_index, j, is_alternate, all_ones, bullet@),
                    ((list_marker(start_index, j, is_alternate, all_ones, bullet@).len() + 1) as u32) as int,
                ),
        decreases leading_blank_lines.len() - i,
    {
        let mut separators: Vec<crate::gen_inline::Separator> = Vec::new();
        if i > 0 {
            separators.push(crate::gen_inline::Separator::NewLine);
            if leading_blank_lines[i] {
                separators.push(crate::gen_inline::Separator::NewLine);
            }
        }
        assert(separators@ =~= item_separators(i as int, leading_blank_lines@[i as int]));
        let marker = gen_list_item_marker(start_index, i, is_alternate, all_ones, bullet);
        proof {
            lemma_decimal_bound(if all_ones {
                1
            } else {
                match start_index {
                    Some(start) => (start + i) as nat,
                    None => 0,
                }
            });
        }
        let indent = (marker.len() + 1) as u32;
        plans.push(ListItemPlan { separators, marker, indent });
        i += 1;
    }
    plans
}

/// The decimal numeral of a number below 2^64 has at most 20 digits.
pub proof fn lemma_decimal_bound(n: nat)
    requires
        n < 0x1_0000_0000_0000_0000,
    ensures
        decimal(n).len() <= 20,
{
    reveal_with_fuel(pow10, 21);
    assert(pow10(20) == 100_000_000_000_000_000_000nat);
    lemma_decimal_digits(n, 20);
}

/// The numeral of a number below `10^k` has at most `k` digits.
pub proof fn lemma_decimal_digits(n: nat, k: nat)
    requires
        k >= 1,
        n < pow10(k),
    ensures
        decimal(n).len() <= k,
    decreases k,
{
    if n >= 10 {
        assert(k >= 2) by {
            if k == 1 {
                assert(pow10(1) == 10) by {
                    assert(pow10(0) == 1);
                }
            }
        }
        assert(n / 10 < pow10((k - 1) as nat)) by (nonlinear_arith)
            requires
                n < pow10(k),
                pow10(k) == 10 * pow10((k - 1) as nat),
        ;
        lemma_decimal_digits(n / 10, (k - 1) as nat);
    }
}

/// `10^k`.
pub open spec fn pow10(k: nat) -> nat
    decreases k,
{
    if k == 0 {
        1
    } else {
        10 * pow10((k - 1) as nat)
    }
}

/// The views of the cells of a row.
pub open spec fn cells_view(cells: Seq<Vec<char>>) -> Seq<Seq<char>> {
    cells.map_values(|c: Vec<char>| c@)
}

/// The body rows of a table from row `i` on, each after a line break.
pub open spec fn body_rows_text(rows: Seq<Seq<Seq<char>>>, n: int) -> Seq<char>
    decreases n,
{
    if n <= 0 {
        Seq::empty()
    } else {
        body_rows_text(rows, n - 1) + seq!['\n'] + row_text(rows[n - 1], rows[n - 1].len() as int)
    }
}

/// The compact text of a table: the header row, the divider row for all
/// columns, and each body row, on lines of their own, with one space on
/// each side of a cell.
pub open spec fn compact_table_text(
    header: Seq<Seq<char>>,
    rows: Seq<Seq<Seq<char>>>,
    alignments: Seq<ColumnAlignment>,
) -> Seq<char> {
    let count = column_count(header.len() as usize, rows.map_values(|r: Seq<Seq<char>>| r.len() as usize), alignments.len() as usize);
    row_text(header, header.len() as int) + seq!['\n'] + divider_row(count as int, alignments) + body_rows_text(rows, rows.len() as int)
}

/// Returns the compact text of a table from the printed text of its cells.
pub fn gen_compact_table(header: &Vec<Vec<char>>, rows: &Vec<Vec<Vec<char>>>, alignments: &[ColumnAlignment]) -> (r: Vec<char>)
    ensures
        r@ == compact_table_text(
            cells_view(header@),
            rows@.map_values(|row: Vec<Vec<char>>| cells_view(row@)),
            alignments@,
        ),
{
    let ghost rs = rows@.map_values(|row: Vec<Vec<char>>| cells_view(row@));
    let mut row_lens: Vec<usize> = Vec::new();
    let mut i: usize = 0;
    while i < rows.len()
        invariant
            rs == rows@.map_values(|row: Vec<Vec<char>>| cells_view(row@)),
            i <= rows@.len(),
            row_lens@ == rs.take(i as int).map_values(|r: Seq<Seq<char>>| r.len() as usize),
        decreases rows.len() - i,
    {
        row_lens.push(rows[i].len());
        i += 1;
        assert(row_lens@ =~= rs.take(i as int).map_values(|r: Seq<Seq<char>>| r.len() as usize));
    }
    assert(rs.take(i as int) =~= rs);
    let count = get_column_count(header.len(), row_lens.as_slice(), alignments.len());
    let mut out = gen_table_row(header);
    out.push('\n');
    let divider = gen_divider_row(count, alignments);
    push_all(&mut out, divider.as_slice());
    let ghost head = out@;
    let mut j: usize = 0;
    while j < rows.len()
        invariant
            rs == rows@.map_values(|row: Vec<Vec<char>>| cells_view(row@)),
            j <= rows@.len(),
            out@ == head + body_rows_text(rs, j as int),
        decreases rows.len() - j,
    {
        out.push('\n');
        let row = gen_table_row(&rows[j]);
        push_all(&mut out, row.as_slice());
        proof {
            assert(rs[j as int] == cells_view(rows@[j as int]@));
            assert(body_rows_text(rs, j + 1) =~= body_rows_text(rs, j as int) + seq!['\n'] + row_text(rs[j as int], rs[j as int].len() as int));
        }
        j += 1;
        assert(out@ =~= head + body_rows_text(rs, j as int));
    }
    out
}

/// The text of a heading of `level` whose content prints as `content`:
/// underlined, as wide as the longest line of `wrapped` (the content printed
/// with the line width), for level one and two headings when underlines are
/// configured; otherwise the `#` prefix and the content.
pub open spec fn heading_text(level: u8, kind: HeadingKind, content: Seq<char>, wrapped: Seq<char>) -> Seq<char> {
    if setext_heading(level, kind) {
        content + seq!['\n'] + repeated(if level == 1 {
            '='
        } else {
            '-'
        }, max_width(std_lines_from(wrapped, 0)))
    } else {
        atx_prefix(level) + content
    }
}

/// Returns the text of a heading.
pub fn gen_heading(level: u8, kind: HeadingKind, content: &[char], wrapped: &[char]) -> (r: Vec<char>)
    ensures
        r@ == heading_text(level, kind, content@, wrapped@),
{
    if is_setext_heading(level, kind) {
        let mut out: Vec<char> = Vec::new();
        push_all(&mut out, content);
        out.push('\n');
        let width = measure_longest_line_width(wrapped);
        let underline = gen_heading_underline(level, width);
        push_all(&mut out, underline.as_slice());
        assert(out@ =~= heading_text(level, kind, content@, wrapped@));
        out
    } else {
        let mut out = gen_heading_prefix(level);
        push_all(&mut out, content);
        out
    }
}

/// The kinds of printed item that the prefixing of block quotes tells apart.
#[derive(Clone, Copy, PartialEq, Eq, Structural, Debug)]
pub enum QuoteItem {
    /// A string.
    Text,
    /// A line break.
    NewLine,
    /// The start of an indented section.
    StartIndent,
    /// A start of an indented section that takes effect after the next item.
    QueueStartIndent,
    /// The end of an indented section.
    FinishIndent,
    /// Any other item.
    Other,
}

/// A step of printing the content of a block quote.
#[derive(PartialEq, Eq, Debug)]
pub enum QuoteStep {
    /// At the start of a line, print the indentation of this level and this
    /// prefix, then indent by one.
    TextPrefix(u32, Vec<char>),
    /// At the start of a line, print the indentation of this level and this
    /// prefix, then restart the indentation.
    NewLinePrefix(u32, Vec<char>),
    /// Print the item with this index.
    Item(usize),
}

/// The view of a step.
pub enum QuoteStepView {
    TextPrefix(int, Seq<char>),
    NewLinePrefix(int, Seq<char>),
    Item(int),
}

/// The view of a step.
pub open spec fn quote_step_view(q: QuoteStep) -> QuoteStepView {
    match q {
        QuoteStep::TextPrefix(l, p) => QuoteStepView::TextPrefix(l as int, p@),
        QuoteStep::NewLinePrefix(l, p) => QuoteStepView::NewLinePrefix(l as int, p@),
        QuoteStep::Item(i) => QuoteStepView::Item(i as int),
    }
}

/// The indentation level after an item at level `level`.
pub open spec fn level_after(item: QuoteItem, level: int) -> int {
    match item {
        QuoteItem::StartIndent | QuoteItem::QueueStartIndent => level + 1,
        QuoteItem::FinishIndent => level - 1,
        _ => level,
    }
}

/// From item `i` on, at indentation level `level`, every section that ends
/// was started, and no level exceeds `u32::MAX`.
pub open spec fn levels_fit(items: Seq<QuoteItem>, i: int, level: int) -> bool
    decreases items.len() - i,
{
    if i < 0 || i >= items.len() {
        true
    } else {
        0 <= level_after(items[i], level) <= u32::MAX && levels_fit(items, i + 1, level_after(items[i], level))
    }
}

/// The steps that print the items from `i` on inside `depth` nested block
/// quotes: a prefix before each string and each line break that takes
/// effect at the start of a line, and the items themselves.
pub open spec fn quote_from(items: Seq<QuoteItem>, depth: usize, i: int, level: int) -> Seq<QuoteStepView>
    decreases items.len() - i,
{
    if i < 0 || i >= items.len() {
        Seq::empty()
    } else {
        let rest = quote_from(items, depth, i + 1, level_after(items[i], level));
        match items[i] {
            QuoteItem::Text => seq![QuoteStepView::TextPrefix(level, quote_prefix(depth, true)), QuoteStepView::Item(i)]
                + rest,
            QuoteItem::NewLine => seq![
                QuoteStepView::NewLinePrefix(level, quote_prefix(depth, false)),
                QuoteStepView::Item(i),
            ] + rest,
            _ => seq![QuoteStepView::Item(i)] + rest,
        }
    }
}

/// Returns the steps that print the printed items of the content of
/// `depth` nested block quotes.
pub fn gen_block_quote(items: &[QuoteItem], depth: usize) -> (r: Vec<QuoteStep>)
    requires
        levels_fit(items@, 0, 0),
    ensures
        r@.map_values(|q: QuoteStep| quote_step_view(q)) == quote_from(items@, depth, 0, 0),
{
    let mut steps: Vec<QuoteStep> = Vec::new();
    let mut indent_level: u32 = 0;
    let mut i: usize = 0;
    while i < items.len()
        invariant
            i <= items@.len(),
            levels_fit(items@, i as int, indent_level as int),
            steps@.map_values(|q: QuoteStep| quote_step_view(q)) + quote_from(items@, depth, i as int, indent_level as int)
                == quote_from(items@, depth, 0, 0),
        decreases items.len() - i,
    {
        let ghost old_steps = steps@.map_values(|q: QuoteStep| quote_step_view(q));
        let ghost old_level = indent_level as int;
        match items[i] {
            QuoteItem::Text => {
                steps.push(QuoteStep::TextPrefix(indent_level, gen_block_quote_prefix(depth, true)));
                steps.push(QuoteStep::Item(i));
            },
            QuoteItem::NewLine => {
                steps.push(QuoteStep::NewLinePrefix(indent_level, gen_block_quote_prefix(depth, false)));
                steps.push(QuoteStep::Item(i));
            },
            QuoteItem::StartIndent | QuoteItem::QueueStartIndent => {
                indent_level += 1;
                steps.push(QuoteStep::Item(i));
            },
            QuoteItem::FinishIndent => {
                indent_level -= 1;
                steps.push(QuoteStep::Item(i));
            },
            QuoteItem::Other => {
                steps.push(QuoteStep::Item(i));
            },
        }
        proof {
            let here = quote_from(items@, depth, i as int, old_level);
            let rest = quote_from(items@, depth, i + 1, indent_level as int);
            assert(here =~= (match items@[i as int] {
                QuoteItem::Text => seq![
                    QuoteStepView::TextPrefix(old_level, quote_prefix(depth, true)),
                    QuoteStepView::Item(i as int),
                ],
                QuoteItem::NewLine => seq![
                    QuoteStepView::NewLinePrefix(old_level, quote_prefix(depth, false)),
                    QuoteStepView::Item(i as int),
                ],
                _ => seq![QuoteStepView::Item(i as int)],
            }) + rest);
            assert(steps@.map_values(|q: QuoteStep| quote_step_view(q)) + rest =~= old_steps + here);
        }
        i += 1;
    }
    assert(steps@.map_values(|q: QuoteStep| quote_step_view(q)) =~= steps@.map_values(|q: QuoteStep| quote_step_view(q))
        + quote_from(items@, depth, i as int, indent_level as int));
    steps
}

/// How tables are laid out.
#[derive(Clone, Copy, PartialEq, Eq, Structural, Debug)]
pub enum TableFormat {
    /// Every column padded to its widest cell.
    Aligned,
    /// One space on each side of every cell.
    Compact,
}

/// Cell `c` of a row, or an empty cell past its end.
pub open spec fn cell_at(row: Seq<Seq<char>>, c: int) -> Seq<char> {
    if 0 <= c < row.len() {
        row[c]
    } else {
        Seq::empty()
    }
}

/// The greater of two widths.
pub open spec fn wider(a: nat, b: nat) -> nat {
    if a >= b {
        a
    } else {
        b
    }
}

/// The widest display width of cell `c` among `rows[..n]`.
pub open spec fn rows_width(rows: Seq<Seq<Seq<char>>>, c: int, n: int) -> nat
    decreases n,
{
    if n <= 0 {
        0
    } else {
        wider(rows_width(rows, c, n - 1), display_width(cell_at(rows[n - 1], c)))
    }
}

/// The width of column `c`: its widest cell, and at least three.
pub open spec fn column_width(header: Seq<Seq<char>>, rows: Seq<Seq<Seq<char>>>, c: int) -> nat {
    wider(wider(3, display_width(cell_at(header, c))), rows_width(rows, c, rows.len() as int))
}

/// `n` spaces.
pub open spec fn spaces(n: int) -> Seq<char> {
    repeated(' ', n as nat)
}

/// A cell padded with spaces to the width `w`: on the left for a right
/// aligned column, on both sides (the extra space on the right) for a
/// centered one, on the right otherwise.
pub open spec fn padded_cell(cell: Seq<char>, w: nat, a: ColumnAlignment) -> Seq<char> {
    let pad = w - display_width(cell);
    match a {
        ColumnAlignment::Right => spaces(pad) + cell,
        ColumnAlignment::Center => spaces(pad / 2) + cell + spaces(pad - pad / 2),
        _ => cell + spaces(pad),
    }
}

/// The divider cell of a column of width `w`: dashes, with a colon on the
/// side that the column is aligned to.
pub open spec fn divider_cell(w: nat, a: ColumnAlignment) -> Seq<char> {
    match a {
        ColumnAlignment::Unspecified => repeated('-', w),
        ColumnAlignment::Left => seq![':'] + repeated('-', (w - 1) as nat),
        ColumnAlignment::Right => repeated('-', (w - 1) as nat) + seq![':'],
        ColumnAlignment::Center => seq![':'] + repeated('-', (w - 2) as nat) + seq![':'],
    }
}

/// The number of columns of a table from its cells.
pub open spec fn table_columns(header: Seq<Seq<char>>, rows: Seq<Seq<Seq<char>>>, aligns: Seq<ColumnAlignment>) -> nat {
    column_count(header.len() as usize, rows.map_values(|r: Seq<Seq<char>>| r.len() as usize), aligns.len() as usize)
}

/// A row of an aligned table: each of the `count` cells padded to its column.
pub open spec fn aligned_row(
    row: Seq<Seq<char>>,
    header: Seq<Seq<char>>,
    rows: Seq<Seq<Seq<char>>>,
    aligns: Seq<ColumnAlignment>,
    count: nat,
) -> Seq<char> {
    row_text(
        Seq::new(count, |c: int| padded_cell(cell_at(row, c), column_width(header, rows, c), alignment_at(aligns, c))),
        count as int,
    )
}

/// The lines of an aligned table: the header row, the divider row and the
/// body rows.
pub open spec fn aligned_table_lines(header: Seq<Seq<char>>, rows: Seq<Seq<Seq<char>>>, aligns: Seq<ColumnAlignment>) -> Seq<Seq<char>> {
    let count = table_columns(header, rows, aligns);
    seq![
        aligned_row(header, header, rows, aligns, count),
        row_text(Seq::new(count, |c: int| divider_cell(column_width(header, rows, c), alignment_at(aligns, c))), count as int),
    ] + Seq::new(rows.len(), |r: int| aligned_row(rows[r], header, rows, aligns, count))
}

/// `lines` joined by line breaks.
pub open spec fn joined_lines(lines: Seq<Seq<char>>) -> Seq<char>
    decreases lines.len(),
{
    if lines.len() == 0 {
        Seq::empty()
    } else if lines.len() == 1 {
        lines[0]
    } else {
        joined_lines(lines.drop_last()) + seq!['\n'] + lines.last()
    }
}

/// The text of a table in the given layout.
pub open spec fn table_text(
    header: Seq<Seq<char>>,
    rows: Seq<Seq<Seq<char>>>,
    aligns: Seq<ColumnAlignment>,
    format: TableFormat,
) -> Seq<char> {
    match format {
        TableFormat::Compact => compact_table_text(header, rows, aligns),
        TableFormat::Aligned => joined_lines(aligned_table_lines(header, rows, aligns)),
    }
}

/// Returns the display width of a cell.
fn cell_width(cell: &[char]) -> (r: usize)
    ensures
        r == display_width(cell@),
{
    let s = chars_to_string(cell);
    str_display_width(s.as_str())
}

/// Returns cell `c` of a row, or an empty cell.
fn cell_at_exec(row: &Vec<Vec<char>>, c: usize) -> (r: Vec<char>)
    ensures
        r@ == cell_at(cells_view(row@), c as int),
{
    if c < row.len() {
        crate::chars::copy_chars(row[c].as_slice())
    } else {
        Vec::new()
    }
}

/// Returns the width of column `c`.
fn column_width_exec(header: &Vec<Vec<char>>, rows: &Vec<Vec<Vec<char>>>, c: usize) -> (r: usize)
    ensures
        r == column_width(cells_view(header@), rows@.map_values(|row: Vec<Vec<char>>| cells_view(row@)), c as int),
{
    let ghost rs = rows@.map_values(|row: Vec<Vec<char>>| cells_view(row@));
    let hw = cell_width(cell_at_exec(header, c).as_slice());
    let base: usize = if 3 >= hw {
        3
    } else {
        hw
    };
    let mut w: usize = 0;
    let mut r: usize = 0;
    while r < rows.len()
        invariant
            rs == rows@.map_values(|row: Vec<Vec<char>>| cells_view(row@)),
            r <= rows@.len(),
            w == rows_width(rs, c as int, r as int),
        decreases rows.len() - r,
    {
        assert(rs[r as int] == cells_view(rows@[r as int]@));
        let cw = cell_width(cell_at_exec(&rows[r], c).as_slice());
        if cw > w {
            w = cw;
        }
        r += 1;
    }
    if base >= w {
        base
    } else {
        w
    }
}

/// Appends `n` spaces.
fn push_spaces(out: &mut Vec<char>, n: usize)
    ensures
        final(out)@ == old(out)@ + spaces(n as int),
{
    let s = repeat_char(' ', n);
    push_all(out, s.as_slice());
}

/// Returns a cell padded to the width `w`.
fn padded_cell_exec(cell: &[char], w: usize, a: ColumnAlignment) -> (r: Vec<char>)
    requires
        display_width(cell@) <= w,
    ensures
        r@ == padded_cell(cell@, w as nat, a),
{
    let pad = w - cell_width(cell);
    let mut out: Vec<char> = Vec::new();
    match a {
        ColumnAlignment::Right => {
            push_spaces(&mut out, pad);
            push_all(&mut out, cell);
        },
        ColumnAlignment::Center => {
            push_spaces(&mut out, pad / 2);
            push_all(&mut out, cell);
            push_spaces(&mut out, pad - pad / 2);
        },
        _ => {
            push_all(&mut out, cell);
            push_spaces(&mut out, pad);
        },
    }
    assert(out@ =~= padded_cell(cell@, w as nat, a));
    out
}

/// Returns the divider cell of a column of width `w`.
fn divider_cell_exec(w: usize, a: ColumnAlignment) -> (r: Vec<char>)
    requires
        w >= 3,
    ensures
        r@ == divider_cell(w as nat, a),
{
    let mut out: Vec<char> = Vec::new();
    match a {
        ColumnAlignment::Unspecified => {
            out = repeat_char('-', w);
        },
        ColumnAlignment::Left => {
            out.push(':');
            let d = repeat_char('-', w - 1);
            push_all(&mut out, d.as_slice());
        },
        ColumnAlignment::Right => {
            out = repeat_char('-', w - 1);
            out.push(':');
        },
        ColumnAlignment::Center => {
            out.push(':');
            let d = repeat_char('-', w - 2);
            push_all(&mut out, d.as_slice());
            out.push(':');
        },
    }
    assert(out@ =~= divider_cell(w as nat, a));
    out
}

/// The cells of a row padded to the widths `ws`.
pub open spec fn padded_cells(row: Seq<Seq<char>>, ws: Seq<usize>, aligns: Seq<ColumnAlignment>) -> Seq<Seq<char>> {
    Seq::new(ws.len(), |c: int| padded_cell(cell_at(row, c), ws[c] as nat, alignment_at(aligns, c)))
}

/// The divider cells for the widths `ws`.
pub open spec fn divider_cells(ws: Seq<usize>, aligns: Seq<ColumnAlignment>) -> Seq<Seq<char>> {
    Seq::new(ws.len(), |c: int| divider_cell(ws[c] as nat, alignment_at(aligns, c)))
}

/// Returns a row padded to the widths `ws`, or the divider row when `row`
/// is nothing.
fn aligned_line(row: Option<&Vec<Vec<char>>>, ws: &Vec<usize>, alignments: &[ColumnAlignment]) -> (r: Vec<char>)
    requires
        forall|k: int| 0 <= k < ws@.len() ==> ws@[k] >= 3,
        row matches Some(cells) ==> forall|k: int|
            0 <= k < ws@.len() ==> display_width(#[trigger] cell_at(cells_view(cells@), k)) <= ws@[k],
    ensures
        r@ == row_text(match row {
            Some(cells) => padded_cells(cells_view(cells@), ws@, alignments@),
            None => divider_cells(ws@, alignments@),
        }, ws@.len() as int),
{
    let ghost target = match row {
        Some(cells) => padded_cells(cells_view(cells@), ws@, alignments@),
        None => divider_cells(ws@, alignments@),
    };
    let mut out: Vec<Vec<char>> = Vec::new();
    let mut k: usize = 0;
    while k < ws.len()
        invariant
            k <= ws@.len(),
            target == (match row {
                Some(cells) => padded_cells(cells_view(cells@), ws@, alignments@),
                None => divider_cells(ws@, alignments@),
            }),
            forall|j: int| 0 <= j < ws@.len() ==> ws@[j] >= 3,
            row matches Some(cells) ==> forall|j: int|
                0 <= j < ws@.len() ==> display_width(#[trigger] cell_at(cells_view(cells@), j)) <= ws@[j],
            out@.map_values(|l: Vec<char>| l@) == target.take(k as int),
        decreases ws.len() - k,
    {
        let a = if k < alignments.len() {
            alignments[k]
        } else {
            ColumnAlignment::Unspecified
        };
        let cell = match row {
            Some(cells) => {
                let raw = cell_at_exec(cells, k);
                assert(display_width(cell_at(cells_view(cells@), k as int)) <= ws@[k as int]);
                padded_cell_exec(raw.as_slice(), ws[k], a)
            },
            None => divider_cell_exec(ws[k], a),
        };
        let ghost before = out@.map_values(|l: Vec<char>| l@);
        out.push(cell);
        assert(out@.map_values(|l: Vec<char>| l@) =~= before.push(target[k as int]));
        k += 1;
        assert(out@.map_values(|l: Vec<char>| l@) =~= target.take(k as int));
    }
    assert(target.take(k as int) =~= target);
    assert(out@.map_values(|c: Vec<char>| c@) == cells_view(out@));
    gen_table_row(&out)
}

/// Returns the lines of an aligned table from the printed text of its cells.
pub fn gen_aligned_table(header: &Vec<Vec<char>>, rows: &Vec<Vec<Vec<char>>>, alignments: &[ColumnAlignment]) -> (r: Vec<Vec<char>>)
    ensures
        r@.map_values(|l: Vec<char>| l@) == aligned_table_lines(
            cells_view(header@),
            rows@.map_values(|row: Vec<Vec<char>>| cells_view(row@)),
            alignments@,
        ),
{
    let ghost hs = cells_view(header@);
    let ghost rs = rows@.map_values(|row: Vec<Vec<char>>| cells_view(row@));
    let mut row_lens: Vec<usize> = Vec::new();
    let mut i: usize = 0;
    while i < rows.len()
        invariant
            rs == rows@.map_values(|row: Vec<Vec<char>>| cells_view(row@)),
            i <= rows@.len(),
            row_lens@ == rs.take(i as int).map_values(|r: Seq<Seq<char>>| r.len() as usize),
        decreases rows.len() - i,
    {
        row_lens.push(rows[i].len());
        i += 1;
        assert(row_lens@ =~= rs.take(i as int).map_values(|r: Seq<Seq<char>>| r.len() as usize));
    }
    assert(rs.take(i as int) =~= rs);
    let count = get_column_count(header.len(), row_lens.as_slice(), alignments.len());
    let ghost cnt = count as nat;
    assert(cnt == table_columns(hs, rs, alignments@));
    let mut widths: Vec<usize> = Vec::new();
    let mut c: usize = 0;
    while c < count
        invariant
            hs == cells_view(header@),
            rs == rows@.map_values(|row: Vec<Vec<char>>| cells_view(row@)),
            c <= count,
            widths@.len() == c,
            forall|k: int| 0 <= k < c ==> widths@[k] == column_width(hs, rs, k),
        decreases count - c,
    {
        let w = column_width_exec(header, rows, c);
        widths.push(w);
        c += 1;
    }
    proof {
        assert forall|k: int| 0 <= k < cnt implies widths@[k] >= 3 by {}
        assert forall|k: int, r: int| 0 <= k < cnt && 0 <= r < rs.len() implies display_width(#[trigger] cell_at(rs[r], k))
            <= column_width(hs, rs, k) by {
            lemma_rows_width(rs, k, rs.len() as int, r);
        }
    }
    let ghost all = aligned_table_lines(hs, rs, alignments@);
    let mut lines: Vec<Vec<char>> = Vec::new();
    let head = aligned_line(Some(header), &widths, alignments);
    assert(padded_cells(hs, widths@, alignments@) =~= Seq::new(cnt, |c: int| padded_cell(cell_at(hs, c), column_width(hs, rs, c), alignment_at(alignments@, c))));
    lines.push(head);
    let divider = aligned_line(None, &widths, alignments);
    assert(divider_cells(widths@, alignments@) =~= Seq::new(cnt, |c: int| divider_cell(column_width(hs, rs, c), alignment_at(alignments@, c))));
    lines.push(divider);
    assert(lines@.map_values(|l: Vec<char>| l@) =~= all.take(2));
    let mut r: usize = 0;
    while r < rows.len()
        invariant
            hs == cells_view(header@),
            rs == rows@.map_values(|row: Vec<Vec<char>>| cells_view(row@)),
            all == aligned_table_lines(hs, rs, alignments@),
            r <= rows@.len(),
            widths@.len() == cnt,
            cnt == table_columns(hs, rs, alignments@),
            forall|k: int| 0 <= k < cnt ==> widths@[k] == column_width(hs, rs, k),
            forall|k: int| 0 <= k < cnt ==> widths@[k] >= 3,
            forall|k: int, q: int| 0 <= k < cnt && 0 <= q < rs.len() ==> display_width(#[trigger] cell_at(rs[q], k))
                <= column_width(hs, rs, k),
            lines@.map_values(|l: Vec<char>| l@) == all.take(r + 2),
        decreases rows.len() - r,
    {
        assert(rs[r as int] == cells_view(rows@[r as int]@));
        let line = aligned_line(Some(&rows[r]), &widths, alignments);
        assert(padded_cells(rs[r as int], widths@, alignments@) =~= Seq::new(cnt, |c: int| padded_cell(cell_at(rs[r as int], c), column_width(hs, rs, c), alignment_at(alignments@, c))));
        let ghost before = lines@.map_values(|l: Vec<char>| l@);
        lines.push(line);
        assert(all[r + 2] == aligned_row(rs[r as int], hs, rs, alignments@, cnt));
        assert(line@ == all[r + 2]);
        assert(lines@.map_values(|l: Vec<char>| l@) =~= before.push(line@));
        assert(all.take(r + 3) =~= all.take(r + 2).push(all[r + 2]));
        assert(lines@.map_values(|l: Vec<char>| l@) =~= all.take(r + 3));
        r += 1;
    }
    assert(all.take(r + 2) =~= all);
    lines
}

/// Returns the text of a table in the given layout, from the printed text
/// of its cells.
pub fn gen_table(
    header: &Vec<Vec<char>>,
    rows: &Vec<Vec<Vec<char>>>,
    alignments: &[ColumnAlignment],
    format: TableFormat,
) -> (r: Vec<char>)
    ensures
        r@ == table_text(
            cells_view(header@),
            rows@.map_values(|row: Vec<Vec<char>>| cells_view(row@)),
            alignments@,
            format,
        ),
{
    match format {
        TableFormat::Compact => gen_compact_table(header, rows, alignments),
        TableFormat::Aligned => {
            let lines = gen_aligned_table(header, rows, alignments);
            let ghost ls = lines@.map_values(|l: Vec<char>| l@);
            let mut out: Vec<char> = Vec::new();
            let mut i: usize = 0;
            while i < lines.len()
                invariant
                    ls == lines@.map_values(|l: Vec<char>| l@),
                    i <= ls.len(),
                    out@ == joined_lines(ls.take(i as int)),
                decreases lines.len() - i,
            {
                if i > 0 {
                    out.push('\n');
                }
                push_all(&mut out, lines[i].as_slice());
                proof {
                    let t = ls.take(i + 1);
                    assert(t.drop_last() =~= ls.take(i as int));
                    if i == 0 {
                        assert(out@ =~= t[0]);
                    }
                }
                i += 1;
            }
            assert(ls.take(i as int) =~= ls);
            out
        },
    }
}

/// Every cell of a column is at most as wide as the widest among the rows.
pub proof fn lemma_rows_width(rows: Seq<Seq<Seq<char>>>, c: int, n: int, r: int)
    requires
        0 <= r < n <= rows.len(),
    ensures
        display_width(cell_at(rows[r], c)) <= rows_width(rows, c, n),
    decreases n,
{
    if r < n - 1 {
        lemma_rows_width(rows, c, n - 1, r);
    }
}

} // verus!
