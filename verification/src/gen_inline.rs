//! Inline constructs: text words and the separators between them, text
//! decorations, links, images, footnotes and task markers.
use vstd::prelude::*;

use crate::chars::{push_all, utf8_byte_len, utf8_len};
use crate::text::{
    ends_with_char, ends_with_char_exec, first_from, lemma_first_from, lemma_first_from_props, starts_with_two_chars, trim, trim_exec,
};

verus! {

/// How text is wrapped.
#[derive(Clone, Copy, PartialEq, Eq, Structural, Debug)]
pub enum TextWrap {
    Always,
    Never,
    Maintain,
}

/// A separator between two printed pieces.
#[derive(Clone, Copy, PartialEq, Eq, Structural, Debug)]
pub enum Separator {
    /// A space.
    Space,
    /// A line break.
    NewLine,
    /// A space, or a line break where the line would be too long.
    SpaceOrNewLine,
    /// A space where line breaks are being suppressed, otherwise a line break.
    SpaceIfNoNewLinesElseNewLine,
}

/// The separator between two words: a space where wrapping is disabled or
/// the text is never or maintained-wrapped, a breakable space when it is
/// always wrapped.
pub open spec fn space_or_newline(wrap: TextWrap, wrap_disabled: bool) -> Separator {
    if wrap_disabled {
        Separator::Space
    } else {
        match wrap {
            TextWrap::Always => Separator::SpaceOrNewLine,
            TextWrap::Never | TextWrap::Maintain => Separator::Space,
        }
    }
}

/// Returns the separator between two words of text.
pub fn get_space_or_newline_based_on_config(wrap: TextWrap, wrap_disabled: bool) -> (r: Separator)
    ensures
        r == space_or_newline(wrap, wrap_disabled),
        r == Separator::SpaceOrNewLine || r == Separator::Space,
        r == Separator::SpaceOrNewLine <==> (wrap == TextWrap::Always && !wrap_disabled),
{
    if wrap_disabled {
        return Separator::Space;
    }
    match wrap {
        TextWrap::Always => Separator::SpaceOrNewLine,
        TextWrap::Never | TextWrap::Maintain => Separator::Space,
    }
}

/// The separator for a line break of the source between two inline nodes.
pub open spec fn newline_wrapping(wrap: TextWrap, wrap_disabled: bool) -> Separator {
    match wrap {
        TextWrap::Always => Separator::SpaceOrNewLine,
        TextWrap::Never => Separator::Space,
        TextWrap::Maintain => if wrap_disabled {
            Separator::SpaceIfNoNewLinesElseNewLine
        } else {
            Separator::NewLine
        },
    }
}

/// Returns the separator for a line break of the source between two inline nodes.
pub fn get_newline_wrapping_based_on_config(wrap: TextWrap, wrap_disabled: bool) -> (r: Separator)
    ensures
        r == newline_wrapping(wrap, wrap_disabled),
{
    match wrap {
        TextWrap::Always => Separator::SpaceOrNewLine,
        TextWrap::Never => Separator::Space,
        TextWrap::Maintain => if wrap_disabled {
            Separator::SpaceIfNoNewLinesElseNewLine
        } else {
            Separator::NewLine
        },
    }
}

/// A character that separates words: a space or a line break.
pub open spec fn word_break(c: char) -> bool {
    c == ' ' || c == '\n'
}

/// Position `j` of `s` separates words.
pub open spec fn break_at(s: Seq<char>) -> spec_fn(int) -> bool {
    |j: int| word_break(s[j])
}

/// The words of `s` from position `i` on, each with whether a line break
/// that is kept (with `maintain`) came since the previous word; `nl` says
/// whether one came before position `i`.
pub open spec fn words_from(s: Seq<char>, i: int, nl: bool, maintain: bool) -> Seq<(Seq<char>, bool)>
    decreases s.len() - i,
{
    if i < 0 || i >= s.len() {
        Seq::empty()
    } else if word_break(s[i]) {
        words_from(s, i + 1, nl || (maintain && s[i] == '\n'), maintain)
    } else {
        proof {
            lemma_first_from_props(i, s.len() as int, break_at(s));
        }
        let e = first_from(i, s.len() as int, break_at(s));
        seq![(s.subrange(i, e), nl)] + words_from(s, e, false, maintain)
    }
}

/// A word of text and whether a kept line break precedes it.
pub struct Word {
    pub text: Vec<char>,
    pub after_newline: bool,
}

/// The view of a word.
pub open spec fn word_view(w: Word) -> (Seq<char>, bool) {
    (w.text@, w.after_newline)
}

/// Splits text into words at spaces and line breaks; with `maintain`, a
/// word that follows a line break of the source is marked.
pub fn text_words(text: &[char], maintain: bool) -> (r: Vec<Word>)
    ensures
        r@.map_values(|w: Word| word_view(w)) == words_from(text@, 0, false, maintain),
{
    let ghost s = text@;
    let len = text.len();
    let mut words: Vec<Word> = Vec::new();
    let mut nl = false;
    let mut i: usize = 0;
    while i < len
        invariant
            s == text@,
            len == s.len(),
            i <= len,
            words@.map_values(|w: Word| word_view(w)) + words_from(s, i as int, nl, maintain) == words_from(
                s,
                0,
                false,
                maintain,
            ),
        decreases len - i,
    {
        let c = text[i];
        if c == ' ' || c == '\n' {
            if maintain && c == '\n' {
                nl = true;
            }
            i += 1;
        } else {
            let mut e = i;
            while e < len && text[e] != ' ' && text[e] != '\n'
                invariant
                    s == text@,
                    len == s.len(),
                    i <= e <= len,
                    forall|j: int| i <= j < e ==> !#[trigger] break_at(s)(j),
                decreases len - e,
            {
                e += 1;
            }
            proof {
                lemma_first_from(i as int, e as int, len as int, break_at(s));
            }
            let ghost old_words = words@;
            let mut word: Vec<char> = Vec::new();
            push_all(&mut word, &text[i..e]);
            let w = Word { text: word, after_newline: nl };
            words.push(w);
            proof {
                assert(words@.map_values(|w: Word| word_view(w)) =~= old_words.map_values(|w: Word| word_view(w))
                    + seq![(s.subrange(i as int, e as int), nl)]);
            }
            nl = false;
            i = e;
        }
    }
    assert(words@.map_values(|w: Word| word_view(w)) =~= words@.map_values(|w: Word| word_view(w))
        + words_from(s, i as int, nl, maintain));
    words
}

/// The separator printed before a word: none before the first word; a
/// space before a word that would read as a list marker; a line break
/// after a kept line break; otherwise the configured word separator.
pub open spec fn word_separator(
    is_first: bool,
    is_list_word: bool,
    after_newline: bool,
    wrap: TextWrap,
    wrap_disabled: bool,
) -> Option<Separator> {
    if is_first {
        None
    } else if is_list_word {
        Some(Separator::Space)
    } else if after_newline {
        Some(Separator::NewLine)
    } else {
        Some(space_or_newline(wrap, wrap_disabled))
    }
}

/// Returns the separator printed before a word of text.
pub fn gen_word_separator(
    is_first: bool,
    is_list_word: bool,
    after_newline: bool,
    wrap: TextWrap,
    wrap_disabled: bool,
) -> (r: Option<Separator>)
    ensures
        r == word_separator(is_first, is_list_word, after_newline, wrap, wrap_disabled),
{
    if is_first {
        None
    } else if is_list_word {
        Some(Separator::Space)
    } else if after_newline {
        Some(Separator::NewLine)
    } else {
        Some(get_space_or_newline_based_on_config(wrap, wrap_disabled))
    }
}

/// Text like `[!NOTE]`: `[!`, upper-case ASCII letters, `]`.
pub open spec fn callout_text(s: Seq<char>) -> bool {
    &&& starts_with_two_chars(s, '[', '!')
    &&& ends_with_char(s, ']')
    &&& s.len() >= 3
    &&& forall|j: int| 2 <= j < s.len() - 1 ==> 'A' <= #[trigger] s[j] && s[j] <= 'Z'
}

/// Whether `text` opens a callout of a block quote, such as `[!NOTE]`.
pub fn is_callout_text(text: &[char]) -> (r: bool)
    ensures
        r == callout_text(text@),
{
    if !(text.len() >= 2 && text[0] == '[' && text[1] == '!') || !ends_with_char_exec(text, ']') {
        return false;
    }
    if text.len() < 3 {
        return false;
    }
    let mut j: usize = 2;
    while j < text.len() - 1
        invariant
            3 <= text@.len(),
            2 <= j <= text@.len() - 1,
            forall|k: int| 2 <= k < j ==> 'A' <= #[trigger] text@[k] && text@[k] <= 'Z',
        decreases text.len() - 1 - j,
    {
        if !('A' <= text[j] && text[j] <= 'Z') {
            return false;
        }
        j += 1;
    }
    true
}

/// Link text is printed on one line when its UTF-8 length is below half the line width.
pub open spec fn link_text_on_one_line(single_line_text: Seq<char>, line_width: u32) -> bool {
    utf8_len(single_line_text) < (line_width / 2) as nat
}

/// Whether a link's text, printed on one line, is short enough to keep on one line.
pub fn gen_inline_link_single_line(single_line_text: &[char], line_width: u32) -> (r: bool)
    requires
        4 * single_line_text@.len() <= usize::MAX,
    ensures
        r == link_text_on_one_line(single_line_text@, line_width),
{
    utf8_byte_len(single_line_text) < (line_width / 2) as usize
}

/// ` "title"` with the title trimmed, or nothing.
pub open spec fn title_text(title: Option<Seq<char>>) -> Seq<char> {
    match title {
        Some(t) => seq![' ', '"'] + trim(t) + seq!['"'],
        None => Seq::empty(),
    }
}

/// The view of an optional text.
pub open spec fn opt_chars(o: Option<&[char]>) -> Option<Seq<char>> {
    match o {
        Some(t) => Some(t@),
        None => None,
    }
}

fn push_title(out: &mut Vec<char>, title: Option<&[char]>)
    ensures
        final(out)@ == old(out)@ + title_text(opt_chars(title)),
{
    if let Some(t) = title {
        let ghost start = out@;
        out.push(' ');
        out.push('"');
        push_all(out, trim_exec(t));
        out.push('"');
        assert(out@ =~= start + title_text(opt_chars(title)));
    } else {
        assert(out@ =~= old(out)@ + title_text(opt_chars(title)));
    }
}

/// The destination of an inline link or image: `(url "title")`, trimmed.
pub open spec fn destination_text(url: Seq<char>, title: Option<Seq<char>>) -> Seq<char> {
    seq!['('] + trim(url) + title_text(title) + seq![')']
}

/// Returns the destination of an inline link: `(url "title")`.
pub fn gen_link_destination(url: &[char], title: Option<&[char]>) -> (r: Vec<char>)
    ensures
        r@ == destination_text(url@, opt_chars(title)),
{
    let mut out: Vec<char> = Vec::new();
    out.push('(');
    push_all(&mut out, trim_exec(url));
    push_title(&mut out, title);
    out.push(')');
    assert(out@ =~= destination_text(url@, opt_chars(title)));
    out
}

/// `open`, the trimmed text, then `close`.
pub open spec fn bracketed(open: Seq<char>, t: Seq<char>, close: Seq<char>) -> Seq<char> {
    open + trim(t) + close
}

fn gen_bracketed(out: &mut Vec<char>, open: &[char], t: &[char], close: &[char])
    ensures
        final(out)@ == old(out)@ + bracketed(open@, t@, close@),
{
    let ghost start = out@;
    push_all(out, open);
    push_all(out, trim_exec(t));
    push_all(out, close);
    assert(out@ =~= start + bracketed(open@, t@, close@));
}

/// The label of a reference link: `[reference]`, trimmed.
pub fn gen_reference_link_label(reference: &[char]) -> (r: Vec<char>)
    ensures
        r@ == bracketed(seq!['['], reference@, seq![']']),
{
    let mut out: Vec<char> = Vec::new();
    gen_bracketed(&mut out, ['['].as_slice(), reference, [']'].as_slice());
    out
}

/// A footnote reference: `[^name]`, trimmed.
pub fn gen_footnote_reference(name: &[char]) -> (r: Vec<char>)
    ensures
        r@ == bracketed(seq!['[', '^'], name@, seq![']']),
{
    let mut out: Vec<char> = Vec::new();
    gen_bracketed(&mut out, ['[', '^'].as_slice(), name, [']'].as_slice());
    out
}

/// The start of a footnote definition: `[^name]: `, trimmed.
pub fn gen_footnote_definition_label(name: &[char]) -> (r: Vec<char>)
    ensures
        r@ == bracketed(seq!['[', '^'], name@, seq![']', ':', ' ']),
{
    let mut out: Vec<char> = Vec::new();
    gen_bracketed(&mut out, ['[', '^'].as_slice(), name, [']', ':', ' '].as_slice());
    out
}

/// A link reference definition: `[name]: link "title"`, each part trimmed.
pub open spec fn link_reference_text(name: Seq<char>, link: Seq<char>, title: Option<Seq<char>>) -> Seq<char> {
    bracketed(seq!['['], name, seq![']', ':', ' ']) + trim(link) + title_text(title)
}

/// Returns the text of a link reference definition.
pub fn gen_link_reference(name: &[char], link: &[char], title: Option<&[char]>) -> (r: Vec<char>)
    ensures
        r@ == link_reference_text(name@, link@, opt_chars(title)),
{
    let mut out: Vec<char> = Vec::new();
    gen_bracketed(&mut out, ['['].as_slice(), name, [']', ':', ' '].as_slice());
    push_all(&mut out, trim_exec(link));
    push_title(&mut out, title);
    assert(out@ =~= link_reference_text(name@, link@, opt_chars(title)));
    out
}

/// An inline image: `![text](url "title")`, each part trimmed.
pub open spec fn inline_image_text(text: Seq<char>, url: Seq<char>, title: Option<Seq<char>>) -> Seq<char> {
    bracketed(seq!['!', '['], text, seq![']']) + destination_text(url, title)
}

/// Returns the text of an inline image.
pub fn gen_inline_image(text: &[char], url: &[char], title: Option<&[char]>) -> (r: Vec<char>)
    ensures
        r@ == inline_image_text(text@, url@, opt_chars(title)),
{
    let mut out: Vec<char> = Vec::new();
    gen_bracketed(&mut out, ['!', '['].as_slice(), text, [']'].as_slice());
    let dest = gen_link_destination(url, title);
    push_all(&mut out, dest.as_slice());
    assert(out@ =~= inline_image_text(text@, url@, opt_chars(title)));
    out
}

/// A reference image: `![text][reference]`, each part trimmed.
pub open spec fn reference_image_text(text: Seq<char>, reference: Seq<char>) -> Seq<char> {
    bracketed(seq!['!', '['], text, seq![']']) + bracketed(seq!['['], reference, seq![']'])
}

/// Returns the text of a reference image.
pub fn gen_reference_image(text: &[char], reference: &[char]) -> (r: Vec<char>)
    ensures
        r@ == reference_image_text(text@, reference@),
{
    let mut out: Vec<char> = Vec::new();
    gen_bracketed(&mut out, ['!', '['].as_slice(), text, [']'].as_slice());
    gen_bracketed(&mut out, ['['].as_slice(), reference, [']'].as_slice());
    assert(out@ =~= reference_image_text(text@, reference@));
    out
}

/// The marker of a task list item: `[x]` when checked, `[ ]` otherwise.
pub open spec fn task_marker_text(is_checked: bool) -> Seq<char> {
    if is_checked {
        seq!['[', 'x', ']']
    } else {
        seq!['[', ' ', ']']
    }
}

/// Returns the marker of a task list item.
pub fn gen_task_list_marker(is_checked: bool) -> (r: Vec<char>)
    ensures
        r@ == task_marker_text(is_checked),
{
    let mut out: Vec<char> = Vec::new();
    out.push('[');
    out.push(if is_checked {
        'x'
    } else {
        ' '
    });
    out.push(']');
    assert(out@ =~= task_marker_text(is_checked));
    out
}

/// The kinds of text decoration.
#[derive(Clone, Copy, PartialEq, Eq, Structural, Debug)]
pub enum TextDecorationKind {
    Emphasis,
    Strong,
    Strikethrough,
}

/// The character used for emphasis or strong text.
#[derive(Clone, Copy, PartialEq, Eq, Structural, Debug)]
pub enum DecorationChar {
    Asterisks,
    Underscores,
}

/// `char::is_alphanumeric`: the `Alphabetic` or `Numeric` Unicode property.
pub uninterp spec fn alphanumeric(c: char) -> bool;

/// `char::is_alphanumeric`; the contract states its result through the
/// name `alphanumeric`, and states it exactly for ASCII characters, which
/// are alphanumeric when they are letters or digits.
#[verifier::external_body]
fn is_alphanumeric(c: char) -> (r: bool)
    ensures
        r == alphanumeric(c),
        (c as u32) < 128 ==> (r <==> (('a' <= c && c <= 'z') || ('A' <= c && c <= 'Z') || ('0' <= c
            && c <= '9'))),
{
    c.is_alphanumeric()
}

/// A character is alphanumeric (`char::is_alphanumeric`): an ASCII
/// character when it is a letter or digit, another by its Unicode
/// properties.
pub open spec fn word_char(c: char) -> bool {
    if (c as u32) < 128 {
        ('a' <= c && c <= 'z') || ('A' <= c && c <= 'Z') || ('0' <= c && c <= '9')
    } else {
        alphanumeric(c)
    }
}

/// The decoration that ends just before `pos` is written with an asterisk
/// and an alphanumeric character follows it, so an underscore would not
/// read as a decoration.
pub open spec fn keeps_asterisk(s: Seq<char>, pos: int) -> bool {
    s[pos - 1] == '*' && pos < s.len() && word_char(s[pos])
}

/// Whether the decoration that ends at `pos` must keep its asterisks.
pub fn keep_asterisk(file_text: &[char], pos: usize) -> (r: bool)
    requires
        1 <= pos <= file_text@.len(),
    ensures
        r == keeps_asterisk(file_text@, pos as int),
{
    if file_text[pos - 1] != '*' || pos >= file_text.len() {
        return false;
    }
    let r = is_alphanumeric(file_text[pos]);
    assert(r == word_char(file_text@[pos as int]));
    r
}

/// `n` copies of the decoration character.
pub open spec fn decoration_chars(c: DecorationChar, n: nat) -> Seq<char> {
    crate::chars::repeated(if c == DecorationChar::Asterisks {
        '*'
    } else {
        '_'
    }, n)
}

/// The delimiter written on both sides of a decoration that ends at `pos`:
/// one configured character for emphasis, two for strong text, `~~` for
/// strikethrough; underscores become asterisks where the source uses an
/// asterisk right before an alphanumeric character.
pub open spec fn decoration_delimiter(
    kind: TextDecorationKind,
    emphasis: DecorationChar,
    strong: DecorationChar,
    s: Seq<char>,
    pos: int,
) -> Seq<char> {
    match kind {
        TextDecorationKind::Emphasis => {
            if emphasis == DecorationChar::Underscores && !keeps_asterisk(s, pos) {
                decoration_chars(DecorationChar::Underscores, 1)
            } else {
                decoration_chars(DecorationChar::Asterisks, 1)
            }
        },
        TextDecorationKind::Strong => {
            if strong == DecorationChar::Underscores && !keeps_asterisk(s, pos) {
                decoration_chars(DecorationChar::Underscores, 2)
            } else {
                decoration_chars(DecorationChar::Asterisks, 2)
            }
        },
        TextDecorationKind::Strikethrough => seq!['~', '~'],
    }
}

/// Returns the delimiter of a text decoration that ends at `end` in `file_text`.
pub fn gen_text_decoration_delimiter(
    kind: TextDecorationKind,
    emphasis: DecorationChar,
    strong: DecorationChar,
    file_text: &[char],
    end: usize,
) -> (r: Vec<char>)
    requires
        (kind == TextDecorationKind::Emphasis && emphasis == DecorationChar::Underscores) || (kind
            == TextDecorationKind::Strong && strong == DecorationChar::Underscores) ==> 1 <= end
            <= file_text@.len(),
    ensures
        r@ == decoration_delimiter(kind, emphasis, strong, file_text@, end as int),
        kind == TextDecorationKind::Emphasis && emphasis == DecorationChar::Asterisks ==> r@ == seq!['*'],
        kind == TextDecorationKind::Strong && strong == DecorationChar::Asterisks ==> r@ == seq!['*', '*'],
        kind == TextDecorationKind::Strikethrough ==> r@ == seq!['~', '~'],
        kind == TextDecorationKind::Emphasis && emphasis == DecorationChar::Underscores ==> r@ == (if file_text@[end
            - 1] == '*' && end < file_text@.len() && word_char(file_text@[end as int]) {
            seq!['*']
        } else {
            seq!['_']
        }),
        kind == TextDecorationKind::Strong && strong == DecorationChar::Underscores ==> r@ == (if file_text@[end
            - 1] == '*' && end < file_text@.len() && word_char(file_text@[end as int]) {
            seq!['*', '*']
        } else {
            seq!['_', '_']
        }),
{
    let (c, n): (char, usize) = match kind {
        TextDecorationKind::Emphasis => {
            if emphasis == DecorationChar::Underscores && !keep_asterisk(file_text, end) {
                ('_', 1)
            } else {
                ('*', 1)
            }
        },
        TextDecorationKind::Strong => {
            if strong == DecorationChar::Underscores && !keep_asterisk(file_text, end) {
                ('_', 2)
            } else {
                ('*', 2)
            }
        },
        TextDecorationKind::Strikethrough => ('~', 2),
    };
    let r = crate::chars::repeat_char(c, n);
    assert(r@ =~= decoration_delimiter(kind, emphasis, strong, file_text@, end as int));
    r
}

} // verus!
