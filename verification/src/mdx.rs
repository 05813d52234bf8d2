//! Line-level recognisers for MDX syntax: JSX tags, ESM statements,
//! expressions and fenced code delimiters.
use vstd::prelude::*;

use crate::chars::{is_ws, is_whitespace};
use crate::lines::{first_nonblank_line, first_nonblank_line_exec};
use crate::text::{
    ends_with_char, ends_with_char_exec, find_char, find_char_exec, find_str, find_str_exec,
    first_from, lemma_first_from, rfind_str, rfind_str_exec, starts_with, starts_with_char,
    starts_with_char_exec, starts_with_exec, trim, trim_end, trim_end_exec, trim_exec, trim_start,
    trim_start_exec,
};

verus! {

/// The keyword `import`.
pub open spec fn import_keyword() -> Seq<char> {
    seq!['i', 'm', 'p', 'o', 'r', 't']
}

/// The keyword `export`.
pub open spec fn export_keyword() -> Seq<char> {
    seq!['e', 'x', 'p', 'o', 'r', 't']
}

fn import_keyword_exec() -> (r: [char; 6])
    ensures
        r@ == import_keyword(),
{
    let r = ['i', 'm', 'p', 'o', 'r', 't'];
    assert(r@ =~= import_keyword());
    r
}

fn export_keyword_exec() -> (r: [char; 6])
    ensures
        r@ == export_keyword(),
{
    let r = ['e', 'x', 'p', 'o', 'r', 't'];
    assert(r@ =~= export_keyword());
    r
}

/// `s` begins with the two characters `a` and `b`.
pub open spec fn starts_with_two(s: Seq<char>, a: char, b: char) -> bool {
    s.len() >= 2 && s[0] == a && s[1] == b
}

fn starts_with_two_exec(s: &[char], a: char, b: char) -> (r: bool)
    ensures
        r == starts_with_two(s@, a, b),
{
    s.len() >= 2 && s[0] == a && s[1] == b
}

/// `s` begins with the same character three times.
pub open spec fn starts_with_three(s: Seq<char>, c: char) -> bool {
    s.len() >= 3 && s[0] == c && s[1] == c && s[2] == c
}

/// The fence character of a line that opens or closes fenced code.
pub open spec fn fence_kind(s: Seq<char>) -> Option<char> {
    if starts_with_three(s, '`') {
        Some('`')
    } else if starts_with_three(s, '~') {
        Some('~')
    } else {
        None
    }
}

/// Returns `` '`' `` for a line starting with three backticks, `'~'` for
/// one starting with three tildes, and nothing otherwise.
pub fn fenced_code_delimiter_kind(text: &[char]) -> (r: Option<char>)
    ensures
        r == fence_kind(text@),
{
    if text.len() >= 3 && text[0] == '`' && text[1] == '`' && text[2] == '`' {
        Some('`')
    } else if text.len() >= 3 && text[0] == '~' && text[1] == '~' && text[2] == '~' {
        Some('~')
    } else {
        None
    }
}

/// The line starts with a space or a tab.
pub open spec fn leading_indent(s: Seq<char>) -> bool {
    starts_with_char(s, ' ') || starts_with_char(s, '\t')
}

/// Whether `text` starts with a space or a tab.
pub fn has_leading_indent(text: &[char]) -> (r: bool)
    ensures
        r == leading_indent(text@),
{
    starts_with_char_exec(text, ' ') || starts_with_char_exec(text, '\t')
}

/// Text that looks like a JSX element: after leading white space it starts
/// with `<`, ends with `>` before trailing white space, and is neither a
/// comment, a declaration nor a processing instruction.
pub open spec fn jsx_block(s: Seq<char>) -> bool {
    let t = trim_start(s);
    &&& starts_with_char(t, '<')
    &&& ends_with_char(trim_end(t), '>')
    &&& !starts_with_two(t, '<', '!')
    &&& !starts_with_two(t, '<', '?')
}

/// Whether `text` looks like a block of JSX.
pub fn is_mdx_jsx_block(text: &[char]) -> (r: bool)
    ensures
        r == jsx_block(text@),
{
    let text = trim_start_exec(text);
    // A `<!--` comment also starts with `<!`.
    starts_with_char_exec(text, '<') && ends_with_char_exec(trim_end_exec(text), '>')
        && !starts_with_two_exec(text, '<', '!') && !starts_with_two_exec(text, '<', '?')
}

/// A line that opens a JSX element: JSX that is neither a closing tag nor
/// self-closing.
pub open spec fn jsx_opening_line(s: Seq<char>) -> bool {
    jsx_block(s) && !starts_with_two(s, '<', '/') && !(s.len() >= 2 && s[s.len() - 2] == '/'
        && s[s.len() - 1] == '>')
}

/// Whether `text` opens a JSX element.
pub fn is_mdx_jsx_opening_line(text: &[char]) -> (r: bool)
    ensures
        r == jsx_opening_line(text@),
{
    is_mdx_jsx_block(text) && !starts_with_two_exec(text, '<', '/') && !(text.len() >= 2 && text[text.len()
        - 2] == '/' && text[text.len() - 1] == '>')
}

/// A line of Markdown prose inside JSX: after leading white space it is not
/// empty and starts with neither `<` nor `{`.
pub open spec fn markdown_child_line(s: Seq<char>) -> bool {
    let t = trim_start(s);
    t.len() > 0 && t[0] != '<' && t[0] != '{'
}

/// Whether `text` is a line of Markdown prose.
pub fn is_markdown_child_line(text: &[char]) -> (r: bool)
    ensures
        r == markdown_child_line(text@),
{
    let text = trim_start_exec(text);
    text.len() > 0 && text[0] != '<' && text[0] != '{'
}

/// Position `j` of `s` ends a tag name: white space, `>` or `/`.
pub open spec fn tag_name_end_at(s: Seq<char>) -> spec_fn(int) -> bool {
    |j: int| is_ws(s[j]) || s[j] == '>' || s[j] == '/'
}

/// The tag name of a line that starts with `<`: the characters after `<`
/// up to white space, `>` or `/`; nothing when that is empty or when the
/// line starts with `<>` or `</`.
pub open spec fn jsx_tag_name(s: Seq<char>) -> Option<Seq<char>> {
    if !starts_with_char(s, '<') {
        None
    } else {
        let rest = s.drop_first();
        if starts_with_char(rest, '>') || starts_with_char(rest, '/') {
            None
        } else {
            let e = first_from(0, rest.len() as int, tag_name_end_at(rest));
            if e == 0 {
                None
            } else {
                Some(rest.take(e))
            }
        }
    }
}

/// Returns the tag name of the JSX element that `text` starts with.
pub fn mdx_jsx_tag_name(text: &[char]) -> (r: Option<&[char]>)
    ensures
        r matches Some(t) ==> jsx_tag_name(text@) == Some(t@),
        r is None ==> jsx_tag_name(text@) is None,
{
    if !starts_with_char_exec(text, '<') {
        return None;
    }
    let rest = &text[1..text.len()];
    assert(rest@ =~= text@.drop_first());
    if starts_with_char_exec(rest, '>') || starts_with_char_exec(rest, '/') {
        return None;
    }
    let mut e: usize = 0;
    while e < rest.len() && !(is_whitespace(rest[e]) || rest[e] == '>' || rest[e] == '/')
        invariant
            e <= rest@.len(),
            forall|j: int| 0 <= j < e ==> !#[trigger] tag_name_end_at(rest@)(j),
        decreases rest.len() - e,
    {
        e += 1;
    }
    proof {
        lemma_first_from(0, e as int, rest@.len() as int, tag_name_end_at(rest@));
    }
    if e == 0 {
        None
    } else {
        Some(&rest[0..e])
    }
}

/// The text that starts a closing tag: `</` and the tag name.
pub open spec fn closing_start(tag: Seq<char>) -> Seq<char> {
    seq!['<', '/'] + tag
}

fn closing_start_exec(tag: &[char]) -> (r: Vec<char>)
    ensures
        r@ == closing_start(tag@),
{
    let mut r: Vec<char> = Vec::new();
    r.push('<');
    r.push('/');
    let mut i: usize = 0;
    while i < tag.len()
        invariant
            i <= tag@.len(),
            r@ == seq!['<', '/'] + tag@.take(i as int),
        decreases tag.len() - i,
    {
        r.push(tag[i]);
        i += 1;
        assert(r@ =~= seq!['<', '/'] + tag@.take(i as int));
    }
    assert(tag@.take(i as int) =~= tag@);
    r
}

/// A line that closes the element `tag`: `</`, the tag name, then `>` or
/// white space.
pub open spec fn jsx_closing_line(s: Seq<char>, tag: Seq<char>) -> bool {
    &&& starts_with_two(s, '<', '/')
    &&& starts_with(s.skip(2), tag)
    &&& {
        let rest = s.skip(2 + tag.len() as int);
        starts_with_char(rest, '>') || (rest.len() > 0 && is_ws(rest[0]))
    }
}

/// Whether `text` closes the JSX element `tag_name`.
pub fn is_mdx_jsx_closing_line(text: &[char], tag_name: &[char]) -> (r: bool)
    ensures
        r == jsx_closing_line(text@, tag_name@),
{
    if !starts_with_two_exec(text, '<', '/') {
        return false;
    }
    let rest = &text[2..text.len()];
    assert(rest@ =~= text@.skip(2));
    if !starts_with_exec(rest, tag_name) {
        return false;
    }
    let rest2 = &rest[tag_name.len()..rest.len()];
    assert(rest2@ =~= text@.skip(2 + tag_name@.len() as int));
    starts_with_char_exec(rest2, '>') || (rest2.len() > 0 && is_whitespace(rest2[0]))
}

/// After the first `>` of the line, the first `</tag` starts a closing tag of `tag`.
pub open spec fn single_line_closing(s: Seq<char>, tag: Seq<char>) -> bool {
    match find_char(s, '>') {
        None => false,
        Some(open_end) => {
            let after = s.skip(open_end + 1);
            match find_str(after, closing_start(tag)) {
                None => false,
                Some(close_start) => jsx_closing_line(after.skip(close_start), tag),
            }
        },
    }
}

/// Whether the element `tag_name` that `text` opens is closed on the same line.
pub fn single_line_jsx_has_closing_tag(text: &[char], tag_name: &[char]) -> (r: bool)
    ensures
        r == single_line_closing(text@, tag_name@),
{
    let pattern = closing_start_exec(tag_name);
    let n = text.len();
    match find_char_exec(text, '>') {
        None => false,
        Some(open_end) => {
            let after = &text[open_end + 1..n];
            assert(after@ =~= text@.skip(open_end + 1));
            match find_str_exec(after, pattern.as_slice()) {
                None => false,
                Some(close_start) => {
                    let tail = &after[close_start..after.len()];
                    assert(tail@ =~= after@.skip(close_start as int));
                    is_mdx_jsx_closing_line(tail, tag_name)
                },
            }
        },
    }
}

/// The text between the first `>` and the last `</tag` of the line is prose.
pub open spec fn single_line_markdown_child(s: Seq<char>, tag: Seq<char>) -> bool {
    match (find_char(s, '>'), rfind_str(s, closing_start(tag))) {
        (Some(open_end), Some(close_start)) => close_start > open_end && markdown_child_line(
            s.subrange(open_end + 1, close_start),
        ),
        _ => false,
    }
}

/// Whether a one-line element `tag_name` holds Markdown prose as its child.
pub fn single_line_jsx_contains_markdown_child(text: &[char], tag_name: &[char]) -> (r: bool)
    ensures
        r == single_line_markdown_child(text@, tag_name@),
{
    let pattern = closing_start_exec(tag_name);
    let open_end = match find_char_exec(text, '>') {
        Some(i) => i,
        None => return false,
    };
    let close_start = match rfind_str_exec(text, pattern.as_slice()) {
        Some(i) => i,
        None => return false,
    };
    close_start > open_end && is_markdown_child_line(&text[open_end + 1..close_start])
}

/// `s` starts with `keyword` followed by a white-space character.
pub open spec fn keyword_and_ws(s: Seq<char>, keyword: Seq<char>) -> bool {
    starts_with(s, keyword) && s.len() > keyword.len() && is_ws(s[keyword.len() as int])
}

/// Whether `text` starts with `keyword` and then white space.
pub fn starts_with_keyword_and_whitespace(text: &[char], keyword: &[char]) -> (r: bool)
    ensures
        r == keyword_and_ws(text@, keyword@),
{
    starts_with_exec(text, keyword) && text.len() > keyword.len() && is_whitespace(
        text[keyword.len()],
    )
}

/// An ESM `import` declaration: `import`, white space, then neither `(`
/// (a dynamic import) nor `.` (`import.meta`).
pub open spec fn import_declaration_start(s: Seq<char>) -> bool {
    keyword_and_ws(s, import_keyword()) && {
        let rest = trim_start(s.skip(6));
        !starts_with_char(rest, '(') && !starts_with_char(rest, '.')
    }
}

/// Whether `text` starts an `import` declaration.
pub fn is_mdx_import_declaration_start(text: &[char]) -> (r: bool)
    ensures
        r == import_declaration_start(text@),
{
    let kw = import_keyword_exec();
    if !starts_with_keyword_and_whitespace(text, kw.as_slice()) {
        return false;
    }
    let rest = &text[6..text.len()];
    assert(rest@ =~= text@.skip(6));
    let rest = trim_start_exec(rest);
    !starts_with_char_exec(rest, '(') && !starts_with_char_exec(rest, '.')
}

/// The first line of `s` that is not blank, without its leading white space.
pub open spec fn first_line(s: Seq<char>) -> Seq<char> {
    trim_start(first_nonblank_line(s))
}

/// The first non-blank line starts an `import` declaration or `export` statement.
pub open spec fn esm_keyword_start(s: Seq<char>) -> bool {
    import_declaration_start(first_line(s)) || keyword_and_ws(first_line(s), export_keyword())
}

/// Whether `text` starts with an ESM `import` or `export`.
pub fn starts_with_mdx_esm_keyword(text: &[char]) -> (r: bool)
    ensures
        r == esm_keyword_start(text@),
{
    let first_line = trim_start_exec(first_nonblank_line_exec(text));
    let kw = export_keyword_exec();
    is_mdx_import_declaration_start(first_line) || starts_with_keyword_and_whitespace(
        first_line,
        kw.as_slice(),
    )
}

/// Whether `text` is a block of ESM.
pub fn is_mdx_esm_block(text: &[char]) -> (r: bool)
    ensures
        r == esm_keyword_start(text@),
{
    starts_with_mdx_esm_keyword(text)
}

/// A paragraph that is JSX and ends with `>` once trimmed.
pub open spec fn jsx_paragraph(s: Seq<char>) -> bool {
    jsx_block(trim(s)) && ends_with_char(trim(s), '>')
}

/// Whether the paragraph `text` is a JSX element.
pub fn is_mdx_jsx_paragraph(text: &[char]) -> (r: bool)
    ensures
        r == jsx_paragraph(text@),
{
    let text = trim_exec(text);
    is_mdx_jsx_block(text) && ends_with_char_exec(text, '>')
}

/// A block that, once trimmed, starts with `{` and ends with `}`.
pub open spec fn standalone_expression(s: Seq<char>) -> bool {
    starts_with_char(trim(s), '{') && ends_with_char(trim(s), '}')
}

/// Whether `text` is a standalone MDX expression.
pub fn is_standalone_mdx_expression_block(text: &[char]) -> (r: bool)
    ensures
        r == standalone_expression(text@),
{
    let text = trim_exec(text);
    starts_with_char_exec(text, '{') && ends_with_char_exec(text, '}')
}

/// The first non-blank line starts with the word `import` but is no import declaration.
pub open spec fn import_like_non_esm(s: Seq<char>) -> bool {
    keyword_and_ws(first_line(s), import_keyword()) && !import_declaration_start(first_line(s))
}

/// Whether `text` is prose that starts with the word `import`.
pub fn is_mdx_import_like_non_esm_block(text: &[char]) -> (r: bool)
    ensures
        r == import_like_non_esm(text@),
{
    let first_line = trim_start_exec(first_nonblank_line_exec(text));
    let kw = import_keyword_exec();
    starts_with_keyword_and_whitespace(first_line, kw.as_slice())
        && !is_mdx_import_declaration_start(first_line)
}

} // verus!
