//! Driving the formatting of a file: the format mode, the byte order
//! mark, the print settings, and the order of the steps of a run.
use vstd::prelude::*;

use crate::chars::{chars_to_string, to_chars, utf8_byte_len, utf8_len};
use crate::text::{char_at, chars_eq, last_below};

verus! {

/// How a file is formatted.
#[derive(Clone, Copy, PartialEq, Eq, Structural, Debug)]
pub enum FormatMode {
    Markdown,
    Mdx,
}

/// The byte order mark.
pub open spec fn bom() -> char {
    '\u{FEFF}'
}

/// `s` without one leading byte order mark.
pub open spec fn without_bom(s: Seq<char>) -> Seq<char> {
    if s.len() > 0 && s[0] == bom() {
        s.drop_first()
    } else {
        s
    }
}

/// Returns `text` without its leading byte order mark, if it has one.
pub fn strip_bom(text: &[char]) -> (r: &[char])
    ensures
        r@ == without_bom(text@),
{
    if text.len() > 0 && text[0] == '\u{FEFF}' {
        let r = &text[1..text.len()];
        assert(r@ =~= text@.drop_first());
        r
    } else {
        text
    }
}

/// The code of the ASCII lower case of a character.
pub open spec fn ascii_lower(c: char) -> int {
    if 'A' <= c && c <= 'Z' {
        (c as int) + 32
    } else {
        c as int
    }
}

/// `a` and `b` are equal when ASCII letters are compared without case.
pub open spec fn eq_ignore_ascii_case(a: Seq<char>, b: Seq<char>) -> bool {
    a.len() == b.len() && forall|i: int| 0 <= i < a.len() ==> ascii_lower(#[trigger] a[i]) == ascii_lower(b[i])
}

fn ascii_lower_exec(c: char) -> (r: u32)
    ensures
        r == ascii_lower(c),
{
    if 'A' <= c && c <= 'Z' {
        (c as u32) + 32
    } else {
        c as u32
    }
}

/// Compares `a` and `b` ignoring the case of ASCII letters.
pub fn eq_ignore_ascii_case_exec(a: &[char], b: &[char]) -> (r: bool)
    ensures
        r == eq_ignore_ascii_case(a@, b@),
{
    if a.len() != b.len() {
        return false;
    }
    let mut i: usize = 0;
    while i < a.len()
        invariant
            a@.len() == b@.len(),
            i <= a@.len(),
            forall|j: int| 0 <= j < i ==> ascii_lower(#[trigger] a@[j]) == ascii_lower(b@[j]),
        decreases a.len() - i,
    {
        if ascii_lower_exec(a[i]) != ascii_lower_exec(b[i]) {
            return false;
        }
        i += 1;
    }
    true
}

/// The extension `mdx`.
pub open spec fn mdx_extension() -> Seq<char> {
    seq!['m', 'd', 'x']
}

/// The mode for a file with the given extension: MDX for `mdx` in any
/// ASCII case, Markdown otherwise.
pub open spec fn mode_for(extension: Option<Seq<char>>) -> FormatMode {
    match extension {
        Some(e) => if eq_ignore_ascii_case(e, mdx_extension()) {
            FormatMode::Mdx
        } else {
            FormatMode::Markdown
        },
        None => FormatMode::Markdown,
    }
}

/// A file name that is plain on every platform: not empty, neither `.`
/// nor `..`, and without a slash, backslash or colon.
pub open spec fn plain_file_name(p: Seq<char>) -> bool {
    &&& p.len() > 0
    &&& p != seq!['.']
    &&& p != seq!['.', '.']
    &&& forall|i: int| 0 <= i < p.len() ==> #[trigger] p[i] != '/' && p[i] != '\\' && p[i] != ':'
}

/// The text of a path after its last `/`.
pub open spec fn last_segment(p: Seq<char>) -> Seq<char> {
    p.skip(last_below(p.len() as int, char_at(p, '/')) + 1)
}

/// A path that means the same on every platform: directories separated by
/// `/` and a plain file name at the end, with no backslash or colon, and
/// not starting with two slashes. (A name that starts with a dot and has
/// no other dot, such as `.mdx`, has no extension.)
pub open spec fn simple_path(p: Seq<char>) -> bool {
    &&& forall|i: int| 0 <= i < p.len() ==> #[trigger] p[i] != '\\' && p[i] != ':'
    &&& !(p.len() >= 2 && p[0] == '/' && p[1] == '/')
    &&& plain_file_name(last_segment(p))
}

/// The extension of a plain file name: the text after its last `.`, where
/// that dot is not the name's first character.
pub open spec fn plain_extension(p: Seq<char>) -> Option<Seq<char>> {
    let k = last_below(p.len() as int, char_at(p, '.'));
    if k > 0 {
        Some(p.skip(k + 1))
    } else {
        None
    }
}

/// The extension of the file name of a simple path.
pub open spec fn path_extension_of(p: Seq<char>) -> Option<Seq<char>> {
    plain_extension(last_segment(p))
}

/// `std::path::Path::extension` of `path`, as a string. Path syntax depends
/// on the platform; the contract states the result only for a simple path,
/// whose file name is the text after its last `/` and whose extension is
/// the text of that name after its last `.`, unless that dot starts the name.
#[verifier::external_body]
fn path_extension(path: &str) -> (r: Option<String>)
    ensures
        simple_path(path@) ==> match r {
            Some(e) => path_extension_of(path@) == Some(e@),
            None => path_extension_of(path@) is None,
        },
{
    std::path::Path::new(path).extension().and_then(|e| e.to_str()).map(|e| e.to_string())
}

impl FormatMode {
    /// The mode for a file with the given extension.
    pub fn from_extension(extension: Option<&[char]>) -> (r: FormatMode)
        ensures
            r == mode_for(match extension {
                Some(e) => Some(e@),
                None => None,
            }),
    {
        match extension {
            Some(e) => {
                let mdx = ['m', 'd', 'x'];
                assert(mdx@ =~= mdx_extension());
                if eq_ignore_ascii_case_exec(e, mdx.as_slice()) {
                    FormatMode::Mdx
                } else {
                    FormatMode::Markdown
                }
            },
            None => FormatMode::Markdown,
        }
    }

    /// The mode for the file at `file_path`, from the extension of its file
    /// name; exact for a simple path.
    pub fn from_path(file_path: &str) -> (r: FormatMode)
        ensures
            simple_path(file_path@) ==> r == mode_for(path_extension_of(file_path@)),
    {
        match path_extension(file_path) {
            Some(e) => {
                let chars = to_chars(e.as_str());
                let r = Self::from_extension(Some(chars.as_slice()));
                assert(r == mode_for(Some(chars@)));
                r
            },
            None => {
                let r = Self::from_extension(None);
                assert(r == mode_for(None));
                r
            },
        }
    }
}

/// How the newline of the output is chosen.
#[derive(Clone, Copy, PartialEq, Eq, Structural, Debug)]
pub enum NewLineKind {
    Auto,
    LineFeed,
    CarriageReturnLineFeed,
}

/// The newline text for `kind` and the text `s`: with `Auto`, `"\r\n"` when
/// the last `'\n'` of the text follows a `'\r'`, and `"\n"` otherwise.
pub open spec fn newline_for(kind: NewLineKind, s: Seq<char>) -> Seq<char> {
    match kind {
        NewLineKind::LineFeed => seq!['\n'],
        NewLineKind::CarriageReturnLineFeed => seq!['\r', '\n'],
        NewLineKind::Auto => {
            let k = last_below(s.len() as int, char_at(s, '\n'));
            if k > 0 && s[k - 1] == '\r' {
                seq!['\r', '\n']
            } else {
                seq!['\n']
            }
        },
    }
}

/// `dprint_core::configuration::resolve_new_line_kind`: the newline text for
/// a kind of newline and a file text; the contract states its source.
#[verifier::external_body]
fn resolve_new_line_kind(file_text: &str, new_line_kind: NewLineKind) -> (r: &'static str)
    ensures
        r@ == newline_for(new_line_kind, file_text@),
{
    dprint_core::configuration::resolve_new_line_kind(
        file_text,
        match new_line_kind {
            NewLineKind::Auto => dprint_core::configuration::NewLineKind::Auto,
            NewLineKind::LineFeed => dprint_core::configuration::NewLineKind::LineFeed,
            NewLineKind::CarriageReturnLineFeed => dprint_core::configuration::NewLineKind::CarriageReturnLineFeed,
        },
    )
}

/// The options of the printer.
pub struct PrintSettings {
    pub indent_width: u8,
    pub max_width: u32,
    pub use_tabs: bool,
    pub new_line_text: &'static str,
}

/// Print settings for a file: an indent width of one, spaces, the
/// configured line width, and the newline chosen for the file text.
pub fn config_to_print_options(file_text: &str, line_width: u32, new_line_kind: NewLineKind) -> (r: PrintSettings)
    ensures
        r.indent_width == 1,
        r.max_width == line_width,
        !r.use_tabs,
        r.new_line_text@ == newline_for(new_line_kind, file_text@),
{
    PrintSettings {
        indent_width: 1,
        max_width: line_width,
        use_tabs: false,
        new_line_text: resolve_new_line_kind(file_text, new_line_kind),
    }
}

/// The result of a run: nothing when the output equals the input.
pub open spec fn changed(file_text: Seq<char>, output: Option<Seq<char>>) -> Option<Seq<char>> {
    match output {
        Some(t) => if t == file_text {
            None
        } else {
            Some(t)
        },
        None => None,
    }
}

/// Returns the formatted text, or nothing when it equals `file_text`.
pub fn changed_text(file_text: &[char], output: Option<Vec<char>>) -> (r: Option<Vec<char>>)
    ensures
        (match r {
            Some(t) => Some(t@),
            None => None,
        }) == changed(file_text@, match output {
            Some(t) => Some(t@),
            None => None,
        }),
{
    match output {
        Some(t) => {
            if chars_eq(t.as_slice(), file_text) {
                None
            } else {
                Some(t)
            }
        },
        None => None,
    }
}

/// `dprint_core::formatting::utils::string_utils::format_diagnostic`: the
/// message of a parse error at the byte range `[start, end)` of a text.
pub uninterp spec fn diagnostic_text(start: nat, end: nat, message: Seq<char>, text: Seq<char>) -> Seq<char>;

/// `format_diagnostic` with a range: a message that gives the line and
/// column of `start` and highlights the range in the text. The positions
/// must be byte positions of characters of the text, the first not after
/// the second; the contract states the result through the name
/// `diagnostic_text`.
#[verifier::external_body]
fn format_diagnostic(start: usize, end: usize, message: &str, file_text: &str) -> (r: String)
    requires
        exists|cs: int, ce: int|
            0 <= cs <= ce <= file_text@.len() && start == utf8_len(file_text@.take(cs)) && end == utf8_len(
                file_text@.take(ce),
            ),
    ensures
        r@ == diagnostic_text(start as nat, end as nat, message@, file_text@),
{
    dprint_core::formatting::utils::string_utils::format_diagnostic(Some((start, end)), message, file_text)
}

/// The message of a parse error at the characters `[start, end)` of `text`.
pub open spec fn parse_error_text(text: Seq<char>, start: int, end: int, message: Seq<char>) -> Seq<char> {
    diagnostic_text(utf8_len(text.take(start)), utf8_len(text.take(end)), message, text)
}

/// Returns the message of a parse error at the characters `[start, end)` of `text`.
pub fn parse_error_message(text: &[char], start: usize, end: usize, message: &str) -> (r: String)
    requires
        start <= end <= text@.len(),
        4 * text@.len() <= usize::MAX,
    ensures
        r@ == parse_error_text(text@, start as int, end as int, message@),
{
    let byte_start = utf8_byte_len(&text[0..start]);
    let byte_end = utf8_byte_len(&text[0..end]);
    assert(text@.subrange(0, start as int) =~= text@.take(start as int));
    assert(text@.subrange(0, end as int) =~= text@.take(end as int));
    let file_text = chars_to_string(text);
    format_diagnostic(byte_start, byte_end, message, file_text.as_str())
}

} // verus!
