//! Code spans and code blocks: delimiters, the code that a block holds,
//! and the layout of a block.
use vstd::prelude::*;

use crate::chars::{is_ws, is_whitespace, push_all, repeat_char, repeated};
use crate::text::{
    all_ws, char_at, ends_with_char, ends_with_char_exec, last_below, lemma_last_below, lemma_trim_empty, starts_with_char,
    starts_with_char_exec, trim, trim_end, trim_end_exec, trim_exec, ws_prefix_len, first_from, lemma_first_from,
    not_ws_at,
};

verus! {

/// The length of the run of `c` that ends just before position `i`.
pub open spec fn run_before(s: Seq<char>, c: char, i: int) -> nat
    decreases i,
{
    if i > 0 && s[i - 1] == c {
        run_before(s, c, i - 1) + 1
    } else {
        0
    }
}

/// The longest run of `c` in the first `n` characters of `s`.
pub open spec fn longest_run(s: Seq<char>, c: char, n: int) -> nat
    decreases n,
{
    if n <= 0 {
        0
    } else {
        let m = longest_run(s, c, n - 1);
        let r = run_before(s, c, n);
        if r > m {
            r
        } else {
            m
        }
    }
}

/// The number of backticks of the fence of a code block holding `s`: one
/// more than the longest run of backticks in it, and at least three.
pub open spec fn fence_len(s: Seq<char>) -> nat {
    let m = longest_run(s, '`', s.len() as int);
    if m > 2 {
        m + 1
    } else {
        3
    }
}

/// A run ends no later than where it is measured.
pub proof fn lemma_run_before_bound(s: Seq<char>, c: char, i: int)
    requires
        0 <= i,
    ensures
        run_before(s, c, i) <= i,
    decreases i,
{
    if i > 0 && s[i - 1] == c {
        lemma_run_before_bound(s, c, i - 1);
    }
}

/// The longest run is at least every run that ends within the prefix.
pub proof fn lemma_longest_run(s: Seq<char>, c: char, n: int, i: int)
    requires
        0 <= i <= n,
    ensures
        run_before(s, c, i) <= longest_run(s, c, n),
        longest_run(s, c, n) <= n,
    decreases n,
{
    lemma_run_before_bound(s, c, n);
    if n > 0 {
        if i < n {
            lemma_longest_run(s, c, n - 1, i);
        } else {
            lemma_longest_run(s, c, n - 1, n - 1);
        }
    }
}

/// Returns the number of backticks of the fence of a code block holding `text`.
pub fn get_backtick_count(text: &[char]) -> (r: usize)
    requires
        text@.len() < usize::MAX,
    ensures
        r == fence_len(text@),
{
    let mut count: usize = 0;
    let mut max_count: usize = 0;
    let mut i: usize = 0;
    while i < text.len()
        invariant
            i <= text@.len() < usize::MAX,
            count == run_before(text@, '`', i as int),
            max_count == longest_run(text@, '`', i as int),
        decreases text.len() - i,
    {
        proof {
            lemma_longest_run(text@, '`', i as int, i as int);
        }
        if text[i] == '`' {
            count += 1;
            if count > max_count {
                max_count = count;
            }
        } else {
            count = 0;
        }
        i += 1;
    }
    proof {
        lemma_longest_run(text@, '`', i as int, i as int);
    }
    if max_count > 2 {
        max_count + 1
    } else {
        3
    }
}

/// Position just after the last `'\n'` among the leading white space of
/// `s`, or 0 when there is none.
pub open spec fn code_start(s: Seq<char>) -> int {
    last_below(ws_prefix_len(s), char_at(s, '\n')) + 1
}

/// Returns the position where the code of a block starts: after the last
/// line break of its leading white space.
pub fn get_code_block_start_pos(text: &[char]) -> (r: usize)
    ensures
        r == code_start(text@),
{
    let mut start_pos: usize = 0;
    let mut i: usize = 0;
    while i < text.len() && is_whitespace(text[i])
        invariant
            i <= text@.len(),
            forall|j: int| 0 <= j < i ==> is_ws(text@[j]),
            start_pos == last_below(i as int, char_at(text@, '\n')) + 1,
        decreases text.len() - i,
    {
        if text[i] == '\n' {
            start_pos = i + 1;
        }
        proof {
            let p = char_at(text@, '\n');
            if text@[i as int] == '\n' {
                lemma_last_below(i as int, i + 1, p);
            } else {
                assert(!p(i as int));
            }
        }
        i += 1;
    }
    proof {
        lemma_first_from(0, i as int, text@.len() as int, not_ws_at(text@));
    }
    start_pos
}

/// The code of a block: empty when the block is blank, otherwise the text
/// from `code_start` on without trailing white space.
pub open spec fn block_code(s: Seq<char>) -> Seq<char> {
    if all_ws(s) {
        Seq::empty()
    } else {
        trim_end(s.skip(code_start(s)))
    }
}

/// Returns the code that a code block holds.
pub fn get_code_text(code: &[char]) -> (r: &[char])
    ensures
        r@ == block_code(code@),
{
    proof {
        lemma_trim_empty(code@);
    }
    if trim_exec(code).len() == 0 {
        return &code[0..0];
    }
    let start_pos = get_code_block_start_pos(code);
    proof {
        crate::text::lemma_first_from_props(0, code@.len() as int, not_ws_at(code@));
        crate::text::lemma_last_below_props(ws_prefix_len(code@), char_at(code@, '\n'));
    }
    let rest = &code[start_pos..code.len()];
    trim_end_exec(rest)
}

/// The part of a code block's info string that names its language: up to
/// the first space or comma (`rust,ignore` names `rust`).
pub open spec fn tag_language(tag: Seq<char>) -> Seq<char> {
    tag.take(first_from(0, tag.len() as int, |j: int| tag[j] == ' ' || tag[j] == ','))
}

/// Returns the language that a code block's info string names.
pub fn code_block_language(tag: &[char]) -> (r: &[char])
    ensures
        r@ == tag_language(tag@),
{
    let mut i: usize = 0;
    while i < tag.len() && tag[i] != ' ' && tag[i] != ','
        invariant
            i <= tag@.len(),
            forall|j: int| 0 <= j < i ==> tag@[j] != ' ' && tag@[j] != ',',
        decreases tag.len() - i,
    {
        i += 1;
    }
    proof {
        lemma_first_from(0, i as int, tag@.len() as int, |j: int| tag@[j] == ' ' || tag@[j] == ',');
    }
    &tag[0..i]
}

/// The printed text of a code block with the given code and info string,
/// before indentation: for a fenced block the fence and info string, a line
/// break, the code and a line break when there is code, and the fence;
/// for an indented block the code alone.
pub open spec fn code_block_text(code: Seq<char>, tag: Option<Seq<char>>, is_fenced: bool) -> Seq<char> {
    if is_fenced {
        let fence = repeated('`', fence_len(code));
        let header = fence + match tag {
            Some(t) => t,
            None => Seq::empty(),
        } + seq!['\n'];
        let body = if code.len() > 0 {
            code + seq!['\n']
        } else {
            Seq::empty()
        };
        header + body + fence
    } else {
        code
    }
}

/// The printed layout of a code block: its text, and the indentation of its
/// lines (none for a fenced block, four for an indented one).
pub fn gen_code_block(code_text: &[char], tag: Option<&[char]>, is_fenced: bool) -> (r: (Vec<char>, u32))
    requires
        code_text@.len() < usize::MAX,
    ensures
        r.0@ == code_block_text(code_text@, match tag {
            Some(t) => Some(t@),
            None => None,
        }, is_fenced),
        r.1 == (if is_fenced {
            0u32
        } else {
            4u32
        }),
{
    let mut out: Vec<char> = Vec::new();
    if is_fenced {
        let fence = repeat_char('`', get_backtick_count(code_text));
        push_all(&mut out, fence.as_slice());
        if let Some(t) = tag {
            push_all(&mut out, t);
        }
        out.push('\n');
        if code_text.len() > 0 {
            push_all(&mut out, code_text);
            out.push('\n');
        }
        push_all(&mut out, fence.as_slice());
        assert(out@ =~= code_block_text(code_text@, match tag {
            Some(t) => Some(t@),
            None => None,
        }, is_fenced));
        (out, 0)
    } else {
        push_all(&mut out, code_text);
        assert(out@ =~= code_text@);
        (out, 4)
    }
}

/// The printed text of a code span holding `code`: the trimmed code between
/// single backticks, or between double backticks when it holds a backtick,
/// with a space inside them when it starts or ends with one.
pub open spec fn code_span_text(code: Seq<char>) -> Seq<char> {
    let t = trim(code);
    let has_tick = t.contains('`');
    let ticks = if has_tick {
        seq!['`', '`']
    } else {
        seq!['`']
    };
    let sep = if has_tick && (starts_with_char(t, '`') || ends_with_char(t, '`')) {
        seq![' ']
    } else {
        Seq::empty()
    };
    ticks + sep + t + sep + ticks
}

/// Returns the printed text of a code span.
pub fn gen_code(code: &[char]) -> (r: Vec<char>)
    ensures
        r@ == code_span_text(code@),
{
    let text = trim_exec(code);
    let mut has_tick = false;
    let mut i: usize = 0;
    while i < text.len()
        invariant
            i <= text@.len(),
            has_tick == exists|j: int| 0 <= j < i && text@[j] == '`',
        decreases text.len() - i,
    {
        if text[i] == '`' {
            has_tick = true;
        }
        i += 1;
    }
    proof {
        if has_tick {
            let j = choose|j: int| 0 <= j < i && text@[j] == '`';
            assert(text@.contains('`'));
        } else {
            assert(!text@.contains('`'));
        }
    }
    let separate = has_tick && (starts_with_char_exec(text, '`') || ends_with_char_exec(text, '`'));
    let mut out: Vec<char> = Vec::new();
    out.push('`');
    if has_tick {
        out.push('`');
    }
    if separate {
        out.push(' ');
    }
    push_all(&mut out, text);
    if separate {
        out.push(' ');
    }
    out.push('`');
    if has_tick {
        out.push('`');
    }
    assert(out@ =~= code_span_text(code@));
    out
}

} // verus!
