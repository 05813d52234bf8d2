//! Searching, prefix tests and white-space trimming on character slices.
//!
//! Positions are character indices; the spec functions describe the
//! behaviour of the corresponding `str` operations on the characters of
//! the text.
use vstd::prelude::*;

use crate::chars::{is_ws, is_whitespace};

verus! {

/// The least `j` in `[i, n)` with `p(j)`, or `n` when there is none.
pub open spec fn first_from(i: int, n: int, p: spec_fn(int) -> bool) -> int
    decreases n - i,
{
    if i >= n {
        n
    } else if p(i) {
        i
    } else {
        first_from(i + 1, n, p)
    }
}

/// The greatest `j` below `n` (and at least 0) with `p(j)`, or -1 when there is none.
pub open spec fn last_below(n: int, p: spec_fn(int) -> bool) -> int
    decreases n,
{
    if n <= 0 {
        -1
    } else if p(n - 1) {
        n - 1
    } else {
        last_below(n - 1, p)
    }
}

/// `first_from` is pinned down by its defining properties.
pub proof fn lemma_first_from(i: int, k: int, n: int, p: spec_fn(int) -> bool)
    requires
        i <= k <= n,
        forall|j: int| i <= j < k ==> !#[trigger] p(j),
        k == n || p(k),
    ensures
        first_from(i, n, p) == k,
    decreases k - i,
{
    if i < k {
        lemma_first_from(i + 1, k, n, p);
    }
}

/// `first_from` lies in `[i, n]`, misses `p` before it, and hits `p` when below `n`.
pub proof fn lemma_first_from_props(i: int, n: int, p: spec_fn(int) -> bool)
    requires
        i <= n,
    ensures
        i <= first_from(i, n, p) <= n,
        forall|j: int| i <= j < first_from(i, n, p) ==> !#[trigger] p(j),
        first_from(i, n, p) < n ==> p(first_from(i, n, p)),
    decreases n - i,
{
    if i < n && !p(i) {
        lemma_first_from_props(i + 1, n, p);
    }
}

/// `last_below` is pinned down by its defining properties.
pub proof fn lemma_last_below(k: int, n: int, p: spec_fn(int) -> bool)
    requires
        -1 <= k < n,
        forall|j: int| k < j < n ==> !#[trigger] p(j),
        k == -1 || (0 <= k && p(k)),
    ensures
        last_below(n, p) == k,
    decreases n,
{
    if n > 0 && k < n - 1 {
        lemma_last_below(k, n - 1, p);
    }
}

/// `s` begins with `p`.
pub open spec fn starts_with(s: Seq<char>, p: Seq<char>) -> bool {
    p.len() <= s.len() && s.take(p.len() as int) == p
}

/// `s` begins with the character `c`.
pub open spec fn starts_with_char(s: Seq<char>, c: char) -> bool {
    s.len() > 0 && s[0] == c
}

/// `s` ends with the character `c`.
pub open spec fn ends_with_char(s: Seq<char>, c: char) -> bool {
    s.len() > 0 && s.last() == c
}

/// `s` begins with the characters `a` and `b`.
pub open spec fn starts_with_two_chars(s: Seq<char>, a: char, b: char) -> bool {
    s.len() >= 2 && s[0] == a && s[1] == b
}

/// Position `j` of `s` holds no white space.
pub open spec fn not_ws_at(s: Seq<char>) -> spec_fn(int) -> bool {
    |j: int| !is_ws(s[j])
}

/// Number of leading white-space characters of `s`.
pub open spec fn ws_prefix_len(s: Seq<char>) -> int {
    first_from(0, s.len() as int, not_ws_at(s))
}

/// Length of `s` once its trailing white space is removed.
pub open spec fn trimmed_end_len(s: Seq<char>) -> int {
    last_below(s.len() as int, not_ws_at(s)) + 1
}

/// `str::trim_start`.
pub open spec fn trim_start(s: Seq<char>) -> Seq<char> {
    s.skip(ws_prefix_len(s))
}

/// `str::trim_end`.
pub open spec fn trim_end(s: Seq<char>) -> Seq<char> {
    s.take(trimmed_end_len(s))
}

/// `str::trim`.
pub open spec fn trim(s: Seq<char>) -> Seq<char> {
    trim_end(trim_start(s))
}

/// Every character of `s` is white space.
pub open spec fn all_ws(s: Seq<char>) -> bool {
    forall|j: int| 0 <= j < s.len() ==> is_ws(#[trigger] s[j])
}

/// `s` starts with `pat` at position `j`.
pub open spec fn matches_at(s: Seq<char>, pat: Seq<char>, j: int) -> bool {
    0 <= j && j + pat.len() <= s.len() && s.subrange(j, j + pat.len()) == pat
}

/// Position `j` of `s` starts an occurrence of `pat`.
pub open spec fn occurs_at(s: Seq<char>, pat: Seq<char>) -> spec_fn(int) -> bool {
    |j: int| matches_at(s, pat, j)
}

/// Position `j` of `s` holds `c`.
pub open spec fn char_at(s: Seq<char>, c: char) -> spec_fn(int) -> bool {
    |j: int| s[j] == c
}

/// `str::find` of a character.
pub open spec fn find_char(s: Seq<char>, c: char) -> Option<int> {
    let k = first_from(0, s.len() as int, char_at(s, c));
    if k < s.len() {
        Some(k)
    } else {
        None
    }
}

/// `str::find` of a string.
pub open spec fn find_str(s: Seq<char>, pat: Seq<char>) -> Option<int> {
    let k = first_from(0, (s.len() + 1) as int, occurs_at(s, pat));
    if k <= s.len() {
        Some(k)
    } else {
        None
    }
}

/// `str::rfind` of a string.
pub open spec fn rfind_str(s: Seq<char>, pat: Seq<char>) -> Option<int> {
    let k = last_below((s.len() + 1) as int, occurs_at(s, pat));
    if k >= 0 {
        Some(k)
    } else {
        None
    }
}

/// An all-white-space sequence trims to nothing and vice versa.
pub proof fn lemma_trim_empty(s: Seq<char>)
    ensures
        (trim(s).len() == 0) <==> all_ws(s),
{
    let p = not_ws_at(s);
    lemma_first_from_props(0, s.len() as int, p);
    let t = trim_start(s);
    let q = not_ws_at(t);
    if all_ws(s) {
        assert forall|j: int| 0 <= j < s.len() implies !#[trigger] p(j) by {
            assert(is_ws(s[j]));
        }
        lemma_first_from(0, s.len() as int, s.len() as int, p);
        assert(t.len() == 0);
        lemma_last_below(-1, t.len() as int, q);
    } else {
        let j = choose|j: int| 0 <= j < s.len() && !is_ws(#[trigger] s[j]);
        assert(p(j));
        let k = ws_prefix_len(s);
        assert(k < s.len());
        assert(!is_ws(t[0]));
        assert(q(0));
        lemma_last_below_props(t.len() as int, q);
    }
}

/// `last_below` lies in `[-1, n)`, hits `p` when non-negative, and misses `p` above it.
pub proof fn lemma_last_below_props(n: int, p: spec_fn(int) -> bool)
    requires
        n >= 0,
    ensures
        -1 <= last_below(n, p) < n,
        last_below(n, p) >= 0 ==> p(last_below(n, p)),
        forall|j: int| last_below(n, p) < j < n ==> !#[trigger] p(j),
    decreases n,
{
    if n > 0 && !p(n - 1) {
        lemma_last_below_props(n - 1, p);
    }
}

/// Exec `str::starts_with` with a character pattern.
pub fn starts_with_char_exec(s: &[char], c: char) -> (r: bool)
    ensures
        r == starts_with_char(s@, c),
{
    s.len() > 0 && s[0] == c
}

/// Exec `str::ends_with` with a character pattern.
pub fn ends_with_char_exec(s: &[char], c: char) -> (r: bool)
    ensures
        r == ends_with_char(s@, c),
{
    s.len() > 0 && s[s.len() - 1] == c
}

/// Exec `str::starts_with`.
pub fn starts_with_exec(s: &[char], p: &[char]) -> (r: bool)
    ensures
        r == starts_with(s@, p@),
{
    if p.len() > s.len() {
        return false;
    }
    let mut i: usize = 0;
    while i < p.len()
        invariant
            p@.len() <= s@.len(),
            i <= p@.len(),
            forall|j: int| 0 <= j < i ==> s@[j] == p@[j],
        decreases p.len() - i,
    {
        if s[i] != p[i] {
            assert(s@.take(p@.len() as int)[i as int] != p@[i as int]);
            return false;
        }
        i += 1;
    }
    assert(s@.take(p@.len() as int) =~= p@);
    true
}

/// Exec equality of two character slices.
pub fn chars_eq(a: &[char], b: &[char]) -> (r: bool)
    ensures
        r == (a@ == b@),
{
    if a.len() != b.len() {
        return false;
    }
    let r = starts_with_exec(a, b);
    proof {
        assert(a@.take(b@.len() as int) =~= a@);
        if !r {
            assert(a@ != b@);
        }
    }
    r
}

/// Exec `str::trim_start`.
pub fn trim_start_exec(s: &[char]) -> (r: &[char])
    ensures
        r@ == trim_start(s@),
{
    let mut i: usize = 0;
    while i < s.len() && is_whitespace(s[i])
        invariant
            i <= s@.len(),
            forall|j: int| 0 <= j < i ==> is_ws(s@[j]),
        decreases s.len() - i,
    {
        i += 1;
    }
    proof {
        lemma_first_from(0, i as int, s@.len() as int, not_ws_at(s@));
    }
    &s[i..s.len()]
}

/// Exec `str::trim_end`.
pub fn trim_end_exec(s: &[char]) -> (r: &[char])
    ensures
        r@ == trim_end(s@),
{
    let mut n: usize = s.len();
    while n > 0 && is_whitespace(s[n - 1])
        invariant
            n <= s@.len(),
            forall|j: int| n <= j < s@.len() ==> is_ws(s@[j]),
        decreases n,
    {
        n -= 1;
    }
    proof {
        lemma_last_below(n - 1, s@.len() as int, not_ws_at(s@));
    }
    &s[0..n]
}

/// Exec `str::trim`.
pub fn trim_exec(s: &[char]) -> (r: &[char])
    ensures
        r@ == trim(s@),
{
    trim_end_exec(trim_start_exec(s))
}

/// Exec `str::find` of a character.
pub fn find_char_exec(s: &[char], c: char) -> (r: Option<usize>)
    ensures
        r matches Some(k) ==> find_char(s@, c) == Some(k as int) && k < s@.len() && s@[k as int]
            == c,
        r is None ==> find_char(s@, c) is None,
{
    let mut i: usize = 0;
    while i < s.len()
        invariant
            i <= s@.len(),
            forall|j: int| 0 <= j < i ==> s@[j] != c,
        decreases s.len() - i,
    {
        if s[i] == c {
            proof {
                lemma_first_from(0, i as int, s@.len() as int, char_at(s@, c));
            }
            return Some(i);
        }
        i += 1;
    }
    proof {
        lemma_first_from(0, i as int, s@.len() as int, char_at(s@, c));
    }
    None
}

/// Exec test of an occurrence of `pat` at position `j` of `s`.
pub fn matches_at_exec(s: &[char], pat: &[char], j: usize) -> (r: bool)
    ensures
        r == matches_at(s@, pat@, j as int),
{
    if j > s.len() || pat.len() > s.len() - j {
        return false;
    }
    let n = s.len();
    let mut i: usize = 0;
    while i < pat.len()
        invariant
            n == s@.len(),
            j + pat@.len() <= s@.len(),
            i <= pat@.len(),
            forall|k: int| 0 <= k < i ==> s@[j + k] == pat@[k],
        decreases pat.len() - i,
    {
        if s[j + i] != pat[i] {
            assert(s@.subrange(j as int, j + pat@.len())[i as int] != pat@[i as int]);
            return false;
        }
        i += 1;
    }
    assert(s@.subrange(j as int, j + pat@.len()) =~= pat@);
    true
}

/// Exec `str::find` of a string.
pub fn find_str_exec(s: &[char], pat: &[char]) -> (r: Option<usize>)
    ensures
        r matches Some(k) ==> find_str(s@, pat@) == Some(k as int) && matches_at(s@, pat@, k as int),
        r is None ==> find_str(s@, pat@) is None,
{
    let mut i: usize = 0;
    while i <= s.len()
        invariant
            i <= s@.len() + 1,
            forall|j: int| 0 <= j < i ==> !#[trigger] matches_at(s@, pat@, j),
        decreases s.len() + 1 - i,
    {
        if matches_at_exec(s, pat, i) {
            proof {
                lemma_first_from(0, i as int, (s@.len() + 1) as int, occurs_at(s@, pat@));
            }
            return Some(i);
        }
        if i == s.len() {
            proof {
                lemma_first_from(0, (s@.len() + 1) as int, (s@.len() + 1) as int, occurs_at(s@, pat@));
            }
            return None;
        }
        i += 1;
    }
    proof {
        lemma_first_from(0, (s@.len() + 1) as int, (s@.len() + 1) as int, occurs_at(s@, pat@));
    }
    None
}

/// Exec `str::rfind` of a string.
pub fn rfind_str_exec(s: &[char], pat: &[char]) -> (r: Option<usize>)
    ensures
        r matches Some(k) ==> rfind_str(s@, pat@) == Some(k as int) && matches_at(s@, pat@, k as int),
        r is None ==> rfind_str(s@, pat@) is None,
{
    let mut n: usize = s.len();
    loop
        invariant
            n <= s@.len(),
            forall|j: int| n < j <= s@.len() ==> !#[trigger] matches_at(s@, pat@, j),
        decreases n,
    {
        if matches_at_exec(s, pat, n) {
            proof {
                lemma_last_below(n as int, (s@.len() + 1) as int, occurs_at(s@, pat@));
            }
            return Some(n);
        }
        if n == 0 {
            proof {
                lemma_last_below(-1, (s@.len() + 1) as int, occurs_at(s@, pat@));
            }
            return None;
        }
        n -= 1;
    }
}

} // verus!
