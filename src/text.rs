//! Character-level helpers over the `Seq<char>` view of strings.
use vstd::prelude::*;

verus! {

/// `p` occurs in `s` starting at index `i`.
pub open spec fn occurs_at(s: Seq<char>, p: Seq<char>, i: int) -> bool {
    0 <= i && i + p.len() <= s.len() && s.subrange(i, i + p.len()) == p
}

/// `p` occurs somewhere in `s`.
pub open spec fn has_infix(s: Seq<char>, p: Seq<char>) -> bool {
    exists|i: int| occurs_at(s, p, i)
}

/// `s` begins with `p`.
pub open spec fn has_prefix(s: Seq<char>, p: Seq<char>) -> bool {
    occurs_at(s, p, 0)
}

/// Whether `p` occurs in `s` at character index `i`.
pub fn matches_at(s: &str, p: &str, i: usize) -> (r: bool)
    ensures
        r == occurs_at(s@, p@, i as int),
{
    let n = s.unicode_len();
    let m = p.unicode_len();
    if i > n || m > n - i {
        return false;
    }
    let mut j: usize = 0;
    while j < m
        invariant
            n == s@.len(),
            m == p@.len(),
            i + m <= n,
            j <= m,
            forall|k: int| 0 <= k < j ==> s@[i + k] == p@[k],
        decreases m - j,
    {
        if s.get_char(i + j) != p.get_char(j) {
            return false;
        }
        j = j + 1;
    }
    assert(s@.subrange(i as int, i + m) =~= p@);
    true
}

/// Whether `s` starts with `p`.
pub fn starts_with(s: &str, p: &str) -> (r: bool)
    ensures
        r == has_prefix(s@, p@),
{
    matches_at(s, p, 0)
}

/// Whether `p` occurs anywhere in `s`.
pub fn contains(s: &str, p: &str) -> (r: bool)
    ensures
        r == has_infix(s@, p@),
{
    let n = s.unicode_len();
    let mut i: usize = 0;
    while i < n
        invariant
            n == s@.len(),
            i <= n,
            forall|k: int| 0 <= k < i ==> !occurs_at(s@, p@, k),
        decreases n - i,
    {
        if matches_at(s, p, i) {
            return true;
        }
        i = i + 1;
    }
    if matches_at(s, p, n) {
        return true;
    }
    assert forall|k: int| !occurs_at(s@, p@, k) by {
        if 0 <= k < n {
        }
    }
    false
}

/// Whether the characters of `s` between `a` and `b` are exactly `lit`.
pub fn range_is(s: &str, a: usize, b: usize, lit: &str) -> (r: bool)
    requires
        a <= b <= s@.len(),
    ensures
        r == (s@.subrange(a as int, b as int) == lit@),
{
    let m = lit.unicode_len();
    if b - a != m {
        assert(s@.subrange(a as int, b as int).len() != lit@.len());
        return false;
    }
    matches_at(s, lit, a)
}

/// Unicode White_Space, the characters `char::is_whitespace` accepts.
pub open spec fn is_space(c: char) -> bool {
    ('\t' <= c <= '\r') || c == ' ' || c == '\u{85}' || c == '\u{a0}' || c == '\u{1680}'
        || ('\u{2000}' <= c <= '\u{200a}') || c == '\u{2028}' || c == '\u{2029}'
        || c == '\u{202f}' || c == '\u{205f}' || c == '\u{3000}'
}

/// The characters that trimming removes: whitespace, and double quotes too
/// where `quotes`.
pub open spec fn strippable(c: char, quotes: bool) -> bool {
    is_space(c) || (quotes && c == '"')
}

pub open spec fn trim_start(s: Seq<char>, quotes: bool) -> Seq<char>
    decreases s.len(),
{
    if s.len() > 0 && strippable(s[0], quotes) {
        trim_start(s.drop_first(), quotes)
    } else {
        s
    }
}

pub open spec fn trim_end(s: Seq<char>, quotes: bool) -> Seq<char>
    decreases s.len(),
{
    if s.len() > 0 && strippable(s.last(), quotes) {
        trim_end(s.drop_last(), quotes)
    } else {
        s
    }
}

/// `s` without leading and trailing whitespace.
pub open spec fn trim(s: Seq<char>) -> Seq<char> {
    trim_end(trim_start(s, false), false)
}

/// `s` without leading and trailing double quotes and whitespace.
pub open spec fn strip_quotes(s: Seq<char>) -> Seq<char> {
    trim_end(trim_start(s, true), true)
}

proof fn lemma_trim_start_step(s: Seq<char>, quotes: bool, i: int)
    requires
        0 <= i < s.len(),
        strippable(s[i], quotes),
    ensures
        trim_start(s.subrange(i, s.len() as int), quotes) == trim_start(
            s.subrange(i + 1, s.len() as int),
            quotes,
        ),
{
    assert(s.subrange(i, s.len() as int).drop_first() =~= s.subrange(i + 1, s.len() as int));
}

proof fn lemma_trim_end_step(s: Seq<char>, quotes: bool, j: int)
    requires
        0 < j <= s.len(),
        strippable(s[j - 1], quotes),
    ensures
        trim_end(s.subrange(0, j), quotes) == trim_end(s.subrange(0, j - 1), quotes),
{
    assert(s.subrange(0, j).drop_last() =~= s.subrange(0, j - 1));
}

fn strippable_char(c: char, quotes: bool) -> (r: bool)
    ensures
        r == strippable(c, quotes),
{
    ('\t' <= c && c <= '\r') || c == ' ' || c == '\u{85}' || c == '\u{a0}' || c == '\u{1680}'
        || ('\u{2000}' <= c && c <= '\u{200a}') || c == '\u{2028}' || c == '\u{2029}'
        || c == '\u{202f}' || c == '\u{205f}' || c == '\u{3000}' || (quotes && c == '"')
}

proof fn lemma_trim_end_edges(s: Seq<char>, quotes: bool)
    requires
        s.len() == 0 || !strippable(s[0], quotes),
    ensures
        trim_end(s, quotes).len() == 0 || (!strippable(trim_end(s, quotes)[0], quotes)
            && !strippable(trim_end(s, quotes).last(), quotes)),
    decreases s.len(),
{
    if s.len() > 0 && strippable(s.last(), quotes) {
        lemma_trim_end_edges(s.drop_last(), quotes);
    }
}

proof fn lemma_trim_start_edge(s: Seq<char>, quotes: bool)
    ensures
        trim_start(s, quotes).len() == 0 || !strippable(trim_start(s, quotes)[0], quotes),
    decreases s.len(),
{
    if s.len() > 0 && strippable(s[0], quotes) {
        lemma_trim_start_edge(s.drop_first(), quotes);
    }
}

/// What trimming leaves neither starts nor ends with a strippable character.
pub proof fn lemma_trimmed_edges(s: Seq<char>, quotes: bool)
    ensures
        ({
            let t = trim_end(trim_start(s, quotes), quotes);
            t.len() == 0 || (!strippable(t[0], quotes) && !strippable(t.last(), quotes))
        }),
{
    lemma_trim_start_edge(s, quotes);
    lemma_trim_end_edges(trim_start(s, quotes), quotes);
}

/// Character bounds of `s` without the strippable characters around it.
pub fn trim_bounds(s: &str, quotes: bool) -> (r: (usize, usize))
    ensures
        r.0 <= r.1 <= s@.len(),
        s@.subrange(r.0 as int, r.1 as int) == trim_end(trim_start(s@, quotes), quotes),
{
    let n = s.unicode_len();
    let mut a: usize = 0;
    assert(s@.subrange(0, n as int) =~= s@);
    while a < n && strippable_char(s.get_char(a), quotes)
        invariant
            n == s@.len(),
            a <= n,
            trim_start(s@, quotes) == trim_start(s@.subrange(a as int, n as int), quotes),
        decreases n - a,
    {
        proof {
            lemma_trim_start_step(s@, quotes, a as int);
        }
        a = a + 1;
    }
    let ghost u = s@.subrange(a as int, n as int);
    assert(trim_start(s@, quotes) == u);
    let mut b: usize = n;
    assert(u.subrange(0, (n - a) as int) =~= u);
    while b > a && strippable_char(s.get_char(b - 1), quotes)
        invariant
            n == s@.len(),
            a <= b <= n,
            u == s@.subrange(a as int, n as int),
            trim_end(u, quotes) == trim_end(u.subrange(0, b - a), quotes),
        decreases b - a,
    {
        proof {
            lemma_trim_end_step(u, quotes, b - a);
        }
        b = b - 1;
    }
    assert(u.subrange(0, b - a) =~= s@.subrange(a as int, b as int));
    (a, b)
}

/// The first index at or after `i` where `p` occurs in `s`.
pub open spec fn find_from(s: Seq<char>, p: Seq<char>, i: int) -> Option<int>
    decreases s.len() + 1 - i,
{
    if i < 0 || i > s.len() {
        None
    } else if occurs_at(s, p, i) {
        Some(i)
    } else {
        find_from(s, p, i + 1)
    }
}

/// The first index where `p` occurs in `s`.
pub fn find(s: &str, p: &str) -> (r: Option<usize>)
    ensures
        match r {
            Some(i) => find_from(s@, p@, 0) == Some(i as int) && occurs_at(s@, p@, i as int),
            None => find_from(s@, p@, 0) is None,
        },
{
    let n = s.unicode_len();
    let mut i: usize = 0;
    while i <= n
        invariant
            n == s@.len(),
            i <= n + 1,
            find_from(s@, p@, 0) == find_from(s@, p@, i as int),
        decreases n + 1 - i,
    {
        if matches_at(s, p, i) {
            return Some(i);
        }
        if i == n {
            assert(find_from(s@, p@, n + 1) is None);
            return None;
        }
        i = i + 1;
    }
    None
}

} // verus!
