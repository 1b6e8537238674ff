//! Transfer-rate limits: parsing a limit specification and labelling it.
use vstd::prelude::*;
use crate::text::{range_is, strippable, trim, trim_bounds, trim_end, trim_start};

verus! {

/// A transfer-rate ceiling.
#[derive(Clone, Copy, Debug, PartialEq, Eq, Structural)]
pub enum RateLimit {
    Unlimited,
    BytesPerSecond(u64),
}

/// A character with ASCII lower case letters mapped to upper case.
pub open spec fn fold(c: char) -> int {
    if 'a' <= c <= 'z' {
        c as int - 32
    } else {
        c as int
    }
}

/// `s` and `t` are equal but for the case of ASCII letters.
pub open spec fn eq_ignore_case(s: Seq<char>, t: Seq<char>) -> bool {
    s.len() == t.len() && forall|i: int| 0 <= i < s.len() ==> fold(s[i]) == fold(t[i])
}

pub open spec fn is_digit(c: char) -> bool {
    '0' <= c <= '9'
}

pub open spec fn all_digits(s: Seq<char>) -> bool {
    forall|i: int| 0 <= i < s.len() ==> is_digit(s[i])
}

/// The number that a string of decimal digits denotes.
pub open spec fn digits_value(s: Seq<char>) -> nat
    decreases s.len(),
{
    if s.len() == 0 {
        0
    } else {
        digits_value(s.drop_last()) * 10 + (s.last() as nat - '0' as nat) as nat
    }
}

/// What `u64::from_str` accepts: an optional `+`, then one or more digits,
/// for a value that fits in a `u64`.
pub open spec fn parse_u64(s: Seq<char>) -> Option<u64> {
    let d = if s.len() > 0 && s[0] == '+' {
        s.drop_first()
    } else {
        s
    };
    if d.len() > 0 && all_digits(d) && digits_value(d) <= u64::MAX {
        Some(digits_value(d) as u64)
    } else {
        None
    }
}

/// The multiplier that a unit letter stands for, if it is one.
pub open spec fn unit_factor(c: char) -> Option<u64> {
    if fold(c) == 'K' as int {
        Some(1024)
    } else if fold(c) == 'M' as int {
        Some(1048576)
    } else if fold(c) == 'G' as int {
        Some(1073741824)
    } else {
        None
    }
}

/// A trimmed specification that means "no limit".
pub open spec fn means_unlimited(t: Seq<char>) -> bool {
    t.len() == 0 || eq_ignore_case(t, "infinity"@) || t == "-1"@
}

/// The limit that a specification string denotes: `K`, `M` and `G` scale the
/// number before them (1 where it does not parse; the product saturates),
/// anything else is read whole as bytes per second (0 where it does not parse).
pub open spec fn limit_of(s: Seq<char>) -> RateLimit {
    let t = trim(s);
    if means_unlimited(t) {
        RateLimit::Unlimited
    } else {
        match unit_factor(t.last()) {
            Some(f) => {
                let n = match parse_u64(t.drop_last()) {
                    Some(v) => v as int,
                    None => 1,
                };
                RateLimit::BytesPerSecond(
                    if n * f <= u64::MAX {
                        (n * f) as u64
                    } else {
                        u64::MAX
                    },
                )
            },
            None => RateLimit::BytesPerSecond(
                match parse_u64(t) {
                    Some(v) => v,
                    None => 0,
                },
            ),
        }
    }
}

fn fold_char(c: char) -> (r: u32)
    ensures
        r as int == fold(c),
{
    if 'a' <= c && c <= 'z' {
        (c as u32) - 32
    } else {
        c as u32
    }
}

/// Whether `s` between `a` and `b` equals `lit` but for ASCII case.
fn range_eq_ignore_case(s: &str, a: usize, b: usize, lit: &str) -> (r: bool)
    requires
        a <= b <= s@.len(),
    ensures
        r == eq_ignore_case(s@.subrange(a as int, b as int), lit@),
{
    let m = lit.unicode_len();
    if b - a != m {
        return false;
    }
    let mut j: usize = 0;
    while j < m
        invariant
            m == lit@.len(),
            b - a == m,
            a <= b <= s@.len(),
            j <= m,
            forall|k: int| 0 <= k < j ==> fold(s@[a + k]) == fold(lit@[k]),
        decreases m - j,
    {
        if fold_char(s.get_char(a + j)) != fold_char(lit.get_char(j)) {
            assert(fold(s@.subrange(a as int, b as int)[j as int]) != fold(lit@[j as int]));
            return false;
        }
        j = j + 1;
    }
    true
}

proof fn lemma_digits_grow(s: Seq<char>, i: int)
    requires
        0 <= i <= s.len(),
        all_digits(s),
    ensures
        digits_value(s.subrange(0, i)) <= digits_value(s),
    decreases s.len() - i,
{
    if i < s.len() {
        lemma_digits_grow(s, i + 1);
        assert(s.subrange(0, i + 1).drop_last() =~= s.subrange(0, i));
    } else {
        assert(s.subrange(0, i) =~= s);
    }
}

/// Reads `s` between `a` and `b` as `u64::from_str` does.
pub fn parse_u64_range(s: &str, a: usize, b: usize) -> (r: Option<u64>)
    requires
        a <= b <= s@.len(),
    ensures
        r == parse_u64(s@.subrange(a as int, b as int)),
{
    let ghost t = s@.subrange(a as int, b as int);
    let mut i = a;
    if a < b && s.get_char(a) == '+' {
        i = a + 1;
    }
    let ghost d = s@.subrange(i as int, b as int);
    assert(d =~= (if t.len() > 0 && t[0] == '+' { t.drop_first() } else { t }));
    if i == b {
        return None;
    }
    let mut v: u64 = 0;
    let mut j = i;
    assert(d.subrange(0, 0) =~= Seq::<char>::empty());
    while j < b
        invariant
            i <= j <= b <= s@.len(),
            d == s@.subrange(i as int, b as int),
            t == s@.subrange(a as int, b as int),
            d == (if t.len() > 0 && t[0] == '+' {
                t.drop_first()
            } else {
                t
            }),
            forall|k: int| i <= k < j ==> is_digit(s@[k]),
            v as nat == digits_value(d.subrange(0, j - i)),
        decreases b - j,
    {
        let c = s.get_char(j);
        if !('0' <= c && c <= '9') {
            assert(d[j - i] == c);
            assert(!is_digit(d[j - i]));
            return None;
        }
        let dig = (c as u32 - '0' as u32) as u64;
        assert(d.subrange(0, j + 1 - i).drop_last() =~= d.subrange(0, j - i));
        if v > (u64::MAX - dig) / 10 {
            proof {
                let pre = d.subrange(0, j + 1 - i);
                assert(pre.last() == c);
                assert(digits_value(pre) == v * 10 + dig);
                assert(v * 10 + dig > u64::MAX) by (nonlinear_arith)
                    requires
                        v > (u64::MAX - dig) / 10,
                        dig <= 9,
                ;
                if all_digits(d) {
                    lemma_digits_grow(d, j + 1 - i);
                }
            }
            return None;
        }
        v = v * 10 + dig;
        j = j + 1;
    }
    assert(d.subrange(0, j - i) =~= d);
    Some(v)
}

fn unit_factor_of(c: char) -> (r: Option<u64>)
    ensures
        r == unit_factor(c),
{
    let f = fold_char(c);
    if f == 'K' as u32 {
        Some(1024)
    } else if f == 'M' as u32 {
        Some(1048576)
    } else if f == 'G' as u32 {
        Some(1073741824)
    } else {
        None
    }
}

/// Reads a limit specification such as `500K`, `2m`, `4096` or `infinity`.
pub fn parse_limit(limit: &str) -> (r: RateLimit)
    ensures
        r == limit_of(limit@),
{
    let (a, b) = trim_bounds(limit, false);
    let ghost t = limit@.subrange(a as int, b as int);
    if a == b || range_eq_ignore_case(limit, a, b, "infinity") || range_is(limit, a, b, "-1") {
        return RateLimit::Unlimited;
    }
    assert(t.last() == limit@[b - 1]);
    match unit_factor_of(limit.get_char(b - 1)) {
        Some(f) => {
            assert(t.drop_last() =~= limit@.subrange(a as int, b - 1));
            let n = match parse_u64_range(limit, a, b - 1) {
                Some(v) => v,
                None => 1,
            };
            match n.checked_mul(f) {
                Some(p) => RateLimit::BytesPerSecond(p),
                None => RateLimit::BytesPerSecond(u64::MAX),
            }
        },
        None => RateLimit::BytesPerSecond(
            match parse_u64_range(limit, a, b) {
                Some(v) => v,
                None => 0,
            },
        ),
    }
}

/// The unit label shown for a limit letter.
pub open spec fn unit_label(c: char) -> Option<Seq<char>> {
    if fold(c) == 'K' as int {
        Some(" KB/s"@)
    } else if fold(c) == 'M' as int {
        Some(" MB/s"@)
    } else if fold(c) == 'G' as int {
        Some(" GB/s"@)
    } else if fold(c) == 'B' as int {
        Some(" B/s"@)
    } else {
        None
    }
}

/// A character with ASCII lower case letters mapped to upper case.
pub open spec fn upper_char(c: char) -> char {
    if 'a' <= c <= 'z' {
        ((c as u32) - 32) as char
    } else {
        c
    }
}

/// `s` with ASCII lower case letters mapped to upper case.
pub open spec fn upper(s: Seq<char>) -> Seq<char> {
    s.map_values(|c: char| upper_char(c))
}

/// How a limit specification is shown to the operator: the trimmed text in
/// upper case, its unit letter replaced by the unit's name.
pub open spec fn limit_label(s: Seq<char>) -> Seq<char> {
    let t = upper(trim(s));
    if means_unlimited(trim(s)) {
        "Infinity"@
    } else {
        match unit_label(t.last()) {
            Some(u) => t.drop_last() + u,
            None => t + " B/s"@,
        }
    }
}

/// `s` with its ASCII lower case letters in upper case.
pub fn upper_string(s: &str) -> (r: String)
    ensures
        r@ == upper(s@),
{
    let letters = "ABCDEFGHIJKLMNOPQRSTUVWXYZ";
    proof {
        reveal_strlit("ABCDEFGHIJKLMNOPQRSTUVWXYZ");
    }
    let n = s.unicode_len();
    let mut out = String::new();
    let mut i: usize = 0;
    assert(upper(s@.subrange(0, 0)) =~= Seq::<char>::empty());
    while i < n
        invariant
            n == s@.len(),
            i <= n,
            letters@ == "ABCDEFGHIJKLMNOPQRSTUVWXYZ"@,
            letters@.len() == 26,
            forall|k: int| 0 <= k < 26 ==> #[trigger] letters@[k] as int == 'A' as int + k,
            out@ == upper(s@.subrange(0, i as int)),
        decreases n - i,
    {
        let c = s.get_char(i);
        assert(upper(s@.subrange(0, i + 1)) =~= upper(s@.subrange(0, i as int)).push(
            upper_char(c),
        ));
        if 'a' <= c && c <= 'z' {
            let k = (c as u32 - 'a' as u32) as usize;
            let piece = letters.substring_char(k, k + 1);
            assert(piece@ =~= seq![upper_char(c)]) by {
                assert(letters@[k as int] as int == 'A' as int + k);
            }
            out.append(piece);
        } else {
            let piece = s.substring_char(i, i + 1);
            assert(piece@ =~= seq![upper_char(c)]);
            out.append(piece);
        }
        i = i + 1;
    }
    assert(s@.subrange(0, n as int) =~= s@);
    out
}

/// A readable label for a limit specification: `500k` reads `500 KB/s`.
pub fn lim_str(limit: &str) -> (r: String)
    ensures
        r@ == limit_label(limit@),
{
    let (a, b) = trim_bounds(limit, false);
    if a == b || range_eq_ignore_case(limit, a, b, "infinity") || range_is(limit, a, b, "-1") {
        return String::from_str("Infinity");
    }
    let t = upper_string(limit.substring_char(a, b));
    let ghost ut = upper(limit@.subrange(a as int, b as int));
    let f = fold_char(limit.get_char(b - 1));
    assert(ut.last() == upper_char(limit@[b - 1]));
    assert(fold(ut.last()) == fold(limit@[b - 1]));
    let unit = if f == 'K' as u32 {
        " KB/s"
    } else if f == 'M' as u32 {
        " MB/s"
    } else if f == 'G' as u32 {
        " GB/s"
    } else if f == 'B' as u32 {
        " B/s"
    } else {
        let mut r = t;
        r.append(" B/s");
        return r;
    };
    let m = b - a - 1;
    let mut r = String::from_str(t.as_str().substring_char(0, m));
    assert(t@.subrange(0, m as int) =~= ut.drop_last());
    r.append(unit);
    r
}

proof fn lemma_trim_start_ignores_case(s: Seq<char>, t: Seq<char>)
    requires
        eq_ignore_case(s, t),
    ensures
        eq_ignore_case(trim_start(s, false), trim_start(t, false)),
    decreases s.len(),
{
    if s.len() > 0 {
        assert(fold(s[0]) == fold(t[0]));
        assert(strippable(s[0], false) == strippable(t[0], false));
        if strippable(s[0], false) {
            assert forall|i: int| 0 <= i < s.len() - 1 implies fold(s.drop_first()[i]) == fold(
                t.drop_first()[i],
            ) by {
                assert(fold(s[i + 1]) == fold(t[i + 1]));
            }
            lemma_trim_start_ignores_case(s.drop_first(), t.drop_first());
        }
    }
}

proof fn lemma_trim_end_ignores_case(s: Seq<char>, t: Seq<char>)
    requires
        eq_ignore_case(s, t),
    ensures
        eq_ignore_case(trim_end(s, false), trim_end(t, false)),
    decreases s.len(),
{
    if s.len() > 0 {
        assert(fold(s[s.len() - 1]) == fold(t[t.len() - 1]));
        if strippable(s.last(), false) {
            assert forall|i: int| 0 <= i < s.len() - 1 implies fold(s.drop_last()[i]) == fold(
                t.drop_last()[i],
            ) by {
                assert(fold(s[i]) == fold(t[i]));
            }
            lemma_trim_end_ignores_case(s.drop_last(), t.drop_last());
        }
    }
}

proof fn lemma_parse_ignores_case(s: Seq<char>, t: Seq<char>)
    requires
        eq_ignore_case(s, t),
    ensures
        parse_u64(s) == parse_u64(t),
{
    if s.len() > 0 {
        assert(fold(s[0]) == fold(t[0]));
    }
    let ds = if s.len() > 0 && s[0] == '+' {
        s.drop_first()
    } else {
        s
    };
    let dt = if t.len() > 0 && t[0] == '+' {
        t.drop_first()
    } else {
        t
    };
    assert(ds.len() == dt.len());
    assert forall|i: int| 0 <= i < ds.len() implies fold(ds[i]) == fold(dt[i]) by {
        if s.len() > 0 && s[0] == '+' {
            assert(fold(s[i + 1]) == fold(t[i + 1]));
        } else {
            assert(fold(s[i]) == fold(t[i]));
        }
    }
    if all_digits(ds) {
        assert(ds =~= dt);
    }
    if all_digits(dt) {
        assert forall|i: int| 0 <= i < ds.len() implies is_digit(ds[i]) by {
            assert(fold(ds[i]) == fold(dt[i]));
        }
        assert(ds =~= dt);
    }
}

proof fn lemma_trimmed_ignore_case(s: Seq<char>, t: Seq<char>)
    requires
        eq_ignore_case(s, t),
    ensures
        eq_ignore_case(trim(s), trim(t)),
        means_unlimited(trim(s)) == means_unlimited(trim(t)),
{
    lemma_trim_start_ignores_case(s, t);
    lemma_trim_end_ignores_case(trim_start(s, false), trim_start(t, false));
    let a = trim(s);
    let b = trim(t);
    reveal_strlit("-1");
    reveal_strlit("infinity");
    if a.len() == 2 {
        assert(fold(a[0]) == fold(b[0]));
        assert(fold(a[1]) == fold(b[1]));
        assert(a == "-1"@ <==> b == "-1"@) by {
            if a == "-1"@ {
                assert(b =~= "-1"@);
            }
            if b == "-1"@ {
                assert(a =~= "-1"@);
            }
        }
    }
    if eq_ignore_case(a, "infinity"@) {
        assert forall|i: int| 0 <= i < b.len() implies fold(b[i]) == fold("infinity"@[i]) by {
            assert(fold(a[i]) == fold(b[i]));
        }
    }
    if eq_ignore_case(b, "infinity"@) {
        assert forall|i: int| 0 <= i < a.len() implies fold(a[i]) == fold("infinity"@[i]) by {
            assert(fold(a[i]) == fold(b[i]));
        }
    }
}

/// Limit specifications are read without regard to the case of letters:
/// `2m` means what `2M` means.
pub proof fn lemma_limit_ignores_case(s: Seq<char>, t: Seq<char>)
    requires
        eq_ignore_case(s, t),
    ensures
        limit_of(s) == limit_of(t),
{
    lemma_trimmed_ignore_case(s, t);
    let a = trim(s);
    let b = trim(t);
    if a.len() > 0 {
        assert(fold(a[a.len() - 1]) == fold(b[b.len() - 1]));
        assert forall|i: int| 0 <= i < a.len() - 1 implies fold(a.drop_last()[i]) == fold(
            b.drop_last()[i],
        ) by {
            assert(fold(a[i]) == fold(b[i]));
        }
        lemma_parse_ignores_case(a.drop_last(), b.drop_last());
    }
    lemma_parse_ignores_case(a, b);
}

/// Limit labels do not depend on the case of letters either: `2m` and `2M`
/// both read `2 MB/s`.
pub proof fn lemma_label_ignores_case(s: Seq<char>, t: Seq<char>)
    requires
        eq_ignore_case(s, t),
    ensures
        limit_label(s) == limit_label(t),
{
    lemma_trimmed_ignore_case(s, t);
    let a = trim(s);
    let b = trim(t);
    assert forall|i: int| 0 <= i < a.len() implies upper(a)[i] == upper(b)[i] by {
        assert(fold(a[i]) == fold(b[i]));
    }
    assert(upper(a) =~= upper(b));
}

} // verus!
