//! URL handling: scheme normalisation, path segments, the GitHub blob to
//! jsDelivr rewrite and file-name extraction.
use vstd::prelude::*;
use crate::text::{has_infix, has_prefix, range_is, starts_with, contains};

verus! {

/// `s` cut at every occurrence of `sep`, as `str::split` does; never empty.
pub open spec fn split_on(s: Seq<char>, sep: char) -> Seq<Seq<char>>
    decreases s.len(),
{
    if s.len() == 0 {
        seq![Seq::empty()]
    } else {
        let r = split_on(s.drop_last(), sep);
        if s.last() == sep {
            r.push(Seq::empty())
        } else {
            r.update(r.len() - 1, r.last().push(s.last()))
        }
    }
}

/// The parts glued back together with `sep` between neighbours.
pub open spec fn join_on(parts: Seq<Seq<char>>, sep: char) -> Seq<char>
    decreases parts.len(),
{
    if parts.len() == 0 {
        Seq::empty()
    } else if parts.len() == 1 {
        parts[0]
    } else {
        join_on(parts.drop_last(), sep).push(sep) + parts.last()
    }
}

/// The URL with `https://` put in front unless it already starts with `http`.
pub open spec fn with_scheme(url: Seq<char>) -> Seq<char> {
    if has_prefix(url, "http"@) {
        url
    } else {
        "https://"@ + url
    }
}

/// The jsDelivr address for a GitHub blob URL, or `None` where no rewrite applies.
pub open spec fn cdn_rewrite(url: Seq<char>) -> Option<Seq<char>> {
    let s = with_scheme(url);
    let p = split_on(s, '/');
    if has_infix(s, "cdn.jsdelivr.net/gh/"@) || has_infix(s, "raw.githubusercontent.com/"@) {
        None
    } else if p.len() < 7 || p[2] != "github.com"@ || p[5] != "blob"@ {
        None
    } else {
        Some(
            "https://cdn.jsdelivr.net/gh/"@ + p[3] + "/"@ + p[4] + "@"@ + p[6] + "/"@ + join_on(
                p.subrange(7, p.len() as int),
                '/',
            ),
        )
    }
}

/// The last `/`-delimited segment of a URL, or `file` where that segment is empty.
pub open spec fn file_name_of(url: Seq<char>) -> Seq<char> {
    let last = split_on(url, '/').last();
    if last.len() == 0 {
        "file"@
    } else {
        last
    }
}

proof fn lemma_split_nonempty(s: Seq<char>, sep: char)
    ensures
        split_on(s, sep).len() >= 1,
    decreases s.len(),
{
    if s.len() > 0 {
        lemma_split_nonempty(s.drop_last(), sep);
    }
}

proof fn lemma_split_step(s: Seq<char>, sep: char, i: int)
    requires
        0 <= i < s.len(),
    ensures
        split_on(s.subrange(0, i + 1), sep) == (if s[i] == sep {
            split_on(s.subrange(0, i), sep).push(Seq::empty())
        } else {
            let r = split_on(s.subrange(0, i), sep);
            r.update(r.len() - 1, r.last().push(s[i]))
        }),
{
    assert(s.subrange(0, i + 1).drop_last() =~= s.subrange(0, i));
}

proof fn lemma_join_push_empty(x: Seq<Seq<char>>, sep: char)
    requires
        x.len() >= 1,
    ensures
        join_on(x.push(Seq::empty()), sep) == join_on(x, sep).push(sep),
{
    assert(x.push(Seq::empty()).drop_last() =~= x);
    assert(join_on(x, sep).push(sep) + Seq::<char>::empty() =~= join_on(x, sep).push(sep));
}

proof fn lemma_join_extend_last(x: Seq<Seq<char>>, sep: char, c: char)
    requires
        x.len() >= 1,
    ensures
        join_on(x.update(x.len() - 1, x.last().push(c)), sep) == join_on(x, sep).push(c),
{
    let y = x.update(x.len() - 1, x.last().push(c));
    if x.len() >= 2 {
        assert(y.drop_last() =~= x.drop_last());
        assert(join_on(x.drop_last(), sep).push(sep) + x.last().push(c) =~= (join_on(
            x.drop_last(),
            sep,
        ).push(sep) + x.last()).push(c));
    }
}

/// `starts` and `ends` give the character bounds of every `sep`-delimited
/// segment of `s`: segment `k` runs from `starts[k]` to `ends[k]`, the last
/// one to the end of `s`.
pub open spec fn bounds_of_segments(s: Seq<char>, sep: char, starts: Seq<usize>, ends: Seq<usize>) -> bool {
    &&& starts.len() == split_on(s, sep).len()
    &&& ends.len() + 1 == starts.len()
    &&& forall|k: int|
        0 <= k < ends.len() ==> starts[k] <= #[trigger] ends[k] && ends[k] <= s.len()
            && s.subrange(starts[k] as int, ends[k] as int) == split_on(s, sep)[k]
    &&& forall|k: int|
        0 <= k < starts.len() ==> #[trigger] starts[k] <= s.len() && s.subrange(
            starts[k] as int,
            s.len() as int,
        ) == join_on(split_on(s, sep).subrange(k, starts.len() as int), sep)
}

/// Character bounds of every `sep`-delimited segment of `s`: segment `k` runs
/// from `starts[k]` to `ends[k]` (the last one to the end of `s`).
pub fn segment_bounds(s: &str, sep: char) -> (r: (Vec<usize>, Vec<usize>))
    ensures
        bounds_of_segments(s@, sep, r.0@, r.1@),
{
    let n = s.unicode_len();
    let mut starts: Vec<usize> = Vec::new();
    let mut ends: Vec<usize> = Vec::new();
    starts.push(0);
    let mut i: usize = 0;
    assert(s@.subrange(0, 0) =~= Seq::<char>::empty());
    while i < n
        invariant
            n == s@.len(),
            i <= n,
            starts.len() == split_on(s@.subrange(0, i as int), sep).len(),
            ends.len() + 1 == starts.len(),
            forall|k: int|
                0 <= k < ends.len() ==> starts[k] <= #[trigger] ends[k] && ends[k] <= i && s@.subrange(
                    starts[k] as int,
                    ends[k] as int,
                ) == split_on(s@.subrange(0, i as int), sep)[k],
            forall|k: int|
                0 <= k < starts.len() ==> starts[k] <= i && s@.subrange(starts[k] as int, i as int)
                    == join_on(
                    split_on(s@.subrange(0, i as int), sep).subrange(k, starts.len() as int),
                    sep,
                ),
        decreases n - i,
    {
        let c = s.get_char(i);
        let ghost old_parts = split_on(s@.subrange(0, i as int), sep);
        let ghost old_starts = starts@;
        let ghost old_ends = ends@;
        proof {
            lemma_split_step(s@, sep, i as int);
            lemma_split_nonempty(s@.subrange(0, i as int), sep);
        }
        if c == sep {
            ends.push(i);
            starts.push(i + 1);
            proof {
                let new_parts = split_on(s@.subrange(0, i + 1), sep);
                assert(new_parts == old_parts.push(Seq::empty()));
                assert forall|k: int| 0 <= k < ends.len() implies starts[k] <= ends[k] <= i + 1
                    && s@.subrange(starts[k] as int, ends[k] as int) == new_parts[k] by {
                    if k == ends.len() - 1 {
                        let m = old_parts.len() - 1;
                        assert(starts[k] == old_starts[m]);
                        assert(old_parts.subrange(m, m + 1) =~= seq![old_parts[m]]);
                        assert(s@.subrange(old_starts[m] as int, i as int) == join_on(
                            old_parts.subrange(m, old_starts.len() as int),
                            sep,
                        ));
                    } else {
                        assert(starts[k] == old_starts[k]);
                        assert(ends[k] == old_ends[k]);
                        assert(new_parts[k] == old_parts[k]);
                    }
                }
                assert forall|k: int| 0 <= k < starts.len() implies starts[k] <= i + 1
                    && s@.subrange(starts[k] as int, i + 1) == join_on(
                    new_parts.subrange(k, starts.len() as int),
                    sep,
                ) by {
                    if k < starts.len() - 1 {
                        let tail = old_parts.subrange(k, old_parts.len() as int);
                        assert(new_parts.subrange(k, starts.len() as int) =~= tail.push(
                            Seq::empty(),
                        ));
                        lemma_join_push_empty(tail, sep);
                        assert(s@.subrange(starts[k] as int, i + 1) =~= s@.subrange(
                            starts[k] as int,
                            i as int,
                        ).push(sep));
                    } else {
                        assert(new_parts.subrange(k, starts.len() as int) =~= seq![
                            Seq::<char>::empty(),
                        ]);
                        assert(s@.subrange(i + 1, i + 1) =~= Seq::<char>::empty());
                    }
                }
            }
        } else {
            proof {
                let new_parts = split_on(s@.subrange(0, i + 1), sep);
                assert forall|k: int| 0 <= k < ends.len() implies starts[k] <= ends[k] <= i + 1
                    && s@.subrange(starts[k] as int, ends[k] as int) == new_parts[k] by {
                    assert(new_parts[k] == old_parts[k]);
                }
                assert forall|k: int| 0 <= k < starts.len() implies starts[k] <= i + 1
                    && s@.subrange(starts[k] as int, i + 1) == join_on(
                    new_parts.subrange(k, starts.len() as int),
                    sep,
                ) by {
                    let tail = old_parts.subrange(k, old_parts.len() as int);
                    assert(new_parts.subrange(k, starts.len() as int) =~= tail.update(
                        tail.len() - 1,
                        tail.last().push(c),
                    ));
                    lemma_join_extend_last(tail, sep, c);
                    assert(s@.subrange(starts[k] as int, i + 1) =~= s@.subrange(
                        starts[k] as int,
                        i as int,
                    ).push(c));
                }
            }
        }
        i = i + 1;
    }
    assert(s@.subrange(0, n as int) =~= s@);
    (starts, ends)
}

/// Segment `k` of `s` cut at `sep`, given the bounds of its segments.
pub fn segment_at<'a>(s: &'a str, sep: char, starts: &Vec<usize>, ends: &Vec<usize>, k: usize) -> (r: &'a str)
    requires
        bounds_of_segments(s@, sep, starts@, ends@),
        k < starts.len(),
    ensures
        r@ == split_on(s@, sep)[k as int],
{
    if k < ends.len() {
        s.substring_char(starts[k], ends[k])
    } else {
        let ghost p = split_on(s@, sep);
        assert(p.subrange(k as int, k + 1) =~= seq![p[k as int]]);
        s.substring_char(starts[k], s.unicode_len())
    }
}

/// Puts `https://` in front of a URL that does not start with `http`.
pub fn normalize_url(url: &str) -> (r: String)
    ensures
        r@ == with_scheme(url@),
{
    if starts_with(url, "http") {
        String::from_str(url)
    } else {
        let mut r = String::from_str("https://");
        r.append(url);
        r
    }
}

/// Rewrites `https://github.com/<user>/<repo>/blob/<branch>/<path>` into
/// `https://cdn.jsdelivr.net/gh/<user>/<repo>@<branch>/<path>`; `None` where
/// the URL already points at a CDN or is not such a blob URL.
pub fn github_to_jsdelivr(url: &str) -> (r: Option<String>)
    ensures
        match r {
            Some(x) => cdn_rewrite(url@) == Some(x@),
            None => cdn_rewrite(url@) is None,
        },
{
    let norm = normalize_url(url);
    let s = norm.as_str();
    if contains(s, "cdn.jsdelivr.net/gh/") || contains(s, "raw.githubusercontent.com/") {
        return None;
    }
    let (starts, ends) = segment_bounds(s, '/');
    let ghost p = split_on(s@, '/');
    if starts.len() < 7 {
        return None;
    }
    if !range_is(s, starts[2], ends[2], "github.com") || !range_is(
        s,
        starts[5],
        ends[5],
        "blob",
    ) {
        return None;
    }
    let n = s.unicode_len();
    let mut r = String::from_str("https://cdn.jsdelivr.net/gh/");
    r.append(s.substring_char(starts[3], ends[3]));
    r.append("/");
    r.append(s.substring_char(starts[4], ends[4]));
    r.append("@");
    let end6 = if starts.len() > 7 {
        ends[6]
    } else {
        assert(p.subrange(6, 7) =~= seq![p[6]]);
        n
    };
    r.append(s.substring_char(starts[6], end6));
    r.append("/");
    if starts.len() > 7 {
        r.append(s.substring_char(starts[7], n));
    } else {
        assert(p.subrange(7, p.len() as int) =~= Seq::<Seq<char>>::empty());
        assert(r@ =~= r@ + join_on(p.subrange(7, p.len() as int), '/'));
    }
    Some(r)
}

/// The last `/`-delimited segment of `url`, or `file` where it is empty.
pub fn fname(url: &str) -> (r: String)
    ensures
        r@ == file_name_of(url@),
{
    let (starts, _ends) = segment_bounds(url, '/');
    let ghost p = split_on(url@, '/');
    let m = starts.len() - 1;
    let n = url.unicode_len();
    assert(p.subrange(m as int, m + 1) =~= seq![p[m as int]]);
    if starts[m] == n {
        String::from_str("file")
    } else {
        String::from_str(url.substring_char(starts[m], n))
    }
}

} // verus!
