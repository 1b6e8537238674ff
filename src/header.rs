//! Reading the response headers that name and size a download.
use vstd::prelude::*;
use crate::limit::{parse_u64, parse_u64_range};
use crate::text::{find, find_from, lemma_trimmed_edges, strip_quotes, strippable, trim, trim_bounds};

verus! {

/// The value of a parameter, given the text after its `=` with surrounding
/// whitespace removed: up to the closing quote where it is quoted, else up to
/// the first `;`.
pub open spec fn parameter_value(r: Seq<char>) -> Seq<char> {
    if r.len() > 0 && r[0] == '"' {
        let body = r.drop_first();
        match find_from(body, "\""@, 0) {
            Some(j) => body.subrange(0, j),
            None => body,
        }
    } else {
        match find_from(r, ";"@, 0) {
            Some(j) => r.subrange(0, j),
            None => r,
        }
    }
}

/// The file name that a `Content-Disposition` value declares: the value of
/// its first `filename=` parameter, without surrounding quotes and
/// whitespace; `None` where there is no such parameter or it is empty.
pub open spec fn disposition_name(h: Seq<char>) -> Option<Seq<char>> {
    match find_from(h, "filename="@, 0) {
        None => None,
        Some(i) => {
            let v = strip_quotes(
                parameter_value(trim(h.subrange(i + "filename="@.len(), h.len() as int))),
            );
            if v.len() == 0 {
                None
            } else {
                Some(v)
            }
        },
    }
}

/// The text of `r` up to the first occurrence of `stop`, or all of it.
fn up_to<'a>(r: &'a str, stop: &str) -> (v: &'a str)
    ensures
        v@ == match find_from(r@, stop@, 0) {
            Some(j) => r@.subrange(0, j),
            None => r@,
        },
{
    match find(r, stop) {
        Some(j) => r.substring_char(0, j),
        None => r,
    }
}

/// The file name declared by a `Content-Disposition` header value.
pub fn filename_from_disposition(h: &str) -> (r: Option<String>)
    ensures
        match r {
            Some(x) => disposition_name(h@) == Some(x@) && !strippable(x@[0], true)
                && !strippable(x@.last(), true),
            None => disposition_name(h@) is None,
        },
{
    match find(h, "filename=") {
        None => None,
        Some(pos) => {
            let key_len = "filename=".unicode_len();
            let n = h.unicode_len();
            let rest = h.substring_char(pos + key_len, n);
            let (a, b) = trim_bounds(rest, false);
            let r = rest.substring_char(a, b);
            let rn = r.unicode_len();
            let v = if rn > 0 && r.get_char(0) == '"' {
                let body = r.substring_char(1, rn);
                assert(body@ =~= r@.drop_first());
                up_to(body, "\"")
            } else {
                up_to(r, ";")
            };
            let (c, d) = trim_bounds(v, true);
            proof {
                lemma_trimmed_edges(v@, true);
            }
            if c == d {
                None
            } else {
                Some(String::from_str(v.substring_char(c, d)))
            }
        },
    }
}

/// The size that a `Content-Length` header value declares, in bytes.
pub fn parse_content_length(h: &str) -> (r: Option<u64>)
    ensures
        r == parse_u64(trim(h@)),
{
    let (a, b) = trim_bounds(h, false);
    parse_u64_range(h, a, b)
}

} // verus!
