//! Transfer entries and the batch manifest that lists them.
use vstd::prelude::*;
use crate::text::{has_prefix, range_is, starts_with, trim, trim_bounds};
use crate::url::{
    cdn_rewrite, file_name_of, fname, github_to_jsdelivr, normalize_url, segment_at,
    segment_bounds, split_on, with_scheme,
};

verus! {

/// One download: the source URL, the directory to write into and the file
/// name within it.
#[derive(Debug)]
pub struct TransferEntry {
    pub url: String,
    pub out_dir: String,
    pub file_name: String,
}

impl View for TransferEntry {
    type V = (Seq<char>, Seq<char>, Seq<char>);

    open spec fn view(&self) -> Self::V {
        (self.url@, self.out_dir@, self.file_name@)
    }
}

impl TransferEntry {
    /// The entry for a single URL written into `out_dir`.
    pub fn new(url: String, out_dir: String, file_name: String) -> (r: TransferEntry)
        ensures
            r@ == (url@, out_dir@, file_name@),
    {
        TransferEntry { url, out_dir, file_name }
    }

    /// Replaces the file name, keeping the URL and the directory.
    pub fn set_file_name(&mut self, name: String)
        ensures
            final(self)@ == (old(self)@.0, old(self)@.1, name@),
    {
        self.file_name = name;
    }
}

/// A trimmed manifest line that carries no entry: blank, a `sharp` keyword
/// line, or a brace line.
pub open spec fn is_noise(t: Seq<char>) -> bool {
    t.len() == 0 || has_prefix(t, "sharp"@) || t[0] == '{' || t[0] == '}'
}

/// The trimmed, non-empty pieces among `parts`, in order.
pub open spec fn fields_of(parts: Seq<Seq<char>>) -> Seq<Seq<char>>
    decreases parts.len(),
{
    if parts.len() == 0 {
        Seq::empty()
    } else {
        let t = trim(parts.last());
        fields_of(parts.drop_last()) + (if t.len() > 0 {
            seq![t]
        } else {
            Seq::empty()
        })
    }
}

/// The entry a manifest line describes: `"<url>" "<dir>"`, optionally
/// followed by `-raw` to ask for the CDN rewrite. The file name comes from
/// the URL as written.
pub open spec fn line_entry(line: Seq<char>) -> Option<(Seq<char>, Seq<char>, Seq<char>)> {
    let t = trim(line);
    let f = fields_of(split_on(t, '"'));
    if is_noise(t) || f.len() < 2 {
        None
    } else {
        let url = if f.len() >= 3 && f[2] == "-raw"@ {
            match cdn_rewrite(f[0]) {
                Some(c) => c,
                None => with_scheme(f[0]),
            }
        } else {
            with_scheme(f[0])
        };
        Some((url, f[1], file_name_of(f[0])))
    }
}

/// The entries of the lines, in order, skipping those that carry none.
pub open spec fn entries_of(lines: Seq<Seq<char>>) -> Seq<(Seq<char>, Seq<char>, Seq<char>)>
    decreases lines.len(),
{
    if lines.len() == 0 {
        Seq::empty()
    } else {
        entries_of(lines.drop_last()) + match line_entry(lines.last()) {
            Some(e) => seq![e],
            None => Seq::empty(),
        }
    }
}

/// The entries of a whole manifest text.
pub open spec fn manifest_entries(content: Seq<char>) -> Seq<(Seq<char>, Seq<char>, Seq<char>)> {
    entries_of(split_on(content, '\n'))
}

/// Trimmed, non-empty `"`-separated fields of `t`.
fn quoted_fields(t: &str) -> (r: Vec<String>)
    ensures
        r.len() == fields_of(split_on(t@, '"')).len(),
        forall|i: int| 0 <= i < r.len() ==> r[i]@ == fields_of(split_on(t@, '"'))[i],
{
    let (starts, ends) = segment_bounds(t, '"');
    let ghost parts = split_on(t@, '"');
    let mut fields: Vec<String> = Vec::new();
    let mut k: usize = 0;
    assert(parts.subrange(0, 0) =~= Seq::<Seq<char>>::empty());
    while k < starts.len()
        invariant
            crate::url::bounds_of_segments(t@, '"', starts@, ends@),
            parts == split_on(t@, '"'),
            k <= starts.len(),
            fields.len() == fields_of(parts.subrange(0, k as int)).len(),
            forall|i: int|
                0 <= i < fields.len() ==> fields[i]@ == fields_of(parts.subrange(0, k as int))[i],
        decreases starts.len() - k,
    {
        let piece = segment_at(t, '"', &starts, &ends, k);
        let (a, b) = trim_bounds(piece, false);
        assert(parts.subrange(0, k + 1).drop_last() =~= parts.subrange(0, k as int));
        assert(parts.subrange(0, k + 1).last() == piece@);
        if a < b {
            fields.push(String::from_str(piece.substring_char(a, b)));
        }
        k = k + 1;
    }
    assert(parts.subrange(0, k as int) =~= parts);
    fields
}

/// The entry a manifest line describes, if any.
pub fn parse_line(line: &str) -> (r: Option<TransferEntry>)
    ensures
        match r {
            Some(e) => line_entry(line@) == Some(e@),
            None => line_entry(line@) is None,
        },
{
    let (a, b) = trim_bounds(line, false);
    let t = line.substring_char(a, b);
    if a == b || starts_with(t, "sharp") || t.get_char(0) == '{' || t.get_char(0) == '}' {
        return None;
    }
    let f = quoted_fields(t);
    if f.len() < 2 {
        return None;
    }
    let raw = f.len() >= 3 && range_is(f[2].as_str(), 0, f[2].as_str().unicode_len(), "-raw");
    proof {
        if f.len() >= 3 {
            assert(f[2]@.subrange(0, f[2]@.len() as int) =~= f[2]@);
        }
    }
    let src = f[0].as_str();
    let url = if raw {
        match github_to_jsdelivr(src) {
            Some(c) => c,
            None => normalize_url(src),
        }
    } else {
        normalize_url(src)
    };
    let out_dir = f[1].clone();
    Some(TransferEntry { url, out_dir, file_name: fname(src) })
}

/// All entries of a manifest text, in order. Lines without an entry are skipped.
pub fn parse_manifest(content: &str) -> (r: Vec<TransferEntry>)
    ensures
        r.len() == manifest_entries(content@).len(),
        forall|i: int| 0 <= i < r.len() ==> r[i]@ == manifest_entries(content@)[i],
{
    let (starts, ends) = segment_bounds(content, '\n');
    let ghost lines = split_on(content@, '\n');
    let mut out: Vec<TransferEntry> = Vec::new();
    let mut k: usize = 0;
    assert(lines.subrange(0, 0) =~= Seq::<Seq<char>>::empty());
    while k < starts.len()
        invariant
            crate::url::bounds_of_segments(content@, '\n', starts@, ends@),
            lines == split_on(content@, '\n'),
            k <= starts.len(),
            out.len() == entries_of(lines.subrange(0, k as int)).len(),
            forall|i: int|
                0 <= i < out.len() ==> out[i]@ == entries_of(lines.subrange(0, k as int))[i],
        decreases starts.len() - k,
    {
        let line = segment_at(content, '\n', &starts, &ends, k);
        assert(lines.subrange(0, k + 1).drop_last() =~= lines.subrange(0, k as int));
        assert(lines.subrange(0, k + 1).last() == line@);
        match parse_line(line) {
            Some(e) => out.push(e),
            None => {},
        }
        k = k + 1;
    }
    assert(lines.subrange(0, k as int) =~= lines);
    out
}

/// A manifest made only of blank, brace and keyword lines lists no entry.
pub proof fn lemma_noise_only_manifest(content: Seq<char>)
    requires
        forall|k: int|
            0 <= k < split_on(content, '\n').len() ==> is_noise(
                #[trigger] trim(split_on(content, '\n')[k]),
            ),
    ensures
        manifest_entries(content).len() == 0,
{
    lemma_noise_lines(split_on(content, '\n'));
}

proof fn lemma_noise_lines(lines: Seq<Seq<char>>)
    requires
        forall|k: int| 0 <= k < lines.len() ==> is_noise(#[trigger] trim(lines[k])),
    ensures
        entries_of(lines).len() == 0,
    decreases lines.len(),
{
    if lines.len() > 0 {
        let init = lines.drop_last();
        assert forall|k: int| 0 <= k < init.len() implies is_noise(#[trigger] trim(init[k])) by {
            assert(init[k] == lines[k]);
        }
        lemma_noise_lines(init);
        assert(is_noise(trim(lines[lines.len() - 1])));
    }
}

} // verus!
