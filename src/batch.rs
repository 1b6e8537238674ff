//! The batch: which entries to fetch, the name each is saved under, and the
//! tally of outcomes.
use vstd::prelude::*;
use crate::header::{disposition_name, filename_from_disposition};
use crate::manifest::TransferEntry;
use crate::progress::{decimal, decimal_string};
use crate::url::{cdn_rewrite, file_name_of, fname, github_to_jsdelivr, normalize_url, with_scheme};

verus! {

broadcast use vstd::seq_lib::group_to_multiset_ensures;

/// Why a combination of run options is refused before any transfer.
#[derive(Clone, Copy, Debug, PartialEq, Eq, Structural)]
pub enum ModeError {
    /// A manifest and a single URL were both given.
    ManifestWithUrl,
    /// The global CDN rewrite was asked for in manifest mode.
    ManifestWithRaw,
    /// An output directory was given in manifest mode.
    ManifestWithOutput,
    /// Neither a URL nor a manifest was given.
    NoSource,
}

/// Checks that the run options fit together: manifest mode excludes a single
/// URL, the global rewrite flag and an explicit output directory; one of the
/// two modes is needed.
pub fn check_modes(has_url: bool, has_manifest: bool, raw: bool, has_output: bool) -> (r: Result<(), ModeError>)
    ensures
        r == (if has_manifest && has_url {
            Err(ModeError::ManifestWithUrl)
        } else if has_manifest && raw {
            Err(ModeError::ManifestWithRaw)
        } else if has_manifest && has_output {
            Err(ModeError::ManifestWithOutput)
        } else if !has_url && !has_manifest {
            Err(ModeError::NoSource)
        } else {
            Ok(())
        }),
{
    if has_manifest && has_url {
        Err(ModeError::ManifestWithUrl)
    } else if has_manifest && raw {
        Err(ModeError::ManifestWithRaw)
    } else if has_manifest && has_output {
        Err(ModeError::ManifestWithOutput)
    } else if !has_url && !has_manifest {
        Err(ModeError::NoSource)
    } else {
        Ok(())
    }
}

/// The URL fetched for `url`: the CDN address where `raw` asks for it and the
/// rewrite applies, else the URL with its scheme made explicit.
pub open spec fn source_url(url: Seq<char>, raw: bool) -> Seq<char> {
    if raw && cdn_rewrite(url) is Some {
        cdn_rewrite(url)->0
    } else {
        with_scheme(url)
    }
}

/// The entry of a single-URL run.
pub fn direct_entry(url: &str, out_dir: String, raw: bool) -> (r: TransferEntry)
    ensures
        r@.0 == source_url(url@, raw),
        r@.1 == out_dir@,
        r@.2 == file_name_of(source_url(url@, raw)),
{
    let src = if raw {
        match github_to_jsdelivr(url) {
            Some(c) => c,
            None => normalize_url(url),
        }
    } else {
        normalize_url(url)
    };
    let name = fname(src.as_str());
    TransferEntry::new(src, out_dir, name)
}

/// The name a download is saved under: the one the server declares where it
/// declares one, else the last segment of the URL.
pub open spec fn saved_name(url: Seq<char>, disposition: Option<Seq<char>>) -> Seq<char> {
    match disposition {
        Some(h) => match disposition_name(h) {
            Some(n) => n,
            None => file_name_of(url),
        },
        None => file_name_of(url),
    }
}

/// Picks the saved name from the `Content-Disposition` value the server sent,
/// if any.
pub fn resolve_file_name(url: &str, disposition: Option<&str>) -> (r: String)
    ensures
        r@ == saved_name(url@, match disposition {
            Some(h) => Some(h@),
            None => None,
        }),
{
    match disposition {
        Some(h) => match filename_from_disposition(h) {
            Some(n) => n,
            None => fname(url),
        },
        None => fname(url),
    }
}

/// How many of the outcomes are successes.
pub open spec fn successes(results: Seq<bool>) -> nat {
    results.to_multiset().count(true)
}

/// How many of the outcomes are failures.
pub open spec fn failures(results: Seq<bool>) -> nat {
    results.to_multiset().count(false)
}

/// Running counts of finished entries.
#[derive(Clone, Copy, Debug, PartialEq, Eq, Structural)]
pub struct BatchOutcome {
    pub success_count: u64,
    pub failure_count: u64,
}

impl BatchOutcome {
    pub fn new() -> (r: BatchOutcome)
        ensures
            r.success_count == 0,
            r.failure_count == 0,
    {
        BatchOutcome { success_count: 0, failure_count: 0 }
    }

    /// Counts one more finished entry.
    pub fn record(&mut self, ok: bool)
        requires
            old(self).success_count + old(self).failure_count < u64::MAX,
        ensures
            final(self).success_count == old(self).success_count + (if ok { 1int } else { 0 }),
            final(self).failure_count == old(self).failure_count + (if ok { 0int } else { 1 }),
    {
        if ok {
            self.success_count = self.success_count + 1;
        } else {
            self.failure_count = self.failure_count + 1;
        }
    }

    /// Entries processed so far.
    pub fn total(&self) -> (r: u64)
        requires
            self.success_count + self.failure_count <= u64::MAX,
        ensures
            r == self.success_count + self.failure_count,
    {
        self.success_count + self.failure_count
    }

    /// The closing line of a run.
    pub fn summary(&self) -> (r: String)
        ensures
            r@ == "Download finished! Successful: "@ + decimal(self.success_count as nat)
                + " | Failed: "@ + decimal(self.failure_count as nat),
    {
        let mut r = String::from_str("Download finished! Successful: ");
        r.append(decimal_string(self.success_count).as_str());
        r.append(" | Failed: ");
        r.append(decimal_string(self.failure_count).as_str());
        r
    }
}

/// The counts after recording `results` in order.
pub fn tally(results: &Vec<bool>) -> (r: BatchOutcome)
    ensures
        r.success_count == successes(results@),
        r.failure_count == failures(results@),
{
    let mut out = BatchOutcome::new();
    let mut i: usize = 0;
    assert(results@.subrange(0, 0) =~= Seq::<bool>::empty());
    assert(!Seq::<bool>::empty().contains(true) && !Seq::<bool>::empty().contains(false));
    while i < results.len()
        invariant
            i <= results.len(),
            out.success_count == successes(results@.subrange(0, i as int)),
            out.failure_count == failures(results@.subrange(0, i as int)),
            out.success_count + out.failure_count == i,
        decreases results.len() - i,
    {
        let ghost pre = results@.subrange(0, i as int);
        assert(results@.subrange(0, i + 1) =~= pre.push(results[i as int]));
        out.record(results[i]);
        i = i + 1;
    }
    assert(results@.subrange(0, i as int) =~= results@);
    out
}

/// Every outcome is counted once: successes and failures add up to the
/// number of entries, whatever their order.
pub proof fn lemma_tally_total(results: Seq<bool>)
    ensures
        successes(results) + failures(results) == results.len(),
    decreases results.len(),
{
    if results.len() == 0 {
        assert(!results.contains(true) && !results.contains(false));
    } else {
        let pre = results.drop_last();
        lemma_tally_total(pre);
        assert(results =~= pre.push(results.last()));
    }
}

} // verus!
