//! The orchestrator's decisions: which collection items still need work,
//! and how per-item outcomes are folded into the cache and the run report.
//! The surrounding program fans the per-item work out concurrently; the
//! functions here are the single writer of the cache.

use crate::cache::{
    cache_has_id, spec_cache_insert, DownloadCache, DownloadCacheRelease, ReleaseData,
};
use vstd::prelude::*;

verus! {

/// The run's invocation: the account, the credential file, what to fetch
/// and where to put it.
#[derive(Debug)]
pub struct Cli {
    pub user: String,
    pub cookie_file: String,
    pub skip_hidden: bool,
    pub audio_format: crate::api::data::DownloadFormat,
    pub download_folder: Option<String>,
    pub cache_file: Option<String>,
    pub dry_run: bool,
}

/// The collection items whose identifier is not yet cached, in collection
/// order.
pub open spec fn spec_unseen(
    releases: Seq<(String, String)>,
    cache: Seq<ReleaseData>,
) -> Seq<(String, String)>
    decreases releases.len(),
{
    if releases.len() == 0 {
        Seq::empty()
    } else {
        let rest = spec_unseen(releases.skip(1), cache);
        if cache_has_id(cache, releases[0].0@) {
            rest
        } else {
            seq![releases[0]] + rest
        }
    }
}

/// Partitions the scanned collection against the cache: the pairs whose
/// item identifier is not cached yet, in order; the rest are already
/// synchronized and skipped.
pub fn find_new_releases(
    releases: &Vec<(String, String)>,
    download_cache: &DownloadCache,
) -> (r: Vec<(String, String)>)
    ensures
        r@ == spec_unseen(releases@, download_cache@),
{
    let ghost rs = releases@;
    let ghost c = download_cache@;
    let n = releases.len();
    let mut out: Vec<(String, String)> = Vec::new();
    let mut i: usize = 0;
    proof {
        assert(rs.skip(0) =~= rs);
        assert(out@ + spec_unseen(rs, c) =~= spec_unseen(rs, c));
    }
    while i < n
        invariant
            0 <= i <= n,
            n == rs.len(),
            rs == releases@,
            c == download_cache@,
            spec_unseen(rs, c) == out@ + spec_unseen(rs.skip(i as int), c),
        decreases n - i,
    {
        let ghost out0 = out@;
        let ghost tail = rs.skip(i as int);
        proof {
            assert(tail[0] == rs[i as int]);
            assert(tail.skip(1) =~= rs.skip(i + 1));
        }
        let entry = &releases[i];
        if !download_cache.contains_key(entry.0.as_str()) {
            let key = entry.0.clone();
            let url = entry.1.clone();
            proof {
                assert((key, url) == rs[i as int]);
            }
            out.push((key, url));
            proof {
                assert(out@ =~= out0 + seq![rs[i as int]]);
                assert(out0 + (seq![rs[i as int]] + spec_unseen(rs.skip(i + 1), c)) =~= out@
                    + spec_unseen(rs.skip(i + 1), c));
            }
        }
        i += 1;
    }
    proof {
        assert(rs.skip(n as int).len() == 0);
        assert(out@ + spec_unseen(rs.skip(n as int), c) =~= out@);
    }
    out
}

/// What became of one collection item that was dispatched for resolution.
#[derive(Debug)]
pub enum ItemOutcome {
    /// The cache record to persist and the qualified URL to download.
    Resolved(DownloadCacheRelease, String),
    /// Why this item failed; the batch goes on without it.
    Failed(String),
}

/// The report of one synchronization run.
#[derive(Debug)]
pub struct SyncReport {
    pub newly_cached: Vec<DownloadCacheRelease>,
    pub failures: Vec<(String, String)>,
    pub download_urls: Vec<String>,
}

/// The cache after every resolved outcome is inserted, in order.
pub open spec fn spec_apply_outcomes(
    c: Seq<ReleaseData>,
    os: Seq<(String, ItemOutcome)>,
) -> Seq<ReleaseData>
    decreases os.len(),
{
    if os.len() == 0 {
        c
    } else {
        let c2 = if os[0].1 is Resolved {
            spec_cache_insert(c, os[0].1->Resolved_0@)
        } else {
            c
        };
        spec_apply_outcomes(c2, os.skip(1))
    }
}

/// The records of the resolved outcomes, in order.
pub open spec fn spec_resolved_entries(os: Seq<(String, ItemOutcome)>) -> Seq<ReleaseData>
    decreases os.len(),
{
    if os.len() == 0 {
        Seq::empty()
    } else {
        let rest = spec_resolved_entries(os.skip(1));
        if os[0].1 is Resolved {
            seq![os[0].1->Resolved_0@] + rest
        } else {
            rest
        }
    }
}

/// The qualified URLs of the resolved outcomes, in order.
pub open spec fn spec_resolved_urls(os: Seq<(String, ItemOutcome)>) -> Seq<Seq<char>>
    decreases os.len(),
{
    if os.len() == 0 {
        Seq::empty()
    } else {
        let rest = spec_resolved_urls(os.skip(1));
        if os[0].1 is Resolved {
            seq![os[0].1->Resolved_1@] + rest
        } else {
            rest
        }
    }
}

/// The failed outcomes as item and reason, in order.
pub open spec fn spec_failures(os: Seq<(String, ItemOutcome)>) -> Seq<(Seq<char>, Seq<char>)>
    decreases os.len(),
{
    if os.len() == 0 {
        Seq::empty()
    } else {
        let rest = spec_failures(os.skip(1));
        if os[0].1 is Failed {
            seq![(os[0].0@, os[0].1->Failed_0@)] + rest
        } else {
            rest
        }
    }
}

impl DownloadCacheRelease {
    /// A copy of this record.
    pub fn duplicate(&self) -> (r: Self)
        ensures
            r@ == self@,
    {
        DownloadCacheRelease {
            release_id: self.release_id.clone(),
            title: self.title.clone(),
            year: self.year,
            artist: self.artist.clone(),
        }
    }
}

/// Folds the per-item outcomes into the cache and the run report: every
/// resolved item is inserted into the cache and listed with its download
/// URL, every failure is collected; nothing is dropped and the batch never
/// aborts.
pub fn collect_sync_outcomes(
    download_cache: &mut DownloadCache,
    outcomes: &Vec<(String, ItemOutcome)>,
) -> (report: SyncReport)
    ensures
        final(download_cache)@ == spec_apply_outcomes(old(download_cache)@, outcomes@),
        report.newly_cached@.map_values(|e: DownloadCacheRelease| e@) == spec_resolved_entries(
            outcomes@,
        ),
        report.download_urls@.map_values(|u: String| u@) == spec_resolved_urls(outcomes@),
        report.failures@.map_values(|f: (String, String)| (f.0@, f.1@)) == spec_failures(
            outcomes@,
        ),
{
    let ghost os = outcomes@;
    let ghost c0 = old(download_cache)@;
    let n = outcomes.len();
    let mut newly_cached: Vec<DownloadCacheRelease> = Vec::new();
    let mut failures: Vec<(String, String)> = Vec::new();
    let mut download_urls: Vec<String> = Vec::new();
    let mut i: usize = 0;
    proof {
        assert(os.skip(0) =~= os);
        assert(newly_cached@.map_values(|e: DownloadCacheRelease| e@) =~= Seq::<
            ReleaseData,
        >::empty());
        assert(download_urls@.map_values(|u: String| u@) =~= Seq::<Seq<char>>::empty());
        assert(failures@.map_values(|f: (String, String)| (f.0@, f.1@)) =~= Seq::<
            (Seq<char>, Seq<char>),
        >::empty());
        assert(Seq::<ReleaseData>::empty() + spec_resolved_entries(os) =~= spec_resolved_entries(
            os,
        ));
        assert(Seq::<Seq<char>>::empty() + spec_resolved_urls(os) =~= spec_resolved_urls(os));
        assert(Seq::<(Seq<char>, Seq<char>)>::empty() + spec_failures(os) =~= spec_failures(
            os,
        ));
    }
    while i < n
        invariant
            0 <= i <= n,
            n == os.len(),
            os == outcomes@,
            c0 == old(download_cache)@,
            spec_apply_outcomes(c0, os) == spec_apply_outcomes(
                download_cache@,
                os.skip(i as int),
            ),
            spec_resolved_entries(os) == newly_cached@.map_values(
                |e: DownloadCacheRelease| e@,
            ) + spec_resolved_entries(os.skip(i as int)),
            spec_resolved_urls(os) == download_urls@.map_values(|u: String| u@)
                + spec_resolved_urls(os.skip(i as int)),
            spec_failures(os) == failures@.map_values(|f: (String, String)| (f.0@, f.1@))
                + spec_failures(os.skip(i as int)),
        decreases n - i,
    {
        let ghost tail = os.skip(i as int);
        proof {
            assert(tail[0] == os[i as int]);
            assert(tail.skip(1) =~= os.skip(i + 1));
        }
        let ghost entries0 = newly_cached@.map_values(|e: DownloadCacheRelease| e@);
        let ghost urls0 = download_urls@.map_values(|u: String| u@);
        let ghost fails0 = failures@.map_values(|f: (String, String)| (f.0@, f.1@));
        let item = &outcomes[i];
        match &item.1 {
            ItemOutcome::Resolved(release, url) => {
                let copy = release.duplicate();
                proof {
                    assert(copy@ == os[i as int].1->Resolved_0@);
                }
                download_cache.insert(copy);
                newly_cached.push(release.duplicate());
                download_urls.push(url.clone());
                proof {
                    assert(newly_cached@.map_values(|e: DownloadCacheRelease| e@) =~= entries0
                        + seq![os[i as int].1->Resolved_0@]);
                    assert(download_urls@.map_values(|u: String| u@) =~= urls0
                        + seq![os[i as int].1->Resolved_1@]);
                    assert(entries0 + (seq![os[i as int].1->Resolved_0@]
                        + spec_resolved_entries(os.skip(i + 1))) =~= (entries0
                        + seq![os[i as int].1->Resolved_0@]) + spec_resolved_entries(
                        os.skip(i + 1),
                    ));
                    assert(urls0 + (seq![os[i as int].1->Resolved_1@] + spec_resolved_urls(
                        os.skip(i + 1),
                    )) =~= (urls0 + seq![os[i as int].1->Resolved_1@]) + spec_resolved_urls(
                        os.skip(i + 1),
                    ));
                }
            },
            ItemOutcome::Failed(reason) => {
                failures.push((item.0.clone(), reason.clone()));
                proof {
                    assert(failures@.map_values(|f: (String, String)| (f.0@, f.1@)) =~= fails0
                        + seq![(os[i as int].0@, os[i as int].1->Failed_0@)]);
                    assert(fails0 + (seq![(os[i as int].0@, os[i as int].1->Failed_0@)]
                        + spec_failures(os.skip(i + 1))) =~= (fails0 + seq![
                        (os[i as int].0@, os[i as int].1->Failed_0@),
                    ]) + spec_failures(os.skip(i + 1)));
                }
            },
        }
        i += 1;
    }
    proof {
        assert(os.skip(n as int).len() == 0);
        assert(newly_cached@.map_values(|e: DownloadCacheRelease| e@) + Seq::<
            ReleaseData,
        >::empty() =~= newly_cached@.map_values(|e: DownloadCacheRelease| e@));
        assert(download_urls@.map_values(|u: String| u@) + Seq::<Seq<char>>::empty()
            =~= download_urls@.map_values(|u: String| u@));
        assert(failures@.map_values(|f: (String, String)| (f.0@, f.1@)) + Seq::<
            (Seq<char>, Seq<char>),
        >::empty() =~= failures@.map_values(|f: (String, String)| (f.0@, f.1@)));
    }
    SyncReport { newly_cached, failures, download_urls }
}

} // verus!
