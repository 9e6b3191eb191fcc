//! The platform protocol: token generation, payload extraction, pagination,
//! and the two-phase download-link resolution.

pub mod data;
pub mod extract;
pub mod paginate;

use vstd::prelude::*;

verus! {

/// The opaque continuation token seeding a collection scan:
/// `<timestamp>:<item_id>:<item_type>::`.
pub open spec fn spec_token(timestamp: int, item_id: int, item_type: Seq<char>) -> Seq<char> {
    crate::num::dec_int(timestamp) + seq![':'] + crate::num::dec_int(item_id) + seq![':']
        + item_type + seq![':', ':']
}

/// Formats a continuation token from its parts.
pub fn format_token(timestamp: u64, item_id: i64, item_type: &str) -> (r: String)
    ensures
        r@ == spec_token(timestamp as int, item_id as int, item_type@),
{
    let mut out: Vec<char> = Vec::new();
    let ts = crate::num::u64_to_chars(timestamp);
    crate::text::append_chars(&mut out, &ts);
    out.push(':');
    let id = crate::num::i64_to_chars(item_id);
    crate::text::append_chars(&mut out, &id);
    out.push(':');
    crate::text::append_str(&mut out, item_type);
    out.push(':');
    out.push(':');
    proof {
        assert(out@ =~= spec_token(timestamp as int, item_id as int, item_type@));
    }
    crate::text::chars_to_string(&out)
}

/// Seconds since the Unix epoch, or zero should the clock lie before it.
///
/// Relies on `std::time::SystemTime::now`: the wall clock at the moment of
/// the call, about which nothing further can be promised.
#[verifier::external_body]
fn now_unix_seconds() -> u64 {
    std::time::SystemTime::now()
        .duration_since(std::time::UNIX_EPOCH)
        .map(|d| d.as_secs())
        .unwrap_or(0)
}

/// Builds the continuation token seeding a scan: the wall clock joined with
/// the first known purchased item.
pub fn generate_token(item_id: i64, item_type: &str) -> (r: String)
    ensures
        exists|ts: int|
            0 <= ts && r@ == spec_token(ts, item_id as int, item_type@),
{
    let now = now_unix_seconds();
    let r = format_token(now, item_id, item_type);
    proof {
        assert(r@ == spec_token(now as int, item_id as int, item_type@));
    }
    r
}

/// The stat URL obtained from an unqualified download link: the download
/// path segment swapped for the stat segment, the scheme forced to secure,
/// and a freshness query with a protocol-version marker and a random nonce.
pub open spec fn spec_stat_url(link: Seq<char>, nonce: int) -> Seq<char> {
    crate::text::spec_replace(
        crate::text::spec_replace(link, "/download/"@, "/statdownload/"@),
        "http://"@,
        "https://"@,
    ) + "&.vrs=1"@ + "&.rand="@ + crate::num::dec_int(nonce)
}

/// A pseudorandom nonce for the stat URL's freshness parameter.
///
/// Relies on `fastrand::i32` over the full range, which never panics; being
/// random, nothing can be promised of the value.
#[verifier::external_body]
fn random_nonce() -> i32 {
    fastrand::i32(..)
}

/// Builds the stat URL polled for a download link, with the given nonce.
pub fn format_stat_download_url(download_link: &str, nonce: i32) -> (r: String)
    ensures
        r@ == spec_stat_url(download_link@, nonce as int),
{
    proof {
        reveal_strlit("/download/");
        reveal_strlit("http://");
    }
    let v = crate::text::to_chars(download_link);
    let pat1 = crate::text::to_chars("/download/");
    let rep1 = crate::text::to_chars("/statdownload/");
    let step1 = crate::text::replace_chars(&v, &pat1, &rep1);
    let pat2 = crate::text::to_chars("http://");
    let rep2 = crate::text::to_chars("https://");
    let mut out = crate::text::replace_chars(&step1, &pat2, &rep2);
    crate::text::append_str(&mut out, "&.vrs=1");
    crate::text::append_str(&mut out, "&.rand=");
    let nonce_chars = crate::num::i64_to_chars(nonce as i64);
    crate::text::append_chars(&mut out, &nonce_chars);
    proof {
        assert(out@ =~= spec_stat_url(download_link@, nonce as int));
    }
    crate::text::chars_to_string(&out)
}

/// Builds the stat URL for a download link with a fresh random nonce.
pub fn build_stat_download_url(download_link: &str) -> (r: String)
    ensures
        exists|nonce: int| r@ == spec_stat_url(download_link@, nonce),
{
    let nonce = random_nonce();
    let r = format_stat_download_url(download_link, nonce);
    proof {
        assert(r@ == spec_stat_url(download_link@, nonce as int));
    }
    r
}

/// First index at or after `i` whose entry offers the given encoding, or
/// `-1` when none does.
pub open spec fn downloads_find(
    list: Seq<(data::DownloadFormat, data::DownloadData)>,
    f: data::DownloadFormat,
    i: int,
) -> int
    decreases list.len() - i,
{
    if i < 0 || i >= list.len() {
        -1
    } else if list[i].0 == f {
        i
    } else {
        downloads_find(list, f, i + 1)
    }
}

/// Looks up the unqualified download link of the requested encoding.
///
/// Fails with `NoDownloadLinksFound` when the item offers no downloads at
/// all, and with `RequestedFormatLinkNotFound` when the encoding is missing;
/// no network request is involved.
pub fn get_unqualified_digital_download_link(
    digital_item: &data::DigitalItem,
    download_format: data::DownloadFormat,
) -> (r: Result<String, crate::error::DigitalDownloadError>)
    ensures
        (digital_item.downloads is None || (digital_item.downloads is Some
            && digital_item.downloads->Some_0@.len() == 0)) ==> (r matches Err(
            crate::error::DigitalDownloadError::NoDownloadLinksFound,
        )),
        (digital_item.downloads is Some && digital_item.downloads->Some_0@.len() > 0
            && downloads_find(digital_item.downloads->Some_0@, download_format, 0) < 0) ==> (
        r matches Err(crate::error::DigitalDownloadError::RequestedFormatLinkNotFound)),
        (digital_item.downloads is Some && downloads_find(
            digital_item.downloads->Some_0@,
            download_format,
            0,
        ) >= 0) ==> (r matches Ok(u) && u@ == digital_item.downloads->Some_0@[downloads_find(
            digital_item.downloads->Some_0@,
            download_format,
            0,
        )].1.url@),
{
    match &digital_item.downloads {
        None => Err(crate::error::DigitalDownloadError::NoDownloadLinksFound),
        Some(list) => {
            let ghost ls = list@;
            let n = list.len();
            if n == 0 {
                return Err(crate::error::DigitalDownloadError::NoDownloadLinksFound);
            }
            let mut k: usize = 0;
            while k < n
                invariant
                    0 <= k <= n,
                    n == ls.len(),
                    ls == list@,
                    digital_item.downloads is Some,
                    ls == digital_item.downloads->Some_0@,
                    downloads_find(ls, download_format, 0) == downloads_find(
                        ls,
                        download_format,
                        k as int,
                    ),
                decreases n - k,
            {
                let entry = &list[k];
                if entry.0 == download_format {
                    proof {
                        assert(downloads_find(ls, download_format, k as int) == k);
                    }
                    return Ok(entry.1.url.clone());
                }
                proof {
                    assert(downloads_find(ls, download_format, k as int) == downloads_find(
                        ls,
                        download_format,
                        k + 1,
                    ));
                }
                k += 1;
            }
            proof {
                assert(downloads_find(ls, download_format, k as int) == -1);
            }
            Err(crate::error::DigitalDownloadError::RequestedFormatLinkNotFound)
        },
    }
}

/// Whether a stat response signals the transient packaging error.
pub open spec fn stat_is_err(st: data::ParsedStatDownload) -> bool {
    st.result is Some && st.result->Some_0@ == "err"@
}

/// Decides what a stat response means: the transient error yields the retry
/// URL under the secure scheme, otherwise the qualified URL is owed when
/// present.
pub fn evaluate_stat_response(stat: &data::ParsedStatDownload) -> (r: Result<
    String,
    crate::error::DigitalDownloadError,
>)
    ensures
        stat_is_err(*stat) ==> (r matches Err(
            crate::error::DigitalDownloadError::JsonResponseErrorCode(u),
        ) && u@ == "https://"@ + stat.url@),
        (!stat_is_err(*stat) && stat.download_url is Some) ==> (r matches Ok(u) && u@
            == stat.download_url->Some_0@),
        (!stat_is_err(*stat) && stat.download_url is None) ==> (r matches Err(
            crate::error::DigitalDownloadError::NoLinkFound,
        )),
{
    let is_err = match &stat.result {
        Some(code) => crate::text::str_eq(code.as_str(), "err"),
        None => false,
    };
    if is_err {
        let mut out: Vec<char> = Vec::new();
        crate::text::append_str(&mut out, "https://");
        crate::text::append_str(&mut out, stat.url.as_str());
        Err(
            crate::error::DigitalDownloadError::JsonResponseErrorCode(
                crate::text::chars_to_string(&out),
            ),
        )
    } else {
        match &stat.download_url {
            Some(u) => Ok(u.clone()),
            None => Err(crate::error::DigitalDownloadError::NoLinkFound),
        }
    }
}

/// What a run of the polling loop against a given script of stat responses
/// amounts to: the qualified URL, a dead end, or a script that ran out while
/// the platform still signalled the transient error. The count is the number
/// of stat calls issued.
pub enum SpecResolution {
    Resolved(Seq<char>, int),
    FailedNoLink(int),
    Exhausted(Seq<char>, int),
}

/// The polling loop of link resolution, folded over a script of stat
/// responses: the transient error replaces the link with the secure retry
/// URL and polls again; any other response decides the outcome.
pub open spec fn spec_resolve(
    link: Seq<char>,
    stats: Seq<data::ParsedStatDownload>,
) -> SpecResolution
    decreases stats.len(),
{
    if stats.len() == 0 {
        SpecResolution::Exhausted(link, 0)
    } else {
        let st = stats[0];
        if stat_is_err(st) {
            match spec_resolve("https://"@ + st.url@, stats.skip(1)) {
                SpecResolution::Resolved(u, k) => SpecResolution::Resolved(u, k + 1),
                SpecResolution::FailedNoLink(k) => SpecResolution::FailedNoLink(k + 1),
                SpecResolution::Exhausted(l, k) => SpecResolution::Exhausted(l, k + 1),
            }
        } else if st.download_url is Some {
            SpecResolution::Resolved(st.download_url->Some_0@, 1)
        } else {
            SpecResolution::FailedNoLink(1)
        }
    }
}

/// The outcome of driving the polling loop against scripted stat responses.
pub enum ResolutionOutcome {
    /// The qualified URL.
    Resolved(String),
    /// A response carried neither the error signal nor a URL.
    Failed(crate::error::DigitalDownloadError),
    /// Every scripted response signalled the transient error; the payload is
    /// the link that would be polled next.
    Exhausted(String),
}

/// Drives the two-phase resolution loop against a script of stat responses,
/// reporting the outcome and the exact number of stat calls issued.
pub fn resolve_with_stat_responses(
    download_link: &str,
    stats: &Vec<data::ParsedStatDownload>,
) -> (r: (ResolutionOutcome, usize))
    ensures
        (spec_resolve(download_link@, stats@) is Resolved) ==> (
        r.0 matches ResolutionOutcome::Resolved(ru) && ru@ == spec_resolve(
            download_link@,
            stats@,
        )->Resolved_0 && r.1 == spec_resolve(download_link@, stats@)->Resolved_1),
        (spec_resolve(download_link@, stats@) is FailedNoLink) ==> (
        r.0 matches ResolutionOutcome::Failed(crate::error::DigitalDownloadError::NoLinkFound)
            && r.1 == spec_resolve(download_link@, stats@)->FailedNoLink_0),
        (spec_resolve(download_link@, stats@) is Exhausted) ==> (
        r.0 matches ResolutionOutcome::Exhausted(rl) && rl@ == spec_resolve(
            download_link@,
            stats@,
        )->Exhausted_0 && r.1 == spec_resolve(download_link@, stats@)->Exhausted_1),
{
    let ghost l0 = download_link@;
    let n = stats.len();
    let mut link: String = download_link.to_owned();
    let mut k: usize = 0;
    proof {
        assert(stats@.skip(0) =~= stats@);
    }
    while k < n
        invariant
            0 <= k <= n,
            n == stats@.len(),
            (spec_resolve(link@, stats@.skip(k as int)) is Resolved) ==> spec_resolve(
                l0,
                stats@,
            ) == SpecResolution::Resolved(
                spec_resolve(link@, stats@.skip(k as int))->Resolved_0,
                spec_resolve(link@, stats@.skip(k as int))->Resolved_1 + k,
            ),
            (spec_resolve(link@, stats@.skip(k as int)) is FailedNoLink) ==> spec_resolve(
                l0,
                stats@,
            ) == SpecResolution::FailedNoLink(
                spec_resolve(link@, stats@.skip(k as int))->FailedNoLink_0 + k,
            ),
            (spec_resolve(link@, stats@.skip(k as int)) is Exhausted) ==> spec_resolve(
                l0,
                stats@,
            ) == SpecResolution::Exhausted(
                spec_resolve(link@, stats@.skip(k as int))->Exhausted_0,
                spec_resolve(link@, stats@.skip(k as int))->Exhausted_1 + k,
            ),
        decreases n - k,
    {
        let ghost tail = stats@.skip(k as int);
        let st = &stats[k];
        proof {
            assert(tail[0] == stats@[k as int]);
            assert(tail.skip(1) =~= stats@.skip(k + 1));
        }
        match evaluate_stat_response(st) {
            Ok(u) => {
                proof {
                    assert(spec_resolve(link@, tail) == SpecResolution::Resolved(u@, 1));
                }
                return (ResolutionOutcome::Resolved(u), k + 1);
            },
            Err(crate::error::DigitalDownloadError::JsonResponseErrorCode(next_link)) => {
                proof {
                    assert(stat_is_err(stats@[k as int]));
                    assert(next_link@ == "https://"@ + stats@[k as int].url@);
                }
                link = next_link;
                k += 1;
            },
            Err(e) => {
                proof {
                    assert(!stat_is_err(stats@[k as int]));
                    assert(stats@[k as int].download_url is None);
                    assert(spec_resolve(link@, tail) == SpecResolution::FailedNoLink(1));
                    assert(e is NoLinkFound);
                }
                return (ResolutionOutcome::Failed(e), k + 1);
            },
        }
    }
    proof {
        assert(stats@.skip(n as int).len() == 0);
        assert(spec_resolve(link@, stats@.skip(n as int)) == SpecResolution::Exhausted(
            link@,
            0,
        ));
    }
    (ResolutionOutcome::Exhausted(link), n)
}

/// Resolution retry: when the stat endpoint signals the transient error once
/// and then answers with a qualified URL, resolution returns that URL and
/// issues exactly two stat calls.
pub proof fn lemma_resolution_retry(link: Seq<char>, stats: Seq<data::ParsedStatDownload>)
    requires
        stats.len() == 2,
        stat_is_err(stats[0]),
        !stat_is_err(stats[1]),
        stats[1].download_url is Some,
    ensures
        spec_resolve(link, stats) == SpecResolution::Resolved(
            stats[1].download_url->Some_0@,
            2,
        ),
{
    assert(stats.skip(1)[0] == stats[1]);
    assert(spec_resolve("https://"@ + stats[0].url@, stats.skip(1))
        == SpecResolution::Resolved(stats[1].download_url->Some_0@, 1));
}

} // verus!
