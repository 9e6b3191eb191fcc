//! Paginated collection scanning: the request body, the accumulation of
//! redownload URLs page by page, and the continuation-token protocol.

use crate::api::data::ParsedCollectionItems;
use crate::error::ReleaseRetrievalError;
use vstd::prelude::*;

verus! {

/// The request body of the paginated collection endpoint.
pub open spec fn spec_collection_body(fan_id: int, token: Seq<char>) -> Seq<char> {
    "{\"fan_id\": "@ + crate::num::dec_int(fan_id) + ", \"older_than_token\": \""@ + token
        + "\", \"count\":100000}"@
}

/// Formats the request body asking for the page after `token`.
pub fn build_collection_request_body(fan_id: i64, token: &str) -> (r: String)
    ensures
        r@ == spec_collection_body(fan_id as int, token@),
{
    let mut out: Vec<char> = Vec::new();
    crate::text::append_str(&mut out, "{\"fan_id\": ");
    let id = crate::num::i64_to_chars(fan_id);
    crate::text::append_chars(&mut out, &id);
    crate::text::append_str(&mut out, ", \"older_than_token\": \"");
    crate::text::append_str(&mut out, token);
    crate::text::append_str(&mut out, "\", \"count\":100000}");
    proof {
        assert(out@ =~= spec_collection_body(fan_id as int, token@));
    }
    crate::text::chars_to_string(&out)
}

/// First index at or after `i` whose pair carries the given key, or `-1`.
pub open spec fn find_pair(m: Seq<(String, String)>, key: Seq<char>, i: int) -> int
    decreases m.len() - i,
{
    if i < 0 || i >= m.len() {
        -1
    } else if m[i].0@ == key {
        i
    } else {
        find_pair(m, key, i + 1)
    }
}

/// Insertion into an association list: the pair replaces the one already
/// carrying its key, or goes to the end.
pub open spec fn spec_insert_pair(m: Seq<(String, String)>, p: (String, String)) -> Seq<
    (String, String),
> {
    let k = find_pair(m, p.0@, 0);
    if k < 0 {
        m.push(p)
    } else {
        m.update(k, p)
    }
}

/// Iterated insertion of all pairs, left to right: later pages override
/// earlier ones key by key.
pub open spec fn spec_extend_pairs(m: Seq<(String, String)>, ps: Seq<(String, String)>) -> Seq<
    (String, String),
>
    decreases ps.len(),
{
    if ps.len() == 0 {
        m
    } else {
        spec_extend_pairs(spec_insert_pair(m, ps[0]), ps.skip(1))
    }
}

/// Executable insertion matching `spec_insert_pair`.
fn url_map_insert(m: &mut Vec<(String, String)>, key: String, value: String)
    ensures
        final(m)@ == spec_insert_pair(old(m)@, (key, value)),
{
    let ghost m0 = m@;
    let ghost kv = key@;
    let n = m.len();
    let mut k: usize = 0;
    while k < n
        invariant
            0 <= k <= n,
            n == m0.len(),
            m@ == m0,
            m0 == old(m)@,
            kv == key@,
            find_pair(m0, kv, 0) == find_pair(m0, kv, k as int),
        decreases n - k,
    {
        if crate::text::str_eq(m[k].0.as_str(), key.as_str()) {
            proof {
                assert(find_pair(m0, kv, k as int) == k);
            }
            m.set(k, (key, value));
            return ;
        }
        proof {
            assert(find_pair(m0, kv, k as int) == find_pair(m0, kv, k + 1));
        }
        k += 1;
    }
    proof {
        assert(find_pair(m0, kv, k as int) == -1);
    }
    m.push((key, value));
}

/// Executable iterated insertion matching `spec_extend_pairs`: unions a
/// second URL map into the first, the second overriding key by key. Scans
/// use it page by page, and the hidden-items scan is folded into the
/// visible one with it.
pub fn url_map_extend(m: &mut Vec<(String, String)>, ps: &Vec<(String, String)>)
    ensures
        final(m)@ == spec_extend_pairs(old(m)@, ps@),
{
    let ghost m0 = old(m)@;
    let ghost pv = ps@;
    let n = ps.len();
    let mut j: usize = 0;
    proof {
        assert(pv.skip(0) =~= pv);
    }
    while j < n
        invariant
            0 <= j <= n,
            n == pv.len(),
            pv == ps@,
            spec_extend_pairs(m0, pv) == spec_extend_pairs(m@, pv.skip(j as int)),
        decreases n - j,
    {
        let ghost tail = pv.skip(j as int);
        let entry = &ps[j];
        let key = entry.0.clone();
        let value = entry.1.clone();
        proof {
            assert(tail[0] == pv[j as int]);
            assert((key, value) == pv[j as int]);
            assert(tail.skip(1) =~= pv.skip(j + 1));
        }
        url_map_insert(m, key, value);
        j += 1;
    }
    proof {
        assert(pv.skip(n as int).len() == 0);
    }
}

/// The state of one collection scan: the URLs gathered so far, the token to
/// request the next page with, and whether the scan has finished.
pub struct PageScan {
    pub urls: Vec<(String, String)>,
    pub token: String,
    pub done: bool,
}

impl PageScan {
    /// A scan about to request its first page with the seed token.
    pub fn new(seed_token: &str) -> (s: Self)
        ensures
            s.urls@ == Seq::<(String, String)>::empty(),
            s.token@ == seed_token@,
            !s.done,
    {
        let s = PageScan { urls: Vec::new(), token: seed_token.to_owned(), done: false };
        proof {
            assert(s.urls@ =~= Seq::<(String, String)>::empty());
        }
        s
    }

    /// The token the next page request must carry.
    pub fn current_token(&self) -> (r: String)
        ensures
            r@ == self.token@,
    {
        self.token.clone()
    }

    /// Feeds one page into the scan. Returns whether another page must be
    /// requested.
    ///
    /// A page claiming more items without a continuation token leaves no way
    /// to request the next page: the scan ends with
    /// `MissingContinuationToken`, a typed error in place of a crash, and
    /// the URLs gathered so far stay available in the state.
    pub fn feed(&mut self, page: &ParsedCollectionItems) -> (r: Result<
        bool,
        ReleaseRetrievalError,
    >)
        requires
            !old(self).done,
        ensures
            page.redownload_urls is None ==> (r is Ok && r->Ok_0 == false && final(self).urls@
                == old(self).urls@ && final(self).done && final(self).token@ == old(
                self,
            ).token@),
            page.redownload_urls is Some ==> final(self).urls@ == spec_extend_pairs(
                old(self).urls@,
                page.redownload_urls->Some_0@,
            ),
            (page.redownload_urls is Some && !page.more_available) ==> (r is Ok && r->Ok_0
                == false && final(self).done && final(self).token@ == old(self).token@),
            (page.redownload_urls is Some && page.more_available && page.last_token is Some)
                ==> (r is Ok && r->Ok_0 == true && !final(self).done && final(self).token@
                == page.last_token->Some_0@),
            (page.redownload_urls is Some && page.more_available && page.last_token is None)
                ==> (r matches Err(ReleaseRetrievalError::MissingContinuationToken)
                && final(self).done),
    {
        match &page.redownload_urls {
            None => {
                self.done = true;
                Ok(false)
            },
            Some(pairs) => {
                url_map_extend(&mut self.urls, pairs);
                if !page.more_available {
                    self.done = true;
                    Ok(false)
                } else {
                    match &page.last_token {
                        Some(t) => {
                            self.token = t.clone();
                            Ok(true)
                        },
                        None => {
                            self.done = true;
                            Err(ReleaseRetrievalError::MissingContinuationToken)
                        },
                    }
                }
            },
        }
    }
}

/// What a scan against a script of pages amounts to: the accumulated URL map
/// with the token of each request made, a script that ran out while more
/// pages were available, or a page that claimed more without a token.
pub enum SpecScan {
    Finished(Seq<(String, String)>, Seq<Seq<char>>),
    Starved(Seq<(String, String)>, Seq<Seq<char>>),
    MissingToken(Seq<Seq<char>>),
}

/// The pagination loop folded over a script of pages: each page is requested
/// with the current token, its URLs are unioned in, and its token carries
/// the scan forward while more items are available.
pub open spec fn spec_scan(
    m: Seq<(String, String)>,
    token: Seq<char>,
    pages: Seq<ParsedCollectionItems>,
) -> SpecScan
    decreases pages.len(),
{
    if pages.len() == 0 {
        SpecScan::Starved(m, seq![])
    } else {
        let pg = pages[0];
        if pg.redownload_urls is None {
            SpecScan::Finished(m, seq![token])
        } else {
            let m2 = spec_extend_pairs(m, pg.redownload_urls->Some_0@);
            if !pg.more_available {
                SpecScan::Finished(m2, seq![token])
            } else if pg.last_token is None {
                SpecScan::MissingToken(seq![token])
            } else {
                match spec_scan(m2, pg.last_token->Some_0@, pages.skip(1)) {
                    SpecScan::Finished(mf, ts) => SpecScan::Finished(mf, seq![token] + ts),
                    SpecScan::Starved(mf, ts) => SpecScan::Starved(mf, seq![token] + ts),
                    SpecScan::MissingToken(ts) => SpecScan::MissingToken(seq![token] + ts),
                }
            }
        }
    }
}

/// The outcome of driving a scan against scripted pages.
pub enum ScanOutcome {
    /// The scan finished: the URL map, and the token of each request made.
    Complete(Vec<(String, String)>, Vec<String>),
    /// The script ran out while more pages were available.
    MorePagesNeeded(Vec<(String, String)>, Vec<String>),
    /// A page claimed more items without a continuation token.
    MissingToken(Vec<String>),
}

/// Drives a collection scan against a script of pages, recording the token
/// of every request issued.
pub fn scan_pages(seed_token: &str, pages: &Vec<ParsedCollectionItems>) -> (r: ScanOutcome)
    ensures
        (spec_scan(Seq::empty(), seed_token@, pages@) is Finished) ==> (r matches
            ScanOutcome::Complete(u, t) && u@ == spec_scan(
            Seq::empty(),
            seed_token@,
            pages@,
        )->Finished_0 && t@.map_values(|x: String| x@) == spec_scan(
            Seq::empty(),
            seed_token@,
            pages@,
        )->Finished_1),
        (spec_scan(Seq::empty(), seed_token@, pages@) is Starved) ==> (r matches
            ScanOutcome::MorePagesNeeded(u, t) && u@ == spec_scan(
            Seq::empty(),
            seed_token@,
            pages@,
        )->Starved_0 && t@.map_values(|x: String| x@) == spec_scan(
            Seq::empty(),
            seed_token@,
            pages@,
        )->Starved_1),
        (spec_scan(Seq::empty(), seed_token@, pages@) is MissingToken) ==> (r matches
            ScanOutcome::MissingToken(t) && t@.map_values(|x: String| x@) == spec_scan(
            Seq::empty(),
            seed_token@,
            pages@,
        )->MissingToken_0),
{
    let ghost whole = spec_scan(Seq::empty(), seed_token@, pages@);
    let n = pages.len();
    let mut scan = PageScan::new(seed_token);
    let mut tokens: Vec<String> = Vec::new();
    let mut k: usize = 0;
    proof {
        assert(pages@.skip(0) =~= pages@);
        assert(tokens@.map_values(|x: String| x@) =~= Seq::<Seq<char>>::empty());
    }
    while k < n
        invariant
            0 <= k <= n,
            n == pages@.len(),
            !scan.done,
            whole == spec_scan(Seq::empty(), seed_token@, pages@),
            (spec_scan(scan.urls@, scan.token@, pages@.skip(k as int)) is Finished) ==> (
            whole is Finished && whole->Finished_0 == spec_scan(
                scan.urls@,
                scan.token@,
                pages@.skip(k as int),
            )->Finished_0 && whole->Finished_1 == tokens@.map_values(|x: String| x@)
                + spec_scan(scan.urls@, scan.token@, pages@.skip(k as int))->Finished_1),
            (spec_scan(scan.urls@, scan.token@, pages@.skip(k as int)) is Starved) ==> (
            whole is Starved && whole->Starved_0 == spec_scan(
                scan.urls@,
                scan.token@,
                pages@.skip(k as int),
            )->Starved_0 && whole->Starved_1 == tokens@.map_values(|x: String| x@) + spec_scan(
                scan.urls@,
                scan.token@,
                pages@.skip(k as int),
            )->Starved_1),
            (spec_scan(scan.urls@, scan.token@, pages@.skip(k as int)) is MissingToken) ==> (
            whole is MissingToken && whole->MissingToken_0 == tokens@.map_values(
                |x: String| x@,
            ) + spec_scan(scan.urls@, scan.token@, pages@.skip(k as int))->MissingToken_0),
        decreases n - k,
    {
        let ghost tail = pages@.skip(k as int);
        let ghost toks0 = tokens@.map_values(|x: String| x@);
        let ghost tok0 = scan.token@;
        let ghost urls0 = scan.urls@;
        tokens.push(scan.current_token());
        proof {
            assert(tokens@.map_values(|x: String| x@) =~= toks0 + seq![tok0]);
            assert(tail[0] == pages@[k as int]);
            assert(tail.skip(1) =~= pages@.skip(k + 1));
        }
        let page = &pages[k];
        match scan.feed(page) {
            Err(_) => {
                proof {
                    assert(spec_scan(urls0, tok0, tail) == SpecScan::MissingToken(
                        seq![tok0],
                    ));
                    assert(toks0 + seq![tok0] =~= toks0 + seq![tok0]);
                }
                return ScanOutcome::MissingToken(tokens);
            },
            Ok(cont) => {
                if !cont {
                    proof {
                        if page.redownload_urls is None {
                            assert(spec_scan(urls0, tok0, tail) == SpecScan::Finished(
                                urls0,
                                seq![tok0],
                            ));
                        } else {
                            assert(spec_scan(urls0, tok0, tail) == SpecScan::Finished(
                                spec_extend_pairs(urls0, page.redownload_urls->Some_0@),
                                seq![tok0],
                            ));
                        }
                    }
                    return ScanOutcome::Complete(scan.urls, tokens);
                }
                proof {
                    assert(page.redownload_urls is Some && page.more_available
                        && page.last_token is Some);
                    let m2 = spec_extend_pairs(urls0, page.redownload_urls->Some_0@);
                    assert(scan.urls@ == m2);
                    assert(scan.token@ == page.last_token->Some_0@);
                    let rest = spec_scan(m2, page.last_token->Some_0@, pages@.skip(k + 1));
                    if rest is Finished {
                        assert(spec_scan(urls0, tok0, tail) == SpecScan::Finished(
                            rest->Finished_0,
                            seq![tok0] + rest->Finished_1,
                        ));
                        assert(toks0 + (seq![tok0] + rest->Finished_1) =~= (toks0
                            + seq![tok0]) + rest->Finished_1);
                    } else if rest is Starved {
                        assert(spec_scan(urls0, tok0, tail) == SpecScan::Starved(
                            rest->Starved_0,
                            seq![tok0] + rest->Starved_1,
                        ));
                        assert(toks0 + (seq![tok0] + rest->Starved_1) =~= (toks0 + seq![tok0])
                            + rest->Starved_1);
                    } else {
                        assert(spec_scan(urls0, tok0, tail) == SpecScan::MissingToken(
                            seq![tok0] + rest->MissingToken_0,
                        ));
                        assert(toks0 + (seq![tok0] + rest->MissingToken_0) =~= (toks0
                            + seq![tok0]) + rest->MissingToken_0);
                    }
                }
                k += 1;
            },
        }
    }
    proof {
        assert(pages@.skip(n as int).len() == 0);
        assert(spec_scan(scan.urls@, scan.token@, pages@.skip(n as int)) == SpecScan::Starved(
            scan.urls@,
            seq![],
        ));
        assert(tokens@.map_values(|x: String| x@) + Seq::<Seq<char>>::empty() =~= tokens@
            .map_values(|x: String| x@));
    }
    ScanOutcome::MorePagesNeeded(scan.urls, tokens)
}

/// The union of the first `j` pages' URL maps over `m`, later pages
/// overriding earlier ones.
pub open spec fn scan_union(
    m: Seq<(String, String)>,
    pages: Seq<ParsedCollectionItems>,
    j: int,
) -> Seq<(String, String)>
    decreases j,
{
    if j <= 0 {
        m
    } else {
        spec_extend_pairs(
            scan_union(m, pages, j - 1),
            pages[j - 1].redownload_urls->Some_0@,
        )
    }
}

/// Whether the first `k` pages each carry URLs, claim more items, and hand
/// out a continuation token.
pub open spec fn pages_all_continue(pages: Seq<ParsedCollectionItems>, k: int) -> bool {
    forall|i: int|
        0 <= i < k ==> (#[trigger] pages[i].redownload_urls is Some && pages[i].more_available
            && pages[i].last_token is Some)
}

proof fn lemma_scan_union_shift(
    m: Seq<(String, String)>,
    pages: Seq<ParsedCollectionItems>,
    j: int,
)
    requires
        1 <= j <= pages.len(),
    ensures
        scan_union(m, pages, j) == scan_union(
            spec_extend_pairs(m, pages[0].redownload_urls->Some_0@),
            pages.skip(1),
            j - 1,
        ),
    decreases j,
{
    let m2 = spec_extend_pairs(m, pages[0].redownload_urls->Some_0@);
    if j == 1 {
        assert(scan_union(m, pages, 0) == m);
        assert(scan_union(m2, pages.skip(1), 0) == m2);
        assert(scan_union(m, pages, 1) == spec_extend_pairs(
            m,
            pages[0].redownload_urls->Some_0@,
        ));
    } else {
        lemma_scan_union_shift(m, pages, j - 1);
        assert(pages.skip(1)[j - 2] == pages[j - 1]);
    }
}

/// Pagination termination: against a script whose first `k` pages claim more
/// items and whose last page does not, the scan finishes with the union of
/// all `k + 1` pages' URLs, having requested exactly the seed token followed
/// by the token each page returned.
pub proof fn lemma_pagination_termination(
    m: Seq<(String, String)>,
    seed: Seq<char>,
    pages: Seq<ParsedCollectionItems>,
    k: int,
)
    requires
        0 <= k,
        pages.len() == k + 1,
        pages_all_continue(pages, k),
        pages[k].redownload_urls is Some,
        !pages[k].more_available,
    ensures
        spec_scan(m, seed, pages) == SpecScan::Finished(
            scan_union(m, pages, k + 1),
            seq![seed] + Seq::new(k as nat, |i: int| pages[i].last_token->Some_0@),
        ),
    decreases k,
{
    if k == 0 {
        assert(scan_union(m, pages, 0) == m);
        assert(scan_union(m, pages, 1) == spec_extend_pairs(
            m,
            pages[0].redownload_urls->Some_0@,
        ));
        assert(seq![seed] + Seq::new(0, |i: int| pages[i].last_token->Some_0@) =~= seq![seed]);
    } else {
        assert(pages[0].redownload_urls is Some && pages[0].more_available && pages[0].last_token
            is Some);
        let m2 = spec_extend_pairs(m, pages[0].redownload_urls->Some_0@);
        let t1 = pages[0].last_token->Some_0@;
        let rest = pages.skip(1);
        assert(rest.len() == k);
        assert forall|i: int| 0 <= i < k - 1 implies (#[trigger] rest[i].redownload_urls is Some
            && rest[i].more_available && rest[i].last_token is Some) by {
            assert(rest[i] == pages[i + 1]);
        }
        assert(rest[k - 1] == pages[k]);
        lemma_pagination_termination(m2, t1, rest, k - 1);
        lemma_scan_union_shift(m, pages, k + 1);
        assert(scan_union(m2, rest, k) == scan_union(m, pages, k + 1));
        let inner_toks = seq![t1] + Seq::new((k - 1) as nat, |i: int| rest[i].last_token->Some_0@);
        assert(spec_scan(m2, t1, rest) == SpecScan::Finished(scan_union(m2, rest, k), inner_toks));
        assert(spec_scan(m, seed, pages) == SpecScan::Finished(
            scan_union(m2, rest, k),
            seq![seed] + inner_toks,
        ));
        assert(seq![seed] + inner_toks =~= seq![seed] + Seq::new(
            k as nat,
            |i: int| pages[i].last_token->Some_0@,
        )) by {
            assert forall|i: int| 0 <= i < k implies inner_toks[i] == Seq::new(
                k as nat,
                |i: int| pages[i].last_token->Some_0@,
            )[i] by {
                if i > 0 {
                    assert(inner_toks[i] == rest[i - 1].last_token->Some_0@);
                    assert(rest[i - 1] == pages[i]);
                }
            }
        }
    }
}

} // verus!
