//! The durable download cache: a line-oriented text format mapping release
//! identifiers to minimal release metadata.
//!
//! One record per line, in the shape
//! `<release_id>| "<title>" (<year>) by <artist>`.
//! The identifier is a non-empty run of word characters, whitespace is
//! tolerated around the pipe, the title may contain `\"` escapes and
//! arbitrary text otherwise, the year is an unsigned decimal integer, and the
//! artist is the remainder of the line.

use crate::num::{
    all_digits, digits_val, is_digit, parse_digits_bounded,
};
use crate::text::{
    append_chars, chars_to_string, is_word_char, sub_chars, to_chars, word_char,
};
use vstd::prelude::*;

verus! {

/// Largest year value the cache accepts; matches the range of `i32`.
pub open spec fn max_year() -> int {
    2147483647
}

/// One cached release record.
#[derive(Debug)]
pub struct DownloadCacheRelease {
    pub release_id: String,
    pub title: String,
    pub year: i32,
    pub artist: String,
}

/// The mathematical content of a cache record.
pub struct ReleaseData {
    pub release_id: Seq<char>,
    pub title: Seq<char>,
    pub year: int,
    pub artist: Seq<char>,
}

impl View for DownloadCacheRelease {
    type V = ReleaseData;

    open spec fn view(&self) -> ReleaseData {
        ReleaseData {
            release_id: self.release_id@,
            title: self.title@,
            year: self.year as int,
            artist: self.artist@,
        }
    }
}

impl DownloadCacheRelease {
    /// Builds a record from its four fields.
    pub fn new(release_id: &str, title: &str, year: i32, artist: &str) -> (r: Self)
        ensures
            r@.release_id == release_id@,
            r@.title == title@,
            r@.year == year as int,
            r@.artist == artist@,
    {
        DownloadCacheRelease {
            release_id: release_id.to_owned(),
            title: title.to_owned(),
            year,
            artist: artist.to_owned(),
        }
    }
}

/// Why a cache text failed to parse.
#[derive(Debug)]
pub enum CacheParsingError {
    /// The named line does not match the record grammar.
    RegexCaptureFail(String),
    /// A numbered field of a line could not be captured. The reader reports
    /// whole lines instead, so it never produces this.
    RegexGroupFail(i32),
    /// The year field is not a decimal number within range.
    ParseIntError,
}

pub open spec fn is_space(c: char) -> bool {
    c == ' ' || c == '\t'
}

/// First position at or after `i` holding a non-word character.
pub open spec fn scan_word_end(s: Seq<char>, i: int) -> int
    decreases s.len() - i,
{
    if 0 <= i && i < s.len() && is_word_char(s[i]) {
        scan_word_end(s, i + 1)
    } else {
        i
    }
}

/// First position at or after `i` holding a non-space character.
pub open spec fn scan_space_end(s: Seq<char>, i: int) -> int
    decreases s.len() - i,
{
    if 0 <= i && i < s.len() && is_space(s[i]) {
        scan_space_end(s, i + 1)
    } else {
        i
    }
}

/// Position of the quote closing a title started at `i`, skipping
/// backslash-escaped characters; `-1` when the title is unterminated.
pub open spec fn scan_title_end(s: Seq<char>, i: int) -> int
    decreases s.len() - i,
{
    if i < 0 || i >= s.len() {
        -1
    } else if s[i] == '"' {
        i
    } else if s[i] == '\\' {
        if i + 1 < s.len() {
            scan_title_end(s, i + 2)
        } else {
            -1
        }
    } else {
        scan_title_end(s, i + 1)
    }
}

/// Start of the identifier: leading whitespace is tolerated.
pub open spec fn sp_id_start(s: Seq<char>) -> int {
    scan_space_end(s, 0)
}

pub open spec fn sp_id_end(s: Seq<char>) -> int {
    scan_word_end(s, sp_id_start(s))
}

/// Position of the quote opening the title.
pub open spec fn sp_quote(s: Seq<char>) -> int {
    scan_space_end(s, sp_id_end(s) + 1)
}

pub open spec fn sp_title_end(s: Seq<char>) -> int {
    scan_title_end(s, sp_quote(s) + 1)
}

pub open spec fn sp_year_start(s: Seq<char>) -> int {
    sp_title_end(s) + 3
}

pub open spec fn sp_year_end(s: Seq<char>) -> int {
    scan_word_end(s, sp_year_start(s))
}

/// Whether a line has the record shape
/// `<id>| "<title>" (<year-word>) by <artist>`.
pub open spec fn line_matches(s: Seq<char>) -> bool {
    let i0 = sp_id_start(s);
    let id_end = sp_id_end(s);
    let q = sp_quote(s);
    let t = sp_title_end(s);
    let ye = sp_year_end(s);
    &&& id_end > i0
    &&& id_end < s.len() && s[id_end] == '|'
    &&& q < s.len() && s[q] == '"'
    &&& t >= 0
    &&& t + 2 < s.len() && s[t + 1] == ' ' && s[t + 2] == '('
    &&& ye > sp_year_start(s)
    &&& ye + 5 <= s.len()
    &&& s[ye] == ')' && s[ye + 1] == ' ' && s[ye + 2] == 'b' && s[ye + 3] == 'y' && s[ye + 4]
        == ' '
}

/// The year characters of a matching line.
pub open spec fn line_year_seq(s: Seq<char>) -> Seq<char> {
    s.subrange(sp_year_start(s), sp_year_end(s))
}

/// Whether the year field of a matching line is a decimal number in range.
pub open spec fn line_year_ok(s: Seq<char>) -> bool {
    all_digits(line_year_seq(s)) && digits_val(line_year_seq(s)) <= max_year()
}

/// The record carried by a matching line.
pub open spec fn line_release(s: Seq<char>) -> ReleaseData {
    ReleaseData {
        release_id: s.subrange(sp_id_start(s), sp_id_end(s)),
        title: s.subrange(sp_quote(s) + 1, sp_title_end(s)),
        year: digits_val(line_year_seq(s)),
        artist: s.subrange(sp_year_end(s) + 5, s.len() as int),
    }
}

/// Executable scan matching `scan_word_end`.
fn scan_word(v: &Vec<char>, start: usize) -> (e: usize)
    requires
        start <= v@.len(),
    ensures
        e == scan_word_end(v@, start as int),
        start <= e <= v@.len(),
{
    let ghost s = v@;
    let n = v.len();
    let mut i = start;
    while i < n && word_char(v[i])
        invariant
            start <= i <= n,
            n == s.len(),
            s == v@,
            scan_word_end(s, start as int) == scan_word_end(s, i as int),
        decreases n - i,
    {
        proof {
            assert(scan_word_end(s, i as int) == scan_word_end(s, i + 1));
        }
        i += 1;
    }
    proof {
        assert(scan_word_end(s, i as int) == i as int);
    }
    i
}

/// Executable scan matching `scan_space_end`.
fn scan_spaces(v: &Vec<char>, start: usize) -> (e: usize)
    requires
        start <= v@.len(),
    ensures
        e == scan_space_end(v@, start as int),
        start <= e <= v@.len(),
{
    let ghost s = v@;
    let n = v.len();
    let mut i = start;
    while i < n && (v[i] == ' ' || v[i] == '\t')
        invariant
            start <= i <= n,
            n == s.len(),
            s == v@,
            scan_space_end(s, start as int) == scan_space_end(s, i as int),
        decreases n - i,
    {
        proof {
            assert(scan_space_end(s, i as int) == scan_space_end(s, i + 1));
        }
        i += 1;
    }
    proof {
        assert(scan_space_end(s, i as int) == i as int);
    }
    i
}

/// Executable scan matching `scan_title_end`.
pub(crate) fn scan_title(v: &Vec<char>, start: usize) -> (r: Option<usize>)
    requires
        start <= v@.len(),
    ensures
        match r {
            Some(t) => scan_title_end(v@, start as int) == t && start <= t < v@.len()
                && v@[t as int] == '"',
            None => scan_title_end(v@, start as int) == -1,
        },
{
    let ghost s = v@;
    let n = v.len();
    let mut k = start;
    while k < n
        invariant
            start <= k <= n,
            n == s.len(),
            s == v@,
            scan_title_end(s, start as int) == scan_title_end(s, k as int),
        decreases n - k,
    {
        let c = v[k];
        if c == '"' {
            proof {
                assert(scan_title_end(s, k as int) == k as int);
            }
            return Some(k);
        }
        if c == '\\' {
            if k + 1 < n {
                proof {
                    assert(scan_title_end(s, k as int) == scan_title_end(s, k + 2));
                }
                k += 2;
            } else {
                proof {
                    assert(scan_title_end(s, k as int) == -1);
                }
                return None;
            }
        } else {
            proof {
                assert(scan_title_end(s, k as int) == scan_title_end(s, k + 1));
            }
            k += 1;
        }
    }
    proof {
        assert(scan_title_end(s, k as int) == -1);
    }
    None
}

/// Parses one cache line given as characters.
fn parse_line_chars(v: &Vec<char>) -> (r: Result<DownloadCacheRelease, CacheParsingError>)
    ensures
        (line_matches(v@) && line_year_ok(v@)) <==> r is Ok,
        r is Ok ==> (r->Ok_0)@ == line_release(v@),
        !line_matches(v@) ==> (r matches Err(CacheParsingError::RegexCaptureFail(l)) && l@
            == v@),
        (line_matches(v@) && !line_year_ok(v@)) ==> (r matches Err(
            CacheParsingError::ParseIntError,
        )),
{
    let ghost s = v@;
    let n = v.len();
    let i0 = scan_spaces(v, 0);
    let id_end = scan_word(v, i0);
    if id_end == i0 || id_end >= n {
        return Err(CacheParsingError::RegexCaptureFail(chars_to_string(v)));
    }
    if v[id_end] != '|' {
        return Err(CacheParsingError::RegexCaptureFail(chars_to_string(v)));
    }
    let q = scan_spaces(v, id_end + 1);
    if q >= n {
        return Err(CacheParsingError::RegexCaptureFail(chars_to_string(v)));
    }
    if v[q] != '"' {
        return Err(CacheParsingError::RegexCaptureFail(chars_to_string(v)));
    }
    let t = match scan_title(v, q + 1) {
        Some(t) => t,
        None => {
            return Err(CacheParsingError::RegexCaptureFail(chars_to_string(v)));
        },
    };
    if n - t <= 2 {
        return Err(CacheParsingError::RegexCaptureFail(chars_to_string(v)));
    }
    if v[t + 1] != ' ' || v[t + 2] != '(' {
        return Err(CacheParsingError::RegexCaptureFail(chars_to_string(v)));
    }
    let y0 = t + 3;
    let ye = scan_word(v, y0);
    if ye == y0 {
        return Err(CacheParsingError::RegexCaptureFail(chars_to_string(v)));
    }
    if n - ye < 5 {
        return Err(CacheParsingError::RegexCaptureFail(chars_to_string(v)));
    }
    if v[ye] != ')' || v[ye + 1] != ' ' || v[ye + 2] != 'b' || v[ye + 3] != 'y' || v[ye + 4]
        != ' ' {
        return Err(CacheParsingError::RegexCaptureFail(chars_to_string(v)));
    }
    proof {
        assert(line_matches(s));
    }
    match parse_digits_bounded(v, y0, ye, 2147483647) {
        None => Err(CacheParsingError::ParseIntError),
        Some(y) => {
            let release = DownloadCacheRelease {
                release_id: chars_to_string(&sub_chars(v, i0, id_end)),
                title: chars_to_string(&sub_chars(v, q + 1, t)),
                year: y as i32,
                artist: chars_to_string(&sub_chars(v, ye + 5, n)),
            };
            Ok(release)
        },
    }
}

/// A title that the scanner consumes exactly: no unescaped quote, and every
/// backslash escapes a following character.
pub open spec fn title_ok(t: Seq<char>) -> bool
    decreases t.len(),
{
    if t.len() == 0 {
        true
    } else if t[0] == '"' {
        false
    } else if t[0] == '\\' {
        t.len() >= 2 && title_ok(t.skip(2))
    } else {
        title_ok(t.skip(1))
    }
}

/// A record that the line format represents faithfully: a non-empty word
/// identifier, a title the scanner consumes exactly and free of line breaks,
/// a year in range, and an artist free of line breaks.
pub open spec fn wf_release(r: ReleaseData) -> bool {
    &&& r.release_id.len() > 0
    &&& forall|i: int|
        0 <= i < r.release_id.len() ==> is_word_char(#[trigger] r.release_id[i])
    &&& title_ok(r.title)
    &&& forall|i: int| 0 <= i < r.title.len() ==> #[trigger] r.title[i] != '\n'
    &&& 0 <= r.year <= max_year()
    &&& forall|i: int|
        0 <= i < r.artist.len() ==> (#[trigger] r.artist[i] != '\n' && r.artist[i] != '\r')
}

/// The line text of one record.
pub open spec fn spec_serialize_release(r: ReleaseData) -> Seq<char> {
    r.release_id + seq!['|', ' ', '"'] + r.title + seq!['"', ' ', '('] + crate::num::dec_int(
        r.year,
    ) + seq![')', ' ', 'b', 'y', ' '] + r.artist
}

/// Serializes one record as a cache line.
pub fn serialize_download_cache_release(cache_release: &DownloadCacheRelease) -> (res: String)
    ensures
        res@ == spec_serialize_release(cache_release@),
{
    let mut out: Vec<char> = Vec::new();
    crate::text::append_str(&mut out, cache_release.release_id.as_str());
    out.push('|');
    out.push(' ');
    out.push('"');
    crate::text::append_str(&mut out, cache_release.title.as_str());
    out.push('"');
    out.push(' ');
    out.push('(');
    let year_chars = crate::num::i64_to_chars(cache_release.year as i64);
    append_chars(&mut out, &year_chars);
    out.push(')');
    out.push(' ');
    out.push('b');
    out.push('y');
    out.push(' ');
    crate::text::append_str(&mut out, cache_release.artist.as_str());
    proof {
        assert(out@ =~= spec_serialize_release(cache_release@));
    }
    chars_to_string(&out)
}

/// A word run followed by a non-word character scans to its end.
proof fn lemma_scan_word_through(s: Seq<char>, i: int, w: Seq<char>)
    requires
        0 <= i,
        i + w.len() <= s.len(),
        s.subrange(i, i + w.len()) == w,
        forall|j: int| 0 <= j < w.len() ==> is_word_char(#[trigger] w[j]),
        i + w.len() == s.len() || !is_word_char(s[i + w.len()]),
    ensures
        scan_word_end(s, i) == i + w.len(),
    decreases w.len(),
{
    if w.len() == 0 {
    } else {
        assert(s[i] == w[0]);
        assert(scan_word_end(s, i) == scan_word_end(s, i + 1));
        assert(s.subrange(i + 1, i + w.len()) =~= w.skip(1));
        lemma_scan_word_through(s, i + 1, w.skip(1));
    }
}

/// A well-formed title followed by a quote scans to that quote.
proof fn lemma_scan_title_through(s: Seq<char>, i: int, t: Seq<char>)
    requires
        0 <= i,
        i + t.len() < s.len(),
        s.subrange(i, i + t.len()) == t,
        title_ok(t),
        s[i + t.len()] == '"',
    ensures
        scan_title_end(s, i) == i + t.len(),
    decreases t.len(),
{
    if t.len() == 0 {
    } else {
        assert(s[i] == t[0]);
        if t[0] == '\\' {
            assert(scan_title_end(s, i) == scan_title_end(s, i + 2));
            assert(s.subrange(i + 2, i + t.len()) =~= t.skip(2));
            lemma_scan_title_through(s, i + 2, t.skip(2));
        } else {
            assert(scan_title_end(s, i) == scan_title_end(s, i + 1));
            assert(s.subrange(i + 1, i + t.len()) =~= t.skip(1));
            lemma_scan_title_through(s, i + 1, t.skip(1));
        }
    }
}

/// The line text of a well-formed record matches the grammar and parses back
/// to exactly that record.
pub proof fn lemma_serialize_line_parses(r: ReleaseData)
    requires
        wf_release(r),
    ensures
        line_matches(spec_serialize_release(r)),
        line_year_ok(spec_serialize_release(r)),
        line_release(spec_serialize_release(r)) == r,
{
    let l = spec_serialize_release(r);
    let a = r.release_id.len() as int;
    let tl = r.title.len() as int;
    crate::num::lemma_dec_digits_val(r.year);
    let d = crate::num::dec_digits(r.year);
    let dl = d.len() as int;
    let al = r.artist.len() as int;
    assert(crate::num::dec_int(r.year) == d);
    assert(l.len() == a + 3 + tl + 3 + dl + 5 + al);
    assert forall|k: int| 0 <= k < a implies l[k] == r.release_id[k] by {}
    assert(l[a] == '|');
    assert(l[a + 1] == ' ');
    assert(l[a + 2] == '"');
    assert forall|k: int| 0 <= k < tl implies l[a + 3 + k] == r.title[k] by {}
    assert(l[a + 3 + tl] == '"');
    assert(l[a + 4 + tl] == ' ');
    assert(l[a + 5 + tl] == '(');
    assert forall|k: int| 0 <= k < dl implies l[a + 6 + tl + k] == d[k] by {}
    assert(l[a + 6 + tl + dl] == ')');
    assert(l[a + 7 + tl + dl] == ' ');
    assert(l[a + 8 + tl + dl] == 'b');
    assert(l[a + 9 + tl + dl] == 'y');
    assert(l[a + 10 + tl + dl] == ' ');
    assert forall|k: int| 0 <= k < al implies l[a + 11 + tl + dl + k] == r.artist[k] by {}
    // identifier
    assert(is_word_char(l[0]));
    assert(!is_space(l[0]));
    assert(sp_id_start(l) == 0);
    assert(l.subrange(0, a) =~= r.release_id);
    lemma_scan_word_through(l, 0, r.release_id);
    assert(sp_id_end(l) == a);
    // pipe, spaces, opening quote
    assert(scan_space_end(l, a + 1) == scan_space_end(l, a + 2));
    assert(scan_space_end(l, a + 2) == a + 2);
    assert(sp_quote(l) == a + 2);
    // title
    assert(l.subrange(a + 3, a + 3 + tl) =~= r.title);
    lemma_scan_title_through(l, a + 3, r.title);
    assert(sp_title_end(l) == a + 3 + tl);
    // year
    assert(sp_year_start(l) == a + 6 + tl);
    assert forall|j: int| 0 <= j < dl implies is_word_char(#[trigger] d[j]) by {
        assert(is_digit(d[j]));
    }
    assert(l.subrange(a + 6 + tl, a + 6 + tl + dl) =~= d);
    assert(!is_word_char(l[a + 6 + tl + dl]));
    lemma_scan_word_through(l, a + 6 + tl, d);
    assert(sp_year_end(l) == a + 6 + tl + dl);
    assert(line_matches(l));
    // year value
    assert(line_year_seq(l) =~= d);
    assert(line_year_ok(l));
    // fields
    assert(line_release(l).release_id =~= r.release_id);
    assert(line_release(l).title =~= r.title);
    assert(line_release(l).year == r.year);
    assert(line_release(l).artist =~= r.artist);
}

/// Parses one line of the cache file.
///
/// Succeeds exactly when the line matches the record grammar and its year is
/// a decimal number within range; a grammar mismatch reports the whole line.
pub fn read_download_cache_line(cache_line: &str) -> (r: Result<
    DownloadCacheRelease,
    CacheParsingError,
>)
    ensures
        (line_matches(cache_line@) && line_year_ok(cache_line@)) <==> r is Ok,
        r is Ok ==> (r->Ok_0)@ == line_release(cache_line@),
        !line_matches(cache_line@) ==> (r matches Err(CacheParsingError::RegexCaptureFail(l))
            && l@ == cache_line@),
        (line_matches(cache_line@) && !line_year_ok(cache_line@)) ==> (r matches Err(
            CacheParsingError::ParseIntError,
        )),
{
    let v = to_chars(cache_line);
    parse_line_chars(&v)
}

/// First position at or after `i` holding a line feed, or the length.
pub open spec fn find_nl(s: Seq<char>, i: int) -> int
    decreases s.len() - i,
{
    if 0 <= i && i < s.len() && s[i] != '\n' {
        find_nl(s, i + 1)
    } else {
        i
    }
}

/// Drops one carriage return at the end of a line, as reading by lines does.
pub open spec fn strip_cr(l: Seq<char>) -> Seq<char> {
    if l.len() > 0 && l.last() == '\r' {
        l.drop_last()
    } else {
        l
    }
}

/// The result of reading a whole cache text: the records of all lines, or
/// the first offending line, or a year out of range.
pub enum SpecCacheParse {
    Entries(Seq<ReleaseData>),
    NoMatch(Seq<char>),
    BadYear,
}

proof fn lemma_find_nl_range(s: Seq<char>, i: int)
    requires
        0 <= i <= s.len(),
    ensures
        i <= find_nl(s, i) <= s.len(),
    decreases s.len() - i,
{
    if i < s.len() && s[i] != '\n' {
        lemma_find_nl_range(s, i + 1);
    }
}

/// Reading a cache text line by line, from the front.
pub open spec fn spec_parse_cache(s: Seq<char>) -> SpecCacheParse
    decreases s.len(),
    via spec_parse_cache_decreases
{
    if s.len() == 0 {
        SpecCacheParse::Entries(seq![])
    } else {
        let j = find_nl(s, 0);
        let l = strip_cr(s.take(j));
        if !line_matches(l) {
            SpecCacheParse::NoMatch(l)
        } else if !line_year_ok(l) {
            SpecCacheParse::BadYear
        } else {
            let rest = if j >= s.len() {
                SpecCacheParse::Entries(seq![])
            } else {
                spec_parse_cache(s.skip(j + 1))
            };
            match rest {
                SpecCacheParse::Entries(es) => SpecCacheParse::Entries(
                    seq![line_release(l)] + es,
                ),
                e => e,
            }
        }
    }
}

#[via_fn]
proof fn spec_parse_cache_decreases(s: Seq<char>) {
    if s.len() > 0 {
        lemma_find_nl_range(s, 0);
    }
}

proof fn lemma_find_nl_shift(s: Seq<char>, p: int, i: int)
    requires
        0 <= p <= s.len(),
        0 <= i,
    ensures
        find_nl(s.skip(p), i) == find_nl(s, p + i) - p,
    decreases s.len() - p - i,
{
    if p + i < s.len() && s[p + i] != '\n' {
        assert(s.skip(p)[i] == s[p + i]);
        lemma_find_nl_shift(s, p, i + 1);
    }
}

/// Executable scan matching `find_nl`.
fn scan_nl(v: &Vec<char>, start: usize) -> (e: usize)
    requires
        start <= v@.len(),
    ensures
        e == find_nl(v@, start as int),
        start <= e <= v@.len(),
{
    let ghost s = v@;
    let n = v.len();
    let mut i = start;
    while i < n && v[i] != '\n'
        invariant
            start <= i <= n,
            n == s.len(),
            s == v@,
            find_nl(s, start as int) == find_nl(s, i as int),
        decreases n - i,
    {
        proof {
            assert(find_nl(s, i as int) == find_nl(s, i + 1));
        }
        i += 1;
    }
    proof {
        assert(find_nl(s, i as int) == i as int);
    }
    i
}

/// First index of the record with the given identifier at or after `i`, or
/// `-1` when there is none.
pub open spec fn find_id_from(c: Seq<ReleaseData>, id: Seq<char>, i: int) -> int
    decreases c.len() - i,
{
    if i < 0 || i >= c.len() {
        -1
    } else if c[i].release_id == id {
        i
    } else {
        find_id_from(c, id, i + 1)
    }
}

pub open spec fn cache_find(c: Seq<ReleaseData>, id: Seq<char>) -> int {
    find_id_from(c, id, 0)
}

/// Whether some record carries the given identifier.
pub open spec fn cache_has_id(c: Seq<ReleaseData>, id: Seq<char>) -> bool {
    cache_find(c, id) >= 0
}

/// Insertion into the cache: the record replaces the one already carrying
/// its identifier, or goes to the end.
pub open spec fn spec_cache_insert(c: Seq<ReleaseData>, r: ReleaseData) -> Seq<ReleaseData> {
    let k = cache_find(c, r.release_id);
    if k < 0 {
        c.push(r)
    } else {
        c.update(k, r)
    }
}

/// A list of parsed records folded into a cache, in order: each record is
/// inserted, so a later record under an identifier replaces the earlier
/// one, which keeps its position.
pub open spec fn spec_fold_entries_from(
    acc: Seq<ReleaseData>,
    rs: Seq<ReleaseData>,
) -> Seq<ReleaseData>
    decreases rs.len(),
{
    if rs.len() == 0 {
        acc
    } else {
        spec_fold_entries_from(spec_cache_insert(acc, rs[0]), rs.skip(1))
    }
}

/// The cache loaded from a list of parsed records.
pub open spec fn spec_fold_entries(rs: Seq<ReleaseData>) -> Seq<ReleaseData> {
    spec_fold_entries_from(Seq::empty(), rs)
}

proof fn lemma_fold_entries_push(acc: Seq<ReleaseData>, rs: Seq<ReleaseData>, r: ReleaseData)
    ensures
        spec_fold_entries_from(acc, rs.push(r)) == spec_cache_insert(
            spec_fold_entries_from(acc, rs),
            r,
        ),
    decreases rs.len(),
{
    if rs.len() == 0 {
        assert(rs.push(r)[0] == r);
        assert(rs.push(r).skip(1) =~= Seq::<ReleaseData>::empty());
        assert(spec_fold_entries_from(spec_cache_insert(acc, r), Seq::<ReleaseData>::empty())
            == spec_cache_insert(acc, r));
        assert(spec_fold_entries_from(acc, rs) == acc);
    } else {
        assert(rs.push(r)[0] == rs[0]);
        assert(rs.push(r).skip(1) =~= rs.skip(1).push(r));
        lemma_fold_entries_push(spec_cache_insert(acc, rs[0]), rs.skip(1), r);
    }
}

/// The in-memory download cache: records in insertion order.
pub struct DownloadCache {
    pub entries: Vec<DownloadCacheRelease>,
}

impl View for DownloadCache {
    type V = Seq<ReleaseData>;

    open spec fn view(&self) -> Seq<ReleaseData> {
        self.entries@.map_values(|e: DownloadCacheRelease| e@)
    }
}

impl DownloadCache {
    /// An empty cache.
    pub fn new() -> (c: Self)
        ensures
            c@ == Seq::<ReleaseData>::empty(),
    {
        let c = DownloadCache { entries: Vec::new() };
        proof {
            assert(c@ =~= Seq::<ReleaseData>::empty());
        }
        c
    }

    pub fn len(&self) -> (n: usize)
        ensures
            n == self@.len(),
    {
        self.entries.len()
    }

    /// Whether a record with this identifier is present.
    pub fn contains_key(&self, key: &str) -> (r: bool)
        ensures
            r == cache_has_id(self@, key@),
    {
        let ghost c = self@;
        let n = self.entries.len();
        let mut k: usize = 0;
        while k < n
            invariant
                0 <= k <= n,
                n == c.len(),
                c == self@,
                find_id_from(c, key@, 0) == find_id_from(c, key@, k as int),
            decreases n - k,
        {
            proof {
                assert(c[k as int] == self.entries@[k as int]@);
            }
            if crate::text::str_eq(self.entries[k].release_id.as_str(), key) {
                proof {
                    assert(find_id_from(c, key@, k as int) == k);
                }
                return true;
            }
            proof {
                assert(find_id_from(c, key@, k as int) == find_id_from(c, key@, k + 1));
            }
            k += 1;
        }
        proof {
            assert(find_id_from(c, key@, k as int) == -1);
        }
        false
    }

    /// Adds a record, replacing the one already carrying its identifier if
    /// there is one.
    pub fn insert(&mut self, release: DownloadCacheRelease)
        ensures
            final(self)@ == spec_cache_insert(old(self)@, release@),
    {
        let ghost c = self@;
        let ghost id = release@.release_id;
        let n = self.entries.len();
        let mut k: usize = 0;
        while k < n
            invariant
                0 <= k <= n,
                n == c.len(),
                c == self@,
                self@ == old(self)@,
                id == release@.release_id,
                find_id_from(c, id, 0) == find_id_from(c, id, k as int),
            decreases n - k,
        {
            proof {
                assert(c[k as int] == self.entries@[k as int]@);
            }
            if crate::text::str_eq(self.entries[k].release_id.as_str(), release.release_id.as_str()) {
                proof {
                    assert(find_id_from(c, id, k as int) == k);
                }
                self.entries.set(k, release);
                proof {
                    assert(final(self)@ =~= c.update(k as int, release@));
                }
                return ;
            }
            proof {
                assert(find_id_from(c, id, k as int) == find_id_from(c, id, k + 1));
            }
            k += 1;
        }
        proof {
            assert(find_id_from(c, id, k as int) == -1);
        }
        self.entries.push(release);
        proof {
            assert(final(self)@ =~= c.push(release@));
        }
    }
}

/// Reads a whole cache text: every line must be a valid record.
///
/// On success the records come back as a mapping in order of first
/// appearance: a later record under an already-seen identifier replaces the
/// earlier one, so identifiers stay unique. A grammar mismatch reports the
/// first offending line and admits no record at all.
#[verifier::rlimit(100)]
pub fn read_download_cache(cache_data: &str) -> (r: Result<DownloadCache, CacheParsingError>)
    ensures
        (r is Ok) <==> (spec_parse_cache(cache_data@) is Entries),
        r is Ok ==> (r->Ok_0)@ == spec_fold_entries(
            spec_parse_cache(cache_data@)->Entries_0,
        ),
        (spec_parse_cache(cache_data@) is NoMatch) ==> (r matches Err(
            CacheParsingError::RegexCaptureFail(bad),
        ) && bad@ == spec_parse_cache(cache_data@)->NoMatch_0),
        (spec_parse_cache(cache_data@) is BadYear) ==> (r matches Err(
            CacheParsingError::ParseIntError,
        )),
{
    let v = to_chars(cache_data);
    let ghost s = v@;
    let n = v.len();
    let mut cache = DownloadCache::new();
    let ghost mut done: Seq<ReleaseData> = seq![];
    let mut p: usize = 0;
    proof {
        assert(s.skip(0) =~= s);
        assert(spec_fold_entries(done) == Seq::<ReleaseData>::empty());
        if spec_parse_cache(s) is Entries {
            assert(done + spec_parse_cache(s)->Entries_0 =~= spec_parse_cache(s)->Entries_0);
        }
    }
    while p < n
        invariant
            0 <= p <= n,
            n == s.len(),
            s == v@,
            s == cache_data@,
            cache@ == spec_fold_entries(done),
            (spec_parse_cache(s.skip(p as int)) is Entries) ==> spec_parse_cache(s)
                == SpecCacheParse::Entries(done + spec_parse_cache(s.skip(p as int))->Entries_0),
            !(spec_parse_cache(s.skip(p as int)) is Entries) ==> spec_parse_cache(s)
                == spec_parse_cache(s.skip(p as int)),
        decreases n - p,
    {
        let ghost tail = s.skip(p as int);
        let j = scan_nl(&v, p);
        proof {
            lemma_find_nl_shift(s, p as int, 0);
            assert(find_nl(tail, 0) == j - p);
            assert(tail.take(j - p) =~= s.subrange(p as int, j as int));
        }
        let mut line_vec = sub_chars(&v, p, j);
        if line_vec.len() > 0 && line_vec[line_vec.len() - 1] == '\r' {
            line_vec.pop();
            proof {
                assert(line_vec@ =~= strip_cr(tail.take(j - p)));
            }
        }
        proof {
            assert(line_vec@ == strip_cr(tail.take(j - p)));
        }
        let ghost l = line_vec@;
        match parse_line_chars(&line_vec) {
            Err(e) => {
                proof {
                    assert(tail.len() > 0);
                    if !line_matches(l) {
                        assert(spec_parse_cache(tail) == SpecCacheParse::NoMatch(l));
                    } else {
                        assert(spec_parse_cache(tail) == SpecCacheParse::BadYear);
                    }
                }
                return Err(e);
            },
            Ok(rel) => {
                proof {
                    assert(tail.len() > 0);
                    assert(line_matches(l) && line_year_ok(l));
                    assert(rel@ == line_release(l));
                }
                let ghost old_done = done;
                cache.insert(rel);
                proof {
                    done = old_done + seq![line_release(l)];
                    assert(old_done.push(line_release(l)) =~= done);
                    lemma_fold_entries_push(Seq::empty(), old_done, line_release(l));
                }
                if j < n {
                    proof {
                        let rest = spec_parse_cache(s.skip(j + 1));
                        assert(tail.skip(j - p + 1) =~= s.skip(j + 1));
                        if rest is Entries {
                            let es = rest->Entries_0;
                            assert(spec_parse_cache(tail) == SpecCacheParse::Entries(
                                seq![line_release(l)] + es,
                            ));
                            assert(spec_parse_cache(s) == SpecCacheParse::Entries(
                                old_done + (seq![line_release(l)] + es),
                            ));
                            assert(old_done + (seq![line_release(l)] + es) =~= done + es);
                            assert(spec_parse_cache(s) == SpecCacheParse::Entries(done + es));
                        } else {
                            assert(spec_parse_cache(tail) == rest);
                            assert(spec_parse_cache(s) == rest);
                        }
                    }
                    p = j + 1;
                } else {
                    proof {
                        assert(j == n);
                        assert(spec_parse_cache(tail) == SpecCacheParse::Entries(
                            seq![line_release(l)],
                        ));
                        assert(spec_parse_cache(s) == SpecCacheParse::Entries(
                            old_done + seq![line_release(l)],
                        ));
                        assert(old_done + seq![line_release(l)] == done);
                        assert(s.skip(n as int).len() == 0);
                        assert(spec_parse_cache(s.skip(n as int)) == SpecCacheParse::Entries(
                            seq![],
                        ));
                        assert(done + seq![] =~= done);
                    }
                    p = n;
                }
            },
        }
    }
    proof {
        assert(s.skip(p as int).len() == 0);
        assert(spec_parse_cache(s.skip(p as int)) == SpecCacheParse::Entries(seq![]));
        assert(done + seq![] =~= done);
        assert(spec_parse_cache(s) == SpecCacheParse::Entries(done));
    }
    Ok(cache)
}

/// The text of a whole cache: one line per record, joined by line feeds.
pub open spec fn spec_serialize_cache(rs: Seq<ReleaseData>) -> Seq<char>
    decreases rs.len(),
{
    if rs.len() == 0 {
        Seq::empty()
    } else if rs.len() == 1 {
        spec_serialize_release(rs[0])
    } else {
        spec_serialize_release(rs[0]) + seq!['\n'] + spec_serialize_cache(rs.skip(1))
    }
}

/// Serializes the whole cache, one record per line.
pub fn serialize_download_cache(cache_data: DownloadCache) -> (res: String)
    ensures
        res@ == spec_serialize_cache(cache_data@),
{
    let ghost c = cache_data@;
    let n = cache_data.entries.len();
    let mut out: Vec<char> = Vec::new();
    let mut k: usize = 0;
    while k < n
        invariant
            0 <= k <= n,
            n == c.len(),
            c == cache_data@,
            k == 0 ==> out@ == Seq::<char>::empty(),
            0 < k < n ==> spec_serialize_cache(c) == out@ + seq!['\n'] + spec_serialize_cache(
                c.skip(k as int),
            ),
            k == n && n > 0 ==> spec_serialize_cache(c) == out@,
        decreases n - k,
    {
        let ghost out0 = out@;
        if k > 0 {
            out.push('\n');
        }
        let line = serialize_download_cache_release(&cache_data.entries[k]);
        crate::text::append_str(&mut out, line.as_str());
        proof {
            assert(c[k as int] == cache_data.entries@[k as int]@);
            let lk = spec_serialize_release(c[k as int]);
            let rest = c.skip(k as int);
            assert(rest[0] == c[k as int]);
            assert(rest.skip(1) =~= c.skip(k + 1));
            if k == 0 {
                assert(out@ =~= lk);
                if n == 1 {
                } else {
                    assert(spec_serialize_cache(c) == lk + seq!['\n'] + spec_serialize_cache(
                        c.skip(1),
                    ));
                }
            } else {
                assert(out@ =~= out0 + seq!['\n'] + lk);
                if k + 1 == n {
                    assert(rest.len() == 1);
                    assert(spec_serialize_cache(rest) == lk);
                    assert(spec_serialize_cache(c) == out0 + seq!['\n'] + lk);
                    assert(out0 + seq!['\n'] + lk =~= out@);
                } else {
                    assert(rest.len() >= 2);
                    assert(spec_serialize_cache(rest) == lk + seq!['\n'] + spec_serialize_cache(
                        rest.skip(1),
                    ));
                    assert(out0 + seq!['\n'] + (lk + seq!['\n'] + spec_serialize_cache(
                        c.skip(k + 1),
                    )) =~= out@ + seq!['\n'] + spec_serialize_cache(c.skip(k + 1)));
                }
            }
        }
        k += 1;
    }
    proof {
        if n == 0 {
            assert(out@ =~= spec_serialize_cache(c));
        }
    }
    chars_to_string(&out)
}

/// The line of a well-formed record holds no line feed, does not end in a
/// carriage return, and is non-empty.
proof fn lemma_serialize_line_clean(r: ReleaseData)
    requires
        wf_release(r),
    ensures
        spec_serialize_release(r).len() > 0,
        forall|i: int|
            0 <= i < spec_serialize_release(r).len() ==> #[trigger] spec_serialize_release(r)[i]
                != '\n',
        spec_serialize_release(r).last() != '\r',
{
    let l = spec_serialize_release(r);
    let a = r.release_id.len() as int;
    let tl = r.title.len() as int;
    crate::num::lemma_dec_digits_val(r.year);
    let d = crate::num::dec_digits(r.year);
    let dl = d.len() as int;
    let al = r.artist.len() as int;
    assert(crate::num::dec_int(r.year) == d);
    assert(l.len() == a + 3 + tl + 3 + dl + 5 + al);
    assert forall|i: int| 0 <= i < l.len() implies #[trigger] l[i] != '\n' by {
        if i < a {
            assert(l[i] == r.release_id[i]);
            assert(is_word_char(l[i]));
        } else if i < a + 3 {
            assert(l[i] == seq!['|', ' ', '"'][i - a]);
        } else if i < a + 3 + tl {
            assert(l[i] == r.title[i - (a + 3)]);
        } else if i < a + 6 + tl {
            assert(l[i] == seq!['"', ' ', '('][i - (a + 3 + tl)]);
        } else if i < a + 6 + tl + dl {
            assert(l[i] == d[i - (a + 6 + tl)]);
            assert(is_digit(l[i]));
        } else if i < a + 11 + tl + dl {
            assert(l[i] == seq![')', ' ', 'b', 'y', ' '][i - (a + 6 + tl + dl)]);
        } else {
            assert(l[i] == r.artist[i - (a + 11 + tl + dl)]);
        }
    }
    if al > 0 {
        assert(l.last() == r.artist[al - 1]);
    } else {
        assert(l.last() == seq![')', ' ', 'b', 'y', ' '][4]);
    }
}

/// A stretch free of line feeds, closed by a line feed or the end of the
/// text, scans to its end.
proof fn lemma_find_nl_stop(s: Seq<char>, i: int, e: int)
    requires
        0 <= i <= e <= s.len(),
        forall|k: int| i <= k < e ==> #[trigger] s[k] != '\n',
        e == s.len() || s[e] == '\n',
    ensures
        find_nl(s, i) == e,
    decreases e - i,
{
    if i < e {
        lemma_find_nl_stop(s, i + 1, e);
    }
}

/// The cache round trip at the line level: serializing any well-formed
/// records parses back to exactly that record list, line for line.
#[verifier::rlimit(100)]
pub proof fn lemma_cache_round_trip(rs: Seq<ReleaseData>)
    requires
        forall|i: int| 0 <= i < rs.len() ==> wf_release(#[trigger] rs[i]),
    ensures
        spec_parse_cache(spec_serialize_cache(rs)) == SpecCacheParse::Entries(rs),
    decreases rs.len(),
{
    let s = spec_serialize_cache(rs);
    if rs.len() == 0 {
        assert(s.len() == 0);
        assert(rs =~= Seq::<ReleaseData>::empty());
        assert(spec_parse_cache(s) == SpecCacheParse::Entries(seq![]));
    } else if rs.len() == 1 {
        let l0 = spec_serialize_release(rs[0]);
        assert(s == l0);
        lemma_serialize_line_clean(rs[0]);
        lemma_serialize_line_parses(rs[0]);
        lemma_find_nl_stop(s, 0, s.len() as int);
        assert(s.take(s.len() as int) =~= s);
        assert(strip_cr(s) == s);
        assert(spec_parse_cache(s) == SpecCacheParse::Entries(seq![line_release(s)] + seq![]));
        assert(seq![line_release(s)] + seq![] =~= rs);
    } else {
        let l0 = spec_serialize_release(rs[0]);
        let tail = spec_serialize_cache(rs.skip(1));
        assert(s == l0 + seq!['\n'] + tail);
        lemma_serialize_line_clean(rs[0]);
        lemma_serialize_line_parses(rs[0]);
        let a = l0.len() as int;
        assert forall|k: int| 0 <= k < a implies #[trigger] s[k] != '\n' by {
            assert(s[k] == l0[k]);
        }
        assert(s[a] == '\n');
        lemma_find_nl_stop(s, 0, a);
        assert(s.take(a) =~= l0);
        assert(strip_cr(l0) == l0);
        assert(line_matches(l0) && line_year_ok(l0));
        assert(a < s.len());
        assert forall|i: int| 0 <= i < rs.skip(1).len() implies wf_release(
            #[trigger] rs.skip(1)[i],
        ) by {
            assert(rs.skip(1)[i] == rs[i + 1]);
        }
        lemma_cache_round_trip(rs.skip(1));
        assert(s.skip(a + 1) =~= tail);
        assert(spec_parse_cache(s.skip(a + 1)) == SpecCacheParse::Entries(rs.skip(1)));
        assert(spec_parse_cache(s) == SpecCacheParse::Entries(
            seq![line_release(l0)] + rs.skip(1),
        ));
        assert(seq![line_release(l0)] + rs.skip(1) =~= rs);
    }
}

/// An identifier carried by no record from position `i` on scans to no
/// index.
proof fn lemma_find_id_none(c: Seq<ReleaseData>, id: Seq<char>, i: int)
    requires
        0 <= i <= c.len(),
        forall|k: int| i <= k < c.len() ==> (#[trigger] c[k]).release_id != id,
    ensures
        find_id_from(c, id, i) == -1,
    decreases c.len() - i,
{
    if i < c.len() {
        lemma_find_id_none(c, id, i + 1);
    }
}

/// Whether no two records carry one identifier.
pub open spec fn cache_ids_distinct(rs: Seq<ReleaseData>) -> bool {
    forall|i: int, j: int|
        0 <= i < j < rs.len() ==> (#[trigger] rs[i]).release_id != (#[trigger] rs[j]).release_id
}

/// Folding records with pairwise-distinct identifiers never replaces: the
/// loaded cache is the record list itself.
proof fn lemma_fold_entries_distinct(rs: Seq<ReleaseData>)
    requires
        cache_ids_distinct(rs),
    ensures
        spec_fold_entries(rs) == rs,
    decreases rs.len(),
{
    if rs.len() == 0 {
        assert(spec_fold_entries_from(Seq::empty(), rs) =~= rs);
    } else {
        let front = rs.drop_last();
        let last = rs.last();
        assert forall|i: int, j: int| 0 <= i < j < front.len() implies (#[trigger] front[i])
            .release_id != (#[trigger] front[j]).release_id by {
            assert(front[i] == rs[i]);
            assert(front[j] == rs[j]);
        }
        lemma_fold_entries_distinct(front);
        assert(rs =~= front.push(last));
        lemma_fold_entries_push(Seq::empty(), front, last);
        assert(spec_fold_entries(rs) == spec_cache_insert(front, last));
        assert forall|k: int| 0 <= k < front.len() implies (#[trigger] front[k]).release_id
            != last.release_id by {
            assert(front[k] == rs[k]);
            assert(last == rs[rs.len() - 1]);
        }
        lemma_find_id_none(front, last.release_id, 0);
        assert(spec_cache_insert(front, last) == front.push(last));
    }
}

/// A scan result is either absent or an index in range.
proof fn lemma_find_id_range(c: Seq<ReleaseData>, id: Seq<char>, i: int)
    requires
        0 <= i,
    ensures
        find_id_from(c, id, i) == -1 || i <= find_id_from(c, id, i) < c.len(),
    decreases c.len() - i,
{
    if i < c.len() && c[i].release_id != id {
        lemma_find_id_range(c, id, i + 1);
    }
}

/// An absent scan result means the identifier occurs nowhere from `i` on.
proof fn lemma_find_id_none_means_absent(c: Seq<ReleaseData>, id: Seq<char>, i: int)
    requires
        0 <= i <= c.len(),
        find_id_from(c, id, i) == -1,
    ensures
        forall|k: int| i <= k < c.len() ==> (#[trigger] c[k]).release_id != id,
    decreases c.len() - i,
{
    if i < c.len() {
        assert(c[i].release_id != id);
        lemma_find_id_none_means_absent(c, id, i + 1);
    }
}

/// A found scan result points at a record carrying the identifier.
proof fn lemma_find_id_found(c: Seq<ReleaseData>, id: Seq<char>, i: int)
    requires
        0 <= i,
        find_id_from(c, id, i) >= 0,
    ensures
        i <= find_id_from(c, id, i) < c.len(),
        c[find_id_from(c, id, i)].release_id == id,
    decreases c.len() - i,
{
    if i < c.len() && c[i].release_id != id {
        lemma_find_id_found(c, id, i + 1);
    }
}

/// Insertion keeps identifiers pairwise distinct.
proof fn lemma_insert_keeps_distinct(c: Seq<ReleaseData>, r: ReleaseData)
    requires
        cache_ids_distinct(c),
    ensures
        cache_ids_distinct(spec_cache_insert(c, r)),
{
    let k = cache_find(c, r.release_id);
    let c2 = spec_cache_insert(c, r);
    if k < 0 {
        lemma_find_id_range(c, r.release_id, 0);
        assert(k == -1);
        lemma_find_id_none_means_absent(c, r.release_id, 0);
        assert forall|i: int, j: int| 0 <= i < j < c2.len() implies (#[trigger] c2[i])
            .release_id != (#[trigger] c2[j]).release_id by {
            if j < c.len() {
                assert(c2[i] == c[i] && c2[j] == c[j]);
            } else {
                assert(c2[j] == r);
                assert(c2[i] == c[i]);
            }
        }
    } else {
        lemma_find_id_found(c, r.release_id, 0);
        assert(c[k].release_id == r.release_id);
        assert forall|i: int, j: int| 0 <= i < j < c2.len() implies (#[trigger] c2[i])
            .release_id != (#[trigger] c2[j]).release_id by {
            assert(c2[i].release_id == c[i].release_id);
            assert(c2[j].release_id == c[j].release_id);
        }
    }
}

/// Loading establishes the cache invariant: however the file's records
/// repeat, the loaded cache holds at most one record per identifier.
pub proof fn lemma_fold_entries_ids_distinct(rs: Seq<ReleaseData>)
    ensures
        cache_ids_distinct(spec_fold_entries(rs)),
    decreases rs.len(),
{
    if rs.len() == 0 {
        assert(spec_fold_entries_from(Seq::empty(), rs) == Seq::<ReleaseData>::empty());
    } else {
        let front = rs.drop_last();
        lemma_fold_entries_ids_distinct(front);
        assert(rs =~= front.push(rs.last()));
        lemma_fold_entries_push(Seq::empty(), front, rs.last());
        lemma_insert_keeps_distinct(spec_fold_entries(front), rs.last());
    }
}

/// The round trip of the loaded mapping: serializing well-formed records
/// with pairwise-distinct identifiers and loading the text back yields a
/// cache holding exactly those records.
pub proof fn lemma_cache_load_round_trip(rs: Seq<ReleaseData>)
    requires
        forall|i: int| 0 <= i < rs.len() ==> wf_release(#[trigger] rs[i]),
        cache_ids_distinct(rs),
    ensures
        spec_parse_cache(spec_serialize_cache(rs)) == SpecCacheParse::Entries(rs),
        spec_fold_entries(rs) == rs,
{
    lemma_cache_round_trip(rs);
    lemma_fold_entries_distinct(rs);
}

/// The escaped form of a title: each quote gains a backslash.
pub open spec fn spec_escape_title(t: Seq<char>) -> Seq<char>
    decreases t.len(),
{
    if t.len() == 0 {
        Seq::empty()
    } else if t[0] == '"' {
        seq!['\\', '"'] + spec_escape_title(t.skip(1))
    } else {
        seq![t[0]] + spec_escape_title(t.skip(1))
    }
}

/// The unescaped form of a stored title: each `\"` becomes a quote.
pub open spec fn spec_unescape_title(t: Seq<char>) -> Seq<char>
    decreases t.len(),
{
    if t.len() == 0 {
        Seq::empty()
    } else if t.len() >= 2 && t[0] == '\\' && t[1] == '"' {
        seq!['"'] + spec_unescape_title(t.skip(2))
    } else {
        seq![t[0]] + spec_unescape_title(t.skip(1))
    }
}

/// Escapes a raw title for storage in a cache line.
pub fn escape_title(title: &str) -> (res: String)
    ensures
        res@ == spec_escape_title(title@),
{
    let v = to_chars(title);
    let ghost s = v@;
    let n = v.len();
    let mut out: Vec<char> = Vec::new();
    let mut i: usize = 0;
    proof {
        assert(s.skip(0) =~= s);
        assert(out@ + spec_escape_title(s) =~= spec_escape_title(s));
    }
    while i < n
        invariant
            0 <= i <= n,
            n == s.len(),
            s == v@,
            spec_escape_title(s) == out@ + spec_escape_title(s.skip(i as int)),
        decreases n - i,
    {
        let ghost out0 = out@;
        let c = v[i];
        proof {
            assert(s.skip(i as int)[0] == s[i as int]);
            assert(s.skip(i as int).skip(1) =~= s.skip(i + 1));
        }
        if c == '"' {
            out.push('\\');
            out.push('"');
            proof {
                assert(out@ =~= out0 + seq!['\\', '"']);
                assert(out0 + (seq!['\\', '"'] + spec_escape_title(s.skip(i + 1))) =~= out@
                    + spec_escape_title(s.skip(i + 1)));
            }
        } else {
            out.push(c);
            proof {
                assert(out@ =~= out0 + seq![c]);
                assert(out0 + (seq![c] + spec_escape_title(s.skip(i + 1))) =~= out@
                    + spec_escape_title(s.skip(i + 1)));
            }
        }
        i += 1;
    }
    proof {
        assert(s.skip(n as int).len() == 0);
        assert(out@ + spec_escape_title(s.skip(n as int)) =~= out@);
        assert(s.skip(0) =~= s);
    }
    chars_to_string(&out)
}

/// Undoes `escape_title` on a title read from a cache line.
pub fn unescape_title(title: &str) -> (res: String)
    ensures
        res@ == spec_unescape_title(title@),
{
    let v = to_chars(title);
    let ghost s = v@;
    let n = v.len();
    let mut out: Vec<char> = Vec::new();
    let mut i: usize = 0;
    proof {
        assert(s.skip(0) =~= s);
        assert(out@ + spec_unescape_title(s) =~= spec_unescape_title(s));
    }
    while i < n
        invariant
            0 <= i <= n,
            n == s.len(),
            s == v@,
            spec_unescape_title(s) == out@ + spec_unescape_title(s.skip(i as int)),
        decreases n - i,
    {
        let ghost out0 = out@;
        let c = v[i];
        proof {
            assert(s.skip(i as int)[0] == s[i as int]);
            assert(s.skip(i as int).skip(1) =~= s.skip(i + 1));
        }
        if c == '\\' && i + 1 < n && v[i + 1] == '"' {
            out.push('"');
            proof {
                assert(s.skip(i as int)[1] == s[i + 1]);
                assert(s.skip(i as int).skip(2) =~= s.skip(i + 2));
                assert(out@ =~= out0 + seq!['"']);
                assert(out0 + (seq!['"'] + spec_unescape_title(s.skip(i + 2))) =~= out@
                    + spec_unescape_title(s.skip(i + 2)));
            }
            i += 2;
        } else {
            out.push(c);
            proof {
                if s.skip(i as int).len() >= 2 {
                    assert(s.skip(i as int)[1] == s[i + 1]);
                }
                assert(out@ =~= out0 + seq![c]);
                assert(out0 + (seq![c] + spec_unescape_title(s.skip(i + 1))) =~= out@
                    + spec_unescape_title(s.skip(i + 1)));
            }
            i += 1;
        }
    }
    proof {
        assert(s.skip(n as int).len() == 0);
        assert(out@ + spec_unescape_title(s.skip(n as int)) =~= out@);
        assert(s.skip(0) =~= s);
    }
    chars_to_string(&out)
}

/// Title escaping round trip: for a raw title free of backslashes and line
/// breaks, the escaped form is storable in a line (the scanner consumes it
/// exactly, and it holds no line feed), and unescaping it gives back the
/// original text.
pub proof fn lemma_escape_round_trip(t: Seq<char>)
    requires
        forall|i: int| 0 <= i < t.len() ==> #[trigger] t[i] != '\\',
        forall|i: int| 0 <= i < t.len() ==> #[trigger] t[i] != '\n',
    ensures
        spec_unescape_title(spec_escape_title(t)) == t,
        title_ok(spec_escape_title(t)),
        forall|i: int|
            0 <= i < spec_escape_title(t).len() ==> #[trigger] spec_escape_title(t)[i] != '\n',
    decreases t.len(),
{
    let e = spec_escape_title(t);
    if t.len() == 0 {
        assert(spec_unescape_title(e) =~= t);
    } else {
        assert forall|i: int| 0 <= i < t.skip(1).len() implies #[trigger] t.skip(1)[i] != '\\'
            && t.skip(1)[i] != '\n' by {
            assert(t.skip(1)[i] == t[i + 1]);
        }
        lemma_escape_round_trip(t.skip(1));
        let e1 = spec_escape_title(t.skip(1));
        if t[0] == '"' {
            assert(e == seq!['\\', '"'] + e1);
            assert(e[0] == '\\');
            assert(e[1] == '"');
            assert(e.skip(2) =~= e1);
            assert(spec_unescape_title(e) == seq!['"'] + spec_unescape_title(e1));
            assert(seq!['"'] + t.skip(1) =~= t);
            assert(title_ok(e));
        } else {
            assert(e == seq![t[0]] + e1);
            assert(e[0] == t[0]);
            assert(e.skip(1) =~= e1);
            if e.len() >= 2 && e[0] == '\\' && e[1] == '"' {
                assert(false);
            }
            assert(spec_unescape_title(e) == seq![t[0]] + spec_unescape_title(e1));
            assert(seq![t[0]] + t.skip(1) =~= t);
            assert(title_ok(e));
        }
        assert forall|i: int| 0 <= i < e.len() implies #[trigger] e[i] != '\n' by {
            if t[0] == '"' {
                if i >= 2 {
                    assert(e[i] == e1[i - 2]);
                }
            } else {
                if i >= 1 {
                    assert(e[i] == e1[i - 1]);
                }
            }
        }
    }
}

} // verus!
