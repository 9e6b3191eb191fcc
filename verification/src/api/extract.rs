//! Locating embedded payloads in platform responses: the `data-blob`
//! attribute of a release page, and the JSON carried inside the stat
//! endpoint's JavaScript-callback wrapper.

use crate::error::{DigitalDownloadError, InformationRetrievalError};
use crate::text::{
    find_sub, find_substring, is_match_at, sub_chars, to_chars,
};
use vstd::prelude::*;

verus! {

/// Whitespace as the wrapper grammar tolerates it.
pub open spec fn is_js_space(c: char) -> bool {
    c == ' ' || c == '\t' || c == '\n' || c == '\r'
}

/// First position at or after `i` holding a non-whitespace character.
pub open spec fn scan_js_space_end(s: Seq<char>, i: int) -> int
    decreases s.len() - i,
{
    if 0 <= i && i < s.len() && is_js_space(s[i]) {
        scan_js_space_end(s, i + 1)
    } else {
        i
    }
}

/// First position at or before `i` such that everything between it and `i`
/// is whitespace, scanning backwards.
pub open spec fn rscan_js_space(s: Seq<char>, i: int) -> int
    decreases i,
{
    if 0 < i && i <= s.len() && is_js_space(s[i - 1]) {
        rscan_js_space(s, i - 1)
    } else {
        i
    }
}

/// First position at or after `i` holding `c`, or the length of `s`.
pub open spec fn find_char(s: Seq<char>, c: char, i: int) -> int
    decreases s.len() - i,
{
    if 0 <= i && i < s.len() && s[i] != c {
        find_char(s, c, i + 1)
    } else {
        i
    }
}

/// Last position at or before `i` where `pat` occurs in `s`, or `-1`.
pub open spec fn find_last_sub(s: Seq<char>, pat: Seq<char>, i: int) -> int
    decreases i + 1,
{
    if i < 0 {
        -1
    } else if is_match_at(s, pat, i) {
        i
    } else {
        find_last_sub(s, pat, i - 1)
    }
}

/// Last position at or before `i` holding `c`, or `-1`.
pub open spec fn rfind_char(s: Seq<char>, c: char, i: int) -> int
    decreases i + 1,
{
    if i < 0 {
        -1
    } else if 0 <= i && i < s.len() && s[i] == c {
        i
    } else {
        rfind_char(s, c, i - 1)
    }
}

/// Executable scan matching `scan_js_space_end`.
fn skip_js_spaces(v: &Vec<char>, start: usize) -> (e: usize)
    requires
        start <= v@.len(),
    ensures
        e == scan_js_space_end(v@, start as int),
        start <= e <= v@.len(),
{
    let ghost s = v@;
    let n = v.len();
    let mut i = start;
    while i < n && (v[i] == ' ' || v[i] == '\t' || v[i] == '\n' || v[i] == '\r')
        invariant
            start <= i <= n,
            n == s.len(),
            s == v@,
            scan_js_space_end(s, start as int) == scan_js_space_end(s, i as int),
        decreases n - i,
    {
        proof {
            assert(scan_js_space_end(s, i as int) == scan_js_space_end(s, i + 1));
        }
        i += 1;
    }
    proof {
        assert(scan_js_space_end(s, i as int) == i as int);
    }
    i
}

/// Executable scan matching `rscan_js_space`.
fn skip_js_spaces_back(v: &Vec<char>, start: usize) -> (e: usize)
    requires
        start <= v@.len(),
    ensures
        e == rscan_js_space(v@, start as int),
        e <= start,
{
    let ghost s = v@;
    let mut i = start;
    while i > 0 && (v[i - 1] == ' ' || v[i - 1] == '\t' || v[i - 1] == '\n' || v[i - 1] == '\r')
        invariant
            0 <= i <= start <= s.len(),
            s == v@,
            rscan_js_space(s, start as int) == rscan_js_space(s, i as int),
        decreases i,
    {
        proof {
            assert(rscan_js_space(s, i as int) == rscan_js_space(s, i - 1));
        }
        i -= 1;
    }
    proof {
        assert(rscan_js_space(s, i as int) == i as int);
    }
    i
}

/// Executable scan matching `find_char`.
fn scan_char(v: &Vec<char>, c: char, start: usize) -> (e: usize)
    requires
        start <= v@.len(),
    ensures
        e == find_char(v@, c, start as int),
        start <= e <= v@.len(),
{
    let ghost s = v@;
    let n = v.len();
    let mut i = start;
    while i < n && v[i] != c
        invariant
            start <= i <= n,
            n == s.len(),
            s == v@,
            find_char(s, c, start as int) == find_char(s, c, i as int),
        decreases n - i,
    {
        proof {
            assert(find_char(s, c, i as int) == find_char(s, c, i + 1));
        }
        i += 1;
    }
    proof {
        assert(find_char(s, c, i as int) == i as int);
    }
    i
}

/// Executable scan matching `rfind_char`.
fn rscan_char(v: &Vec<char>, c: char, start: usize) -> (r: Option<usize>)
    requires
        start < v@.len(),
    ensures
        match r {
            Some(j) => rfind_char(v@, c, start as int) == j && j <= start && v@[j as int] == c,
            None => rfind_char(v@, c, start as int) == -1,
        },
{
    let ghost s = v@;
    let mut i = start;
    loop
        invariant
            0 <= i <= start < s.len(),
            s == v@,
            rfind_char(s, c, start as int) == rfind_char(s, c, i as int),
        decreases i + 1,
    {
        if v[i] == c {
            proof {
                assert(rfind_char(s, c, i as int) == i as int);
            }
            return Some(i);
        }
        proof {
            assert(rfind_char(s, c, i as int) == rfind_char(s, c, i - 1));
        }
        if i == 0 {
            proof {
                assert(rfind_char(s, c, -1) == -1);
            }
            return None;
        }
        i -= 1;
    }
}

/// Executable search matching `find_last_sub`.
fn find_last_substring(v: &Vec<char>, pat: &Vec<char>, from: usize) -> (r: Option<usize>)
    requires
        from <= v@.len(),
    ensures
        match r {
            Some(j) => find_last_sub(v@, pat@, from as int) == j && j <= from && is_match_at(
                v@,
                pat@,
                j as int,
            ),
            None => find_last_sub(v@, pat@, from as int) == -1,
        },
{
    let ghost s = v@;
    let mut i = from;
    loop
        invariant
            0 <= i <= from <= s.len(),
            s == v@,
            find_last_sub(s, pat@, from as int) == find_last_sub(s, pat@, i as int),
        decreases i + 1,
    {
        if crate::text::matches_at(v, pat, i) {
            proof {
                assert(find_last_sub(s, pat@, i as int) == i as int);
            }
            return Some(i);
        }
        proof {
            assert(find_last_sub(s, pat@, i as int) == find_last_sub(s, pat@, i - 1));
        }
        if i == 0 {
            proof {
                assert(find_last_sub(s, pat@, -1) == -1);
            }
            return None;
        }
        i -= 1;
    }
}

/// The HTML-entity expansion of a text, as the `htmlize` crate computes it:
/// a function of the characters alone.
pub uninterp spec fn html_unescaped(s: Seq<char>) -> Seq<char>;

/// Expands HTML entities in an attribute value.
///
/// Relies on `htmlize::unescape`: the expansion depends on the input
/// characters alone, and a text holding no ampersand has no entity to expand
/// and comes back unchanged.
#[verifier::external_body]
fn html_unescape(s: &str) -> (r: String)
    ensures
        r@ == html_unescaped(s@),
        (forall|i: int| 0 <= i < s@.len() ==> s@[i] != '&') ==> r@ == s@,
{
    htmlize::unescape(s).into_owned()
}

/// Position of the page-data marker attribute.
pub open spec fn blob_marker_pos(s: Seq<char>) -> int {
    find_sub(s, "id=\"pagedata\""@, 0)
}

/// Position of the `<` opening the element that holds the marker.
pub open spec fn blob_tag_open(s: Seq<char>) -> int {
    rfind_char(s, '<', blob_marker_pos(s))
}

/// Position of the data-blob attribute after the marker.
pub open spec fn blob_attr_pos(s: Seq<char>) -> int {
    find_sub(s, "data-blob=\""@, blob_marker_pos(s) + "id=\"pagedata\""@.len())
}

/// Start of the attribute value.
pub open spec fn blob_start(s: Seq<char>) -> int {
    blob_attr_pos(s) + "data-blob=\""@.len()
}

/// Position of the quote closing the attribute value; escaped characters are
/// skipped as in the cache title grammar.
pub open spec fn blob_end(s: Seq<char>) -> int {
    crate::cache::scan_title_end(s, blob_start(s))
}

/// Whether a page holds a well-formed data blob: a `<div` element opening
/// followed by whitespace, the marker and the data-blob attribute inside
/// that same tag (no `>` between them), then a terminated value.
pub open spec fn data_blob_found(s: Seq<char>) -> bool {
    let lt = blob_tag_open(s);
    &&& blob_marker_pos(s) >= 0
    &&& lt >= 0
    &&& is_match_at(s, "<div"@, lt)
    &&& lt + 4 < s.len() && is_js_space(s[lt + 4])
    &&& find_char(s, '>', lt) >= blob_marker_pos(s)
    &&& blob_attr_pos(s) >= 0
    &&& find_char(s, '>', blob_marker_pos(s) + "id=\"pagedata\""@.len()) >= blob_attr_pos(s)
    &&& blob_end(s) >= 0
}

/// The raw attribute value, entities still escaped.
pub open spec fn data_blob_raw(s: Seq<char>) -> Seq<char> {
    s.subrange(blob_start(s), blob_end(s))
}

/// Locates the embedded data blob of a release page and expands its HTML
/// entities. Fails with `DataBlobNotFound` exactly when the page holds no
/// well-formed blob.
pub fn find_data_blob(page: &str) -> (r: Result<String, InformationRetrievalError>)
    ensures
        r is Ok <==> data_blob_found(page@),
        r is Ok ==> (r->Ok_0)@ == html_unescaped(data_blob_raw(page@)),
        r is Err ==> (r matches Err(InformationRetrievalError::DataBlobNotFound)),
{
    proof {
        reveal_strlit("id=\"pagedata\"");
        reveal_strlit("data-blob=\"");
        reveal_strlit("<div");
    }
    let v = to_chars(page);
    let n = v.len();
    proof {
        assert(n == v@.len());
    }
    let marker = to_chars("id=\"pagedata\"");
    let m = match find_substring(&v, &marker, 0) {
        Some(m) => m,
        None => {
            return Err(InformationRetrievalError::DataBlobNotFound);
        },
    };
    let lt = match rscan_char(&v, '<', m) {
        Some(lt) => lt,
        None => {
            return Err(InformationRetrievalError::DataBlobNotFound);
        },
    };
    let div_tag = to_chars("<div");
    if !crate::text::matches_at(&v, &div_tag, lt) {
        return Err(InformationRetrievalError::DataBlobNotFound);
    }
    if lt + 4 >= n {
        return Err(InformationRetrievalError::DataBlobNotFound);
    }
    let after_div = v[lt + 4];
    if !(after_div == ' ' || after_div == '\t' || after_div == '\n' || after_div == '\r') {
        return Err(InformationRetrievalError::DataBlobNotFound);
    }
    let g0 = scan_char(&v, '>', lt);
    if g0 < m {
        return Err(InformationRetrievalError::DataBlobNotFound);
    }
    let attr = to_chars("data-blob=\"");
    let b = match find_substring(&v, &attr, m + marker.len()) {
        Some(b) => b,
        None => {
            return Err(InformationRetrievalError::DataBlobNotFound);
        },
    };
    let g = scan_char(&v, '>', m + marker.len());
    if g < b {
        return Err(InformationRetrievalError::DataBlobNotFound);
    }
    let start = b + attr.len();
    let t = match crate::cache::scan_title(&v, start) {
        Some(t) => t,
        None => {
            return Err(InformationRetrievalError::DataBlobNotFound);
        },
    };
    let raw = crate::text::chars_to_string(&sub_chars(&v, start, t));
    Ok(html_unescape(raw.as_str()))
}

/// Position of the callback marker `Downloads.statResult`.
pub open spec fn stat_marker_pos(s: Seq<char>) -> int {
    find_sub(s, "Downloads.statResult"@, 0)
}

/// Whether the callback wrapper stands around the marker:
/// `if ( window.Downloads ) {` before it, whitespace-tolerant.
pub open spec fn stat_prefix_ok(s: Seq<char>) -> bool {
    let m = stat_marker_pos(s);
    let b1 = rscan_js_space(s, m);
    let b2 = rscan_js_space(s, b1 - 1);
    let b3 = rscan_js_space(s, b2 - 1);
    let b4 = rscan_js_space(s, b3 - "window.Downloads"@.len());
    let b5 = rscan_js_space(s, b4 - 1);
    &&& m >= 0
    &&& b1 >= 1 && s[b1 - 1] == '{'
    &&& b2 >= 1 && s[b2 - 1] == ')'
    &&& b3 >= "window.Downloads"@.len() && is_match_at(
        s,
        "window.Downloads"@,
        b3 - "window.Downloads"@.len(),
    )
    &&& b4 >= 1 && s[b4 - 1] == '('
    &&& b5 >= 2 && s[b5 - 1] == 'f' && s[b5 - 2] == 'i'
}

/// Start of the JSON payload: after the parenthesis that follows the marker.
pub open spec fn stat_paren_pos(s: Seq<char>) -> int {
    scan_js_space_end(s, stat_marker_pos(s) + "Downloads.statResult"@.len())
}

pub open spec fn stat_json_start(s: Seq<char>) -> int {
    scan_js_space_end(s, stat_paren_pos(s) + 1)
}

/// Position of the last `};` closing the wrapper.
pub open spec fn stat_close_pos(s: Seq<char>) -> int {
    find_last_sub(s, "};"@, s.len() - 2)
}

/// Position of the `)` closing the callback: just before the final `};`,
/// whitespace tolerated.
pub open spec fn stat_paren_close(s: Seq<char>) -> int {
    rscan_js_space(s, stat_close_pos(s)) - 1
}

/// Position one past the end of the JSON payload: before the `)` that closes
/// the callback, trailing whitespace dropped.
pub open spec fn stat_json_end(s: Seq<char>) -> int {
    rscan_js_space(s, stat_paren_close(s))
}

/// Whether the response carries the full callback wrapper around a payload.
pub open spec fn stat_json_found(s: Seq<char>) -> bool {
    let p = stat_paren_pos(s);
    let e = stat_close_pos(s);
    let pc = stat_paren_close(s);
    &&& stat_prefix_ok(s)
    &&& p < s.len() && s[p] == '('
    &&& e >= 0 && e > p
    &&& pc >= 0 && s[pc] == ')'
    &&& stat_json_start(s) <= stat_json_end(s)
}

/// The JSON payload inside the wrapper, surrounding whitespace dropped.
pub open spec fn stat_json_raw(s: Seq<char>) -> Seq<char> {
    s.subrange(stat_json_start(s), stat_json_end(s))
}

/// Extracts the JSON payload from the stat endpoint's callback wrapper.
/// Fails with `JsonBodyNotFound` exactly when the wrapper is not matched.
pub fn extract_stat_payload(stat_response_body: &str) -> (r: Result<
    String,
    DigitalDownloadError,
>)
    ensures
        r is Ok <==> stat_json_found(stat_response_body@),
        r is Ok ==> (r->Ok_0)@ == stat_json_raw(stat_response_body@),
        r is Err ==> (r matches Err(DigitalDownloadError::JsonBodyNotFound)),
{
    proof {
        reveal_strlit("Downloads.statResult");
        reveal_strlit("window.Downloads");
        reveal_strlit("};");
    }
    let v = to_chars(stat_response_body);
    let n = v.len();
    let marker = to_chars("Downloads.statResult");
    let m = match find_substring(&v, &marker, 0) {
        Some(m) => m,
        None => {
            return Err(DigitalDownloadError::JsonBodyNotFound);
        },
    };
    // the wrapper prefix, walking backwards from the marker
    let b1 = skip_js_spaces_back(&v, m);
    if b1 < 1 || v[b1 - 1] != '{' {
        return Err(DigitalDownloadError::JsonBodyNotFound);
    }
    let b2 = skip_js_spaces_back(&v, b1 - 1);
    if b2 < 1 || v[b2 - 1] != ')' {
        return Err(DigitalDownloadError::JsonBodyNotFound);
    }
    let b3 = skip_js_spaces_back(&v, b2 - 1);
    let wd = to_chars("window.Downloads");
    if b3 < wd.len() {
        return Err(DigitalDownloadError::JsonBodyNotFound);
    }
    if !crate::text::matches_at(&v, &wd, b3 - wd.len()) {
        return Err(DigitalDownloadError::JsonBodyNotFound);
    }
    let b4 = skip_js_spaces_back(&v, b3 - wd.len());
    if b4 < 1 || v[b4 - 1] != '(' {
        return Err(DigitalDownloadError::JsonBodyNotFound);
    }
    let b5 = skip_js_spaces_back(&v, b4 - 1);
    if b5 < 2 || v[b5 - 1] != 'f' || v[b5 - 2] != 'i' {
        return Err(DigitalDownloadError::JsonBodyNotFound);
    }
    // the payload, forwards from the marker
    let p = skip_js_spaces(&v, m + marker.len());
    if p >= n || v[p] != '(' {
        return Err(DigitalDownloadError::JsonBodyNotFound);
    }
    let j0 = skip_js_spaces(&v, p + 1);
    if n < 2 {
        proof {
            assert(find_last_sub(v@, "};"@, n as int - 2) == -1);
        }
        return Err(DigitalDownloadError::JsonBodyNotFound);
    }
    let close = to_chars("};");
    let e = match find_last_substring(&v, &close, n - 2) {
        Some(e) => e,
        None => {
            return Err(DigitalDownloadError::JsonBodyNotFound);
        },
    };
    if e <= p {
        return Err(DigitalDownloadError::JsonBodyNotFound);
    }
    let cp = skip_js_spaces_back(&v, e);
    if cp < 1 || v[cp - 1] != ')' {
        return Err(DigitalDownloadError::JsonBodyNotFound);
    }
    let je = skip_js_spaces_back(&v, cp - 1);
    if j0 > je {
        return Err(DigitalDownloadError::JsonBodyNotFound);
    }
    Ok(crate::text::chars_to_string(&sub_chars(&v, j0, je)))
}

} // verus!