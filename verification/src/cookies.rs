//! Raw cookie records as exported by a browser, and the pure readings the
//! credential adapter performs on them: flags, expiry timestamps, same-site
//! policies, and domain normalization.

use vstd::prelude::*;

verus! {

/// One cookie record as found in an exported cookie file. Every field
/// beyond the name and value is optional text.
#[derive(Debug)]
pub struct RawCookie {
    pub name: String,
    pub value: String,
    pub host: Option<String>,
    pub path: Option<String>,
    pub expires: Option<String>,
    pub send_for: Option<String>,
    pub http_only: Option<String>,
    pub same_site: Option<String>,
    pub this_domain_only: Option<String>,
    pub store: Option<String>,
}

impl RawCookie {
    /// A record holding only a name and a value.
    pub fn new(name: String, value: String) -> (r: Self)
        ensures
            r.name == name,
            r.value == value,
            r.host is None,
            r.path is None,
            r.expires is None,
            r.send_for is None,
            r.http_only is None,
            r.same_site is None,
            r.this_domain_only is None,
            r.store is None,
    {
        RawCookie {
            name,
            value,
            host: None,
            path: None,
            expires: None,
            send_for: None,
            http_only: None,
            same_site: None,
            this_domain_only: None,
            store: None,
        }
    }
}

/// Reads an optional boolean flag: exactly the texts `true` and `false`.
pub fn parse_bool_option(value: Option<&String>) -> (r: Option<bool>)
    ensures
        value is None ==> r is None,
        value is Some ==> ({
            let s = value->Some_0@;
            if s == "true"@ {
                r == Some(true)
            } else if s == "false"@ {
                r == Some(false)
            } else {
                r is None
            }
        }),
{
    match value {
        None => None,
        Some(text) => {
            if crate::text::str_eq(text.as_str(), "true") {
                Some(true)
            } else if crate::text::str_eq(text.as_str(), "false") {
                Some(false)
            } else {
                None
            }
        },
    }
}

/// The same-site policy a cookie record can ask for.
#[derive(Clone, Copy, Debug, PartialEq, Eq, Structural)]
pub enum SameSitePolicy {
    NoRestriction,
    Lax,
    Strict,
}

/// Reads the same-site field: the three known names map to policies, any
/// other text (an unspecified or unknown mode) to none.
pub fn parse_same_site(same_site: Option<&str>) -> (r: Option<SameSitePolicy>)
    ensures
        same_site is None ==> r is None,
        same_site is Some ==> ({
            let s = same_site->Some_0@;
            if s == "no_restriction"@ {
                r == Some(SameSitePolicy::NoRestriction)
            } else if s == "lax"@ {
                r == Some(SameSitePolicy::Lax)
            } else if s == "strict"@ {
                r == Some(SameSitePolicy::Strict)
            } else {
                r is None
            }
        }),
{
    match same_site {
        None => None,
        Some(text) => {
            if crate::text::str_eq(text, "no_restriction") {
                Some(SameSitePolicy::NoRestriction)
            } else if crate::text::str_eq(text, "lax") {
                Some(SameSitePolicy::Lax)
            } else if crate::text::str_eq(text, "strict") {
                Some(SameSitePolicy::Strict)
            } else {
                None
            }
        },
    }
}

/// A cookie domain with the scheme prefix, its leading dot, and any slashes
/// dropped.
pub open spec fn spec_normalized_domain(host: Seq<char>) -> Seq<char> {
    crate::text::spec_replace(
        crate::text::spec_replace(
            crate::text::spec_replace(host, "https://."@, ""@),
            "http://."@,
            ""@,
        ),
        "/"@,
        ""@,
    )
}

/// Normalizes the host field of a record into a cookie domain.
pub fn normalize_cookie_domain(host: &str) -> (r: String)
    ensures
        r@ == spec_normalized_domain(host@),
{
    proof {
        reveal_strlit("https://.");
        reveal_strlit("http://.");
        reveal_strlit("/");
    }
    let v = crate::text::to_chars(host);
    let empty = crate::text::to_chars("");
    let pat1 = crate::text::to_chars("https://.");
    let step1 = crate::text::replace_chars(&v, &pat1, &empty);
    let pat2 = crate::text::to_chars("http://.");
    let step2 = crate::text::replace_chars(&step1, &pat2, &empty);
    let pat3 = crate::text::to_chars("/");
    let out = crate::text::replace_chars(&step2, &pat3, &empty);
    crate::text::chars_to_string(&out)
}

/// Reads a signed decimal integer, as an expiry timestamp: an optional sign
/// followed by digits, within the range of `i64`.
pub open spec fn spec_parse_i64(s: Seq<char>) -> Option<int> {
    let neg = s.len() >= 1 && s[0] == '-';
    let d = if s.len() >= 1 && (s[0] == '-' || s[0] == '+') {
        s.skip(1)
    } else {
        s
    };
    if d.len() > 0 && crate::num::all_digits(d) && (if neg {
        crate::num::digits_val(d) <= 9223372036854775808
    } else {
        crate::num::digits_val(d) <= i64::MAX
    }) {
        Some(
            if neg {
                -crate::num::digits_val(d)
            } else {
                crate::num::digits_val(d)
            },
        )
    } else {
        None::<int>
    }
}

/// Reads the expiry field of a record as a Unix timestamp in seconds; any
/// text that is not a decimal integer yields none.
pub fn parse_expiration_seconds(expires: Option<&str>) -> (r: Option<i64>)
    ensures
        expires is None ==> r is None,
        expires is Some ==> ({
            let sv = spec_parse_i64(expires->Some_0@);
            &&& (r is Some <==> sv is Some)
            &&& (r is Some ==> r->Some_0 == sv->Some_0)
        }),
{
    match expires {
        None => None,
        Some(text) => {
            let v = crate::text::to_chars(text);
            let n = v.len();
            let neg = n >= 1 && v[0] == '-';
            let from: usize = if n >= 1 && (v[0] == '-' || v[0] == '+') {
                1
            } else {
                0
            };
            proof {
                let s = v@;
                let d = if s.len() >= 1 && (s[0] == '-' || s[0] == '+') {
                    s.skip(1)
                } else {
                    s
                };
                assert(v@.subrange(from as int, n as int) =~= d);
            }
            if neg {
                match crate::num::parse_digits_bounded(&v, from, n, 9223372036854775808u64) {
                    None => None,
                    Some(mag) => {
                        if mag == 9223372036854775808u64 {
                            Some(i64::MIN)
                        } else {
                            Some(-(mag as i64))
                        }
                    },
                }
            } else {
                match crate::num::parse_digits_bounded(&v, from, n, 9223372036854775807u64) {
                    None => None,
                    Some(mag) => Some(mag as i64),
                }
            }
        },
    }
}

} // verus!
