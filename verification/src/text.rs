//! Character-level utilities shared by the parsers and serializers of this
//! crate. All text handling works on `Vec<char>`, whose view is the same
//! `Seq<char>` as the view of the `String` it came from.

use vstd::prelude::*;
use vstd::string::StrSliceExecFns;

verus! {

/// True exactly when `c` is one of the characters the cache grammar treats as
/// a "word" character: an ASCII letter, an ASCII digit, or an underscore.
pub open spec fn is_word_char(c: char) -> bool {
    ('0' <= c && c <= '9') || ('a' <= c && c <= 'z') || ('A' <= c && c <= 'Z') || c == '_'
}

/// Executable test matching `is_word_char`.
pub fn word_char(c: char) -> (r: bool)
    ensures
        r == is_word_char(c),
{
    ('0' <= c && c <= '9') || ('a' <= c && c <= 'z') || ('A' <= c && c <= 'Z') || c == '_'
}

/// Collects the characters of a string slice into a vector.
pub fn to_chars(s: &str) -> (v: Vec<char>)
    ensures
        v@ == s@,
{
    let n = s.unicode_len();
    let mut v: Vec<char> = Vec::new();
    let mut i: usize = 0;
    while i < n
        invariant
            i <= n,
            n == s@.len(),
            v@ == s@.take(i as int),
        decreases n - i,
    {
        let c = s.get_char(i);
        v.push(c);
        proof {
            assert(s@.take(i as int).push(s@[i as int]) =~= s@.take(i + 1 as int));
        }
        i += 1;
    }
    proof {
        assert(s@.take(n as int) =~= s@);
    }
    v
}

/// Builds the string holding exactly the given characters.
///
/// Relies on `String`'s `FromIterator` implementation: collecting an iterator
/// of characters yields the string made of those characters in order.
#[verifier::external_body]
pub fn chars_to_string(v: &Vec<char>) -> (s: String)
    ensures
        s@ == v@,
{
    v.iter().collect()
}

/// Copies the characters of `v` in positions `from..to` into a fresh vector.
pub fn sub_chars(v: &Vec<char>, from: usize, to: usize) -> (r: Vec<char>)
    requires
        from <= to <= v@.len(),
    ensures
        r@ == v@.subrange(from as int, to as int),
{
    let mut r: Vec<char> = Vec::new();
    let mut i: usize = from;
    while i < to
        invariant
            from <= i <= to <= v@.len(),
            r@ == v@.subrange(from as int, i as int),
        decreases to - i,
    {
        let c = v[i];
        r.push(c);
        proof {
            assert(v@.subrange(from as int, i as int).push(v@[i as int]) =~= v@.subrange(
                from as int,
                i + 1 as int,
            ));
        }
        i += 1;
    }
    r
}

/// Appends all characters of `src` to `dst`.
pub fn append_chars(dst: &mut Vec<char>, src: &Vec<char>)
    ensures
        final(dst)@ == old(dst)@ + src@,
{
    let n = src.len();
    let mut i: usize = 0;
    while i < n
        invariant
            i <= n,
            n == src@.len(),
            dst@ == old(dst)@ + src@.take(i as int),
        decreases n - i,
    {
        let c = src[i];
        dst.push(c);
        proof {
            assert((old(dst)@ + src@.take(i as int)).push(src@[i as int]) =~= old(dst)@
                + src@.take(i + 1 as int));
        }
        i += 1;
    }
    proof {
        assert(old(dst)@ + src@.take(n as int) =~= old(dst)@ + src@);
    }
}

/// Appends the characters of a string to `dst`.
pub fn append_str(dst: &mut Vec<char>, src: &str)
    ensures
        final(dst)@ == old(dst)@ + src@,
{
    let v = to_chars(src);
    append_chars(dst, &v);
}

/// Whether `pat` occurs in `s` at position `i`.
pub open spec fn is_match_at(s: Seq<char>, pat: Seq<char>, i: int) -> bool {
    0 <= i && i + pat.len() <= s.len() && s.subrange(i, i + pat.len()) == pat
}

/// First position at or after `i` where `pat` occurs in `s`, or `-1`.
pub open spec fn find_sub(s: Seq<char>, pat: Seq<char>, i: int) -> int
    decreases s.len() - i,
{
    if i < 0 || i + pat.len() > s.len() {
        -1
    } else if pat.len() == 0 {
        i
    } else if is_match_at(s, pat, i) {
        i
    } else {
        find_sub(s, pat, i + 1)
    }
}

/// Executable test matching `is_match_at`.
pub fn matches_at(v: &Vec<char>, pat: &Vec<char>, i: usize) -> (r: bool)
    ensures
        r == is_match_at(v@, pat@, i as int),
{
    let n = v.len();
    let m = pat.len();
    if i > n || m > n - i {
        return false;
    }
    let mut k: usize = 0;
    while k < m
        invariant
            0 <= k <= m,
            n == v@.len(),
            m == pat@.len(),
            i + m <= n,
            forall|j: int| 0 <= j < k ==> v@[i + j] == pat@[j],
        decreases m - k,
    {
        if v[i + k] != pat[k] {
            proof {
                assert(v@.subrange(i as int, i + m) != pat@) by {
                    assert(v@.subrange(i as int, i + m)[k as int] == v@[i + k]);
                }
            }
            return false;
        }
        k += 1;
    }
    proof {
        assert(v@.subrange(i as int, i + m) =~= pat@);
    }
    true
}

/// Executable search matching `find_sub`.
pub fn find_substring(v: &Vec<char>, pat: &Vec<char>, from: usize) -> (r: Option<usize>)
    requires
        from <= v@.len(),
        pat@.len() > 0,
    ensures
        match r {
            Some(j) => find_sub(v@, pat@, from as int) == j && from <= j && is_match_at(
                v@,
                pat@,
                j as int,
            ),
            None => find_sub(v@, pat@, from as int) == -1,
        },
{
    let ghost s = v@;
    let n = v.len();
    let m = pat.len();
    if m > n {
        return None;
    }
    let mut i = from;
    while i <= n - m
        invariant
            from <= i,
            i <= n,
            0 < m <= n,
            n == s.len(),
            s == v@,
            m == pat@.len(),
            find_sub(s, pat@, from as int) == find_sub(s, pat@, i as int),
        decreases n - i,
    {
        if matches_at(v, pat, i) {
            proof {
                assert(find_sub(s, pat@, i as int) == i as int);
            }
            return Some(i);
        }
        proof {
            assert(find_sub(s, pat@, i as int) == find_sub(s, pat@, i + 1));
        }
        i += 1;
    }
    proof {
        assert(find_sub(s, pat@, i as int) == -1);
    }
    None
}

/// `s` with every non-overlapping occurrence of `pat` replaced by `rep`,
/// scanning left to right.
pub open spec fn spec_replace(s: Seq<char>, pat: Seq<char>, rep: Seq<char>) -> Seq<char>
    decreases s.len(),
{
    if pat.len() == 0 || s.len() == 0 {
        s
    } else if is_match_at(s, pat, 0) {
        rep + spec_replace(s.skip(pat.len() as int), pat, rep)
    } else {
        seq![s[0]] + spec_replace(s.skip(1), pat, rep)
    }
}

/// Executable replacement matching `spec_replace`.
pub fn replace_chars(v: &Vec<char>, pat: &Vec<char>, rep: &Vec<char>) -> (r: Vec<char>)
    requires
        pat@.len() > 0,
    ensures
        r@ == spec_replace(v@, pat@, rep@),
{
    let ghost s = v@;
    let n = v.len();
    let m = pat.len();
    let mut out: Vec<char> = Vec::new();
    let mut i: usize = 0;
    proof {
        assert(s.skip(0) =~= s);
        assert(out@ + spec_replace(s, pat@, rep@) =~= spec_replace(s, pat@, rep@));
    }
    while i < n
        invariant
            0 <= i <= n,
            n == s.len(),
            s == v@,
            m == pat@.len(),
            m > 0,
            spec_replace(s, pat@, rep@) == out@ + spec_replace(s.skip(i as int), pat@, rep@),
        decreases n - i,
    {
        let ghost out0 = out@;
        let ghost tail = s.skip(i as int);
        if matches_at(v, pat, i) {
            append_chars(&mut out, rep);
            proof {
                assert(tail.subrange(0, m as int) =~= s.subrange(i as int, i + m));
                assert(is_match_at(tail, pat@, 0));
                assert(tail.skip(m as int) =~= s.skip(i + m));
                assert(spec_replace(tail, pat@, rep@) == rep@ + spec_replace(
                    s.skip(i + m),
                    pat@,
                    rep@,
                ));
                assert(out0 + (rep@ + spec_replace(s.skip(i + m), pat@, rep@)) =~= out@
                    + spec_replace(s.skip(i + m), pat@, rep@));
            }
            i += m;
        } else {
            let c = v[i];
            out.push(c);
            proof {
                if is_match_at(tail, pat@, 0) {
                    assert(s.subrange(i as int, i + m) =~= tail.subrange(0, m as int));
                    assert(is_match_at(s, pat@, i as int));
                }
                assert(tail[0] == s[i as int]);
                assert(tail.skip(1) =~= s.skip(i + 1));
                assert(spec_replace(tail, pat@, rep@) == seq![s[i as int]] + spec_replace(
                    s.skip(i + 1),
                    pat@,
                    rep@,
                ));
                assert(out0 + (seq![s[i as int]] + spec_replace(s.skip(i + 1), pat@, rep@))
                    =~= out@ + spec_replace(s.skip(i + 1), pat@, rep@));
            }
            i += 1;
        }
    }
    proof {
        assert(s.skip(n as int).len() == 0);
        assert(spec_replace(s.skip(n as int), pat@, rep@) =~= Seq::<char>::empty());
        assert(out@ + Seq::<char>::empty() =~= out@);
    }
    out
}

/// Character-by-character string equality.
pub fn str_eq(a: &str, b: &str) -> (r: bool)
    ensures
        r == (a@ == b@),
{
    let na = a.unicode_len();
    let nb = b.unicode_len();
    if na != nb {
        return false;
    }
    let mut i: usize = 0;
    while i < na
        invariant
            i <= na,
            na == a@.len(),
            na == b@.len(),
            forall|j: int| 0 <= j < i ==> a@[j] == b@[j],
        decreases na - i,
    {
        if a.get_char(i) != b.get_char(i) {
            return false;
        }
        i += 1;
    }
    proof {
        assert(a@ =~= b@);
    }
    true
}

} // verus!
