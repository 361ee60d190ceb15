//! Elementary verified text operations shared by the tools: substring
//! search, whitespace trimming, and case folding.

use vstd::prelude::*;
use vstd::string::StrSliceExecFns;

verus! {

/// `needle` occurs contiguously inside `hay`.
pub open spec fn is_substring(needle: Seq<char>, hay: Seq<char>) -> bool {
    exists|k: int|
        0 <= k && k + needle.len() <= hay.len() && #[trigger] hay.subrange(k, k + needle.len())
            == needle
}

/// What `str::to_lowercase` returns: a function of the characters alone.
pub uninterp spec fn lower_of(s: Seq<char>) -> Seq<char>;

/// Relies on `str::to_lowercase`: the lowercased text is a function of the
/// input characters alone, and an empty string lowercases to an empty string.
#[verifier::external_body]
pub fn lowercase(s: &str) -> (r: String)
    ensures
        r@ == lower_of(s@),
        s@.len() == 0 ==> r@.len() == 0,
{
    s.to_lowercase()
}

/// What `char::is_whitespace` returns.
pub uninterp spec fn is_space(c: char) -> bool;

/// Relies on `char::is_whitespace`: whether the character has the Unicode
/// whitespace property, a function of the character alone.
#[verifier::external_body]
pub fn whitespace_char(c: char) -> (r: bool)
    ensures
        r == is_space(c),
{
    c.is_whitespace()
}

/// Whether `needle` occurs as a substring of `hay` starting at position `k`.
fn match_at(hay: &str, needle: &str, k: usize) -> (r: bool)
    requires
        k + needle@.len() <= hay@.len(),
        hay@.len() <= usize::MAX,
    ensures
        r <==> hay@.subrange(k as int, k + needle@.len()) == needle@,
{
    let n = needle.unicode_len();
    let mut i: usize = 0;
    while i < n
        invariant
            n == needle@.len(),
            k + n <= hay@.len() <= usize::MAX,
            i <= n,
            forall|j: int| 0 <= j < i ==> hay@[k + j] == needle@[j],
        decreases n - i,
    {
        if hay.get_char(k + i) != needle.get_char(i) {
            assert(hay@.subrange(k as int, k + needle@.len())[i as int] != needle@[i as int]);
            return false;
        }
        i += 1;
    }
    assert(hay@.subrange(k as int, k + needle@.len()) =~= needle@);
    true
}

/// Substring containment: the matching primitive of the log searcher.
pub fn contains_substring(hay: &str, needle: &str) -> (r: bool)
    ensures
        r <==> is_substring(needle@, hay@),
{
    let hl = hay.unicode_len();
    let nl = needle.unicode_len();
    if nl > hl {
        return false;
    }
    let mut k: usize = 0;
    while k <= hl - nl
        invariant
            hl == hay@.len(),
            nl == needle@.len(),
            nl <= hl <= usize::MAX,
            k <= hl - nl + 1,
            forall|j: int|
                0 <= j < k ==> #[trigger] hay@.subrange(j, j + needle@.len()) != needle@,
        decreases hl - nl - k + 1,
    {
        if match_at(hay, needle, k) {
            return true;
        }
        if k == hl - nl {
            return false;
        }
        k += 1;
    }
    false
}

/// Character-for-character string equality.
pub fn str_eq(a: &str, b: &str) -> (r: bool)
    ensures
        r == (a@ == b@),
{
    let al = a.unicode_len();
    let bl = b.unicode_len();
    if al != bl {
        return false;
    }
    let mut i: usize = 0;
    while i < al
        invariant
            al == a@.len(),
            al == b@.len(),
            i <= al,
            forall|j: int| 0 <= j < i ==> a@[j] == b@[j],
        decreases al - i,
    {
        if a.get_char(i) != b.get_char(i) {
            return false;
        }
        i += 1;
    }
    proof {
        assert(a@ =~= b@);
    }
    true
}

/// `prefix` is an initial segment of `s`.
pub open spec fn spec_starts_with(s: Seq<char>, prefix: Seq<char>) -> bool {
    prefix.len() <= s.len() && s.subrange(0, prefix.len() as int) == prefix
}

/// Prefix test.
pub fn starts_with_str(s: &str, prefix: &str) -> (r: bool)
    ensures
        r == spec_starts_with(s@, prefix@),
{
    let sl = s.unicode_len();
    let pl = prefix.unicode_len();
    if pl > sl {
        false
    } else {
        match_at(s, prefix, 0)
    }
}

/// Push an owned line, tracking the sequence of character views.
pub fn push_line(out: &mut Vec<String>, s: String)
    ensures
        final(out).deep_view() == old(out).deep_view().push(s@),
        final(out)@.len() == old(out)@.len() + 1,
{
    let ghost pre = out.deep_view();
    let ghost sv = s@;
    out.push(s);
    proof {
        assert(out.deep_view().len() == pre.len() + 1);
        assert forall|k: int| 0 <= k < pre.len() implies out.deep_view()[k] == pre[k] by {}
        assert(out.deep_view() =~= pre.push(sv));
    }
}

/// `s` with leading whitespace removed.
pub open spec fn spec_trim_start(s: Seq<char>) -> Seq<char>
    decreases s.len(),
{
    if s.len() > 0 && is_space(s[0]) {
        spec_trim_start(s.drop_first())
    } else {
        s
    }
}

/// `s` with trailing whitespace removed.
pub open spec fn spec_trim_end(s: Seq<char>) -> Seq<char>
    decreases s.len(),
{
    if s.len() > 0 && is_space(s.last()) {
        spec_trim_end(s.drop_last())
    } else {
        s
    }
}

/// `s` with both leading and trailing whitespace removed.
pub open spec fn spec_trim(s: Seq<char>) -> Seq<char> {
    spec_trim_end(spec_trim_start(s))
}

/// Index of the first non-whitespace character, or `len` if all whitespace.
fn trim_start_index(s: &str, len: usize) -> (lo: usize)
    requires
        len == s@.len(),
    ensures
        lo <= len,
        spec_trim_start(s@) == s@.subrange(lo as int, len as int),
{
    let mut lo: usize = 0;
    proof {
        assert(s@.subrange(0, len as int) =~= s@);
    }
    while lo < len
        invariant
            len == s@.len(),
            lo <= len,
            spec_trim_start(s@) == spec_trim_start(s@.subrange(lo as int, len as int)),
        decreases len - lo,
    {
        if !whitespace_char(s.get_char(lo)) {
            proof {
                let sub = s@.subrange(lo as int, len as int);
                assert(sub.len() > 0 && !is_space(sub[0]));
            }
            return lo;
        }
        proof {
            let sub = s@.subrange(lo as int, len as int);
            assert(sub.drop_first() =~= s@.subrange(lo + 1, len as int));
        }
        lo += 1;
    }
    proof {
        assert(s@.subrange(len as int, len as int).len() == 0);
    }
    len
}

/// Index just past the last non-whitespace character in `s[lo..len]`.
fn trim_end_index(s: &str, lo: usize, len: usize) -> (hi: usize)
    requires
        lo <= len,
        len == s@.len(),
    ensures
        lo <= hi <= len,
        spec_trim_end(s@.subrange(lo as int, len as int)) == s@.subrange(lo as int, hi as int),
{
    let mut hi: usize = len;
    while hi > lo
        invariant
            lo <= hi <= len,
            len == s@.len(),
            spec_trim_end(s@.subrange(lo as int, len as int)) == spec_trim_end(
                s@.subrange(lo as int, hi as int),
            ),
        decreases hi - lo,
    {
        if !whitespace_char(s.get_char(hi - 1)) {
            proof {
                let sub = s@.subrange(lo as int, hi as int);
                assert(sub.len() > 0 && !is_space(sub.last()));
            }
            return hi;
        }
        proof {
            let sub = s@.subrange(lo as int, hi as int);
            assert(sub.drop_last() =~= s@.subrange(lo as int, hi - 1));
        }
        hi -= 1;
    }
    proof {
        assert(s@.subrange(lo as int, lo as int).len() == 0);
    }
    lo
}

/// Strip leading and trailing Unicode whitespace.
pub fn trim(s: &str) -> (r: &str)
    ensures
        r@ == spec_trim(s@),
{
    let len = s.unicode_len();
    let lo = trim_start_index(s, len);
    let hi = trim_end_index(s, lo, len);
    s.substring_char(lo, hi)
}

} // verus!
