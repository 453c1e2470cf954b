//! Verified text utilities: string equality, substring search, and
//! placeholder replacement over `&str` and `String` values, specified
//! against their `Seq<char>` views.

use vstd::prelude::*;

verus! {

/// Relies on String::push: appends exactly the one character to the
/// end of the string. vstd specifies append of a `&str` but not push of
/// a single char, so this is taken on the std documentation.
#[verifier::external_body]
pub fn push_char(s: &mut String, c: char)
    ensures
        final(s)@ == old(s)@.push(c),
{
    s.push(c)
}

/// Character-by-character string equality, specified as equality of the
/// two views.
pub fn str_eq(a: &str, b: &str) -> (r: bool)
    ensures
        r == (a@ == b@),
{
    let alen = a.unicode_len();
    let blen = b.unicode_len();
    if alen != blen {
        assert(a@.len() != b@.len());
        return false;
    }
    let mut i: usize = 0;
    while i < alen
        invariant
            alen == a@.len(),
            alen == b@.len(),
            i <= alen,
            forall|j: int| 0 <= j < i ==> a@[j] == b@[j],
        decreases alen - i,
    {
        if a.get_char(i) != b.get_char(i) {
            return false;
        }
        i += 1;
    }
    proof {
        assert(a@ =~= b@);
    }
    true
}

/// `needle` occurs in `haystack` starting at position `at`.
pub open spec fn spec_match_at(haystack: Seq<char>, needle: Seq<char>, at: int) -> bool {
    0 <= at && at + needle.len() <= haystack.len() && haystack.subrange(
        at,
        at + needle.len() as int,
    ) == needle
}

/// `needle` occurs somewhere in `haystack`.
pub open spec fn spec_contains(haystack: Seq<char>, needle: Seq<char>) -> bool {
    exists|at: int| spec_match_at(haystack, needle, at)
}

/// Checks whether `needle` occurs in `haystack` starting at `at`.
pub fn match_at(haystack: &str, needle: &str, at: usize) -> (r: bool)
    requires
        at + needle@.len() <= haystack@.len() <= usize::MAX,
    ensures
        r == spec_match_at(haystack@, needle@, at as int),
{
    let nlen = needle.unicode_len();
    let mut j: usize = 0;
    while j < nlen
        invariant
            nlen == needle@.len(),
            at + nlen <= haystack@.len() <= usize::MAX,
            j <= nlen,
            forall|k: int| 0 <= k < j ==> haystack@[at + k] == needle@[k],
        decreases nlen - j,
    {
        if haystack.get_char(at + j) != needle.get_char(j) {
            proof {
                assert(haystack@.subrange(at as int, at + nlen as int)[j as int] != needle@[
                    j as int
                ]);
            }
            return false;
        }
        j += 1;
    }
    proof {
        assert(haystack@.subrange(at as int, at + nlen as int) =~= needle@);
    }
    true
}

/// Left-to-right, non-overlapping replacement of every occurrence of
/// `k` by `v` in `s`. At each position, a match of `k` is replaced and
/// scanning resumes after it; otherwise one character is copied.
pub open spec fn spec_replace_all(s: Seq<char>, k: Seq<char>, v: Seq<char>) -> Seq<char>
    recommends
        k.len() > 0,
    decreases s.len(),
{
    if s.len() == 0 || k.len() == 0 {
        s
    } else if k.len() <= s.len() && s.subrange(0, k.len() as int) == k {
        v + spec_replace_all(s.skip(k.len() as int), k, v)
    } else {
        seq![s[0]] + spec_replace_all(s.skip(1), k, v)
    }
}

/// Replaces every occurrence of `k` in `s` by `v`, left to right and
/// without rescanning replaced text.
pub fn replace_all(s: &str, k: &str, v: &str) -> (r: String)
    requires
        k@.len() > 0,
    ensures
        r@ == spec_replace_all(s@, k@, v@),
{
    let slen = s.unicode_len();
    let klen = k.unicode_len();
    let mut out = String::new();
    let mut i: usize = 0;
    proof {
        assert(s@.skip(0) =~= s@);
        assert(out@ + spec_replace_all(s@, k@, v@) =~= spec_replace_all(s@, k@, v@));
    }
    while i < slen
        invariant
            slen == s@.len(),
            klen == k@.len(),
            klen > 0,
            i <= slen,
            spec_replace_all(s@, k@, v@) == out@ + spec_replace_all(s@.skip(i as int), k@, v@),
        decreases slen - i,
    {
        let ghost rem = s@.skip(i as int);
        if klen <= slen && i <= slen - klen && match_at(s, k, i) {
            out.append(v);
            proof {
                assert(rem.subrange(0, klen as int) =~= s@.subrange(i as int, i + klen));
                assert(rem.skip(klen as int) =~= s@.skip(i + klen));
                assert(spec_replace_all(rem, k@, v@) == v@ + spec_replace_all(
                    s@.skip(i + klen),
                    k@,
                    v@,
                ));
            }
            i += klen;
        } else {
            push_char(&mut out, s.get_char(i));
            proof {
                if klen <= rem.len() {
                    assert(i + klen <= slen);
                    assert(rem.subrange(0, klen as int) =~= s@.subrange(i as int, i + klen));
                    assert(rem.subrange(0, klen as int) != k@);
                } else {
                    assert(klen > rem.len());
                }
                assert(rem.skip(1) =~= s@.skip(i + 1));
                assert(spec_replace_all(rem, k@, v@) == seq![s@[i as int]] + spec_replace_all(
                    s@.skip(i + 1),
                    k@,
                    v@,
                ));
            }
            i += 1;
        }
    }
    proof {
        assert(s@.skip(slen as int) =~= Seq::<char>::empty());
        assert(out@ + Seq::<char>::empty() =~= out@);
    }
    out
}

/// If `k` does not occur in `s`, replacement leaves `s` unchanged.
pub proof fn lemma_replace_all_absent(s: Seq<char>, k: Seq<char>, v: Seq<char>)
    requires
        k.len() > 0,
        !spec_contains(s, k),
    ensures
        spec_replace_all(s, k, v) == s,
    decreases s.len(),
{
    if s.len() == 0 {
    } else {
        if k.len() <= s.len() && s.subrange(0, k.len() as int) == k {
            assert(spec_match_at(s, k, 0));
            assert(false);
        }
        assert forall|at: int| !spec_match_at(s.skip(1), k, at) by {
            if spec_match_at(s.skip(1), k, at) {
                assert(s.subrange(at + 1, at + 1 + k.len() as int) =~= s.skip(1).subrange(
                    at,
                    at + k.len() as int,
                ));
                assert(spec_match_at(s, k, at + 1));
            }
        }
        lemma_replace_all_absent(s.skip(1), k, v);
        assert(seq![s[0]] + s.skip(1) =~= s);
    }
}

/// Substring search: does `needle` occur anywhere in `haystack`?
pub fn contains_substr(haystack: &str, needle: &str) -> (r: bool)
    ensures
        r == spec_contains(haystack@, needle@),
{
    let hlen = haystack.unicode_len();
    let nlen = needle.unicode_len();
    if nlen > hlen {
        assert(forall|at: int| !spec_match_at(haystack@, needle@, at));
        return false;
    }
    if nlen == 0 {
        proof {
            assert(haystack@.subrange(0, 0) =~= needle@);
            assert(spec_match_at(haystack@, needle@, 0));
        }
        return true;
    }
    let mut i: usize = 0;
    while i <= hlen - nlen
        invariant
            hlen == haystack@.len(),
            nlen == needle@.len(),
            1 <= nlen <= hlen,
            i <= hlen - nlen + 1,
            forall|at: int| 0 <= at < i ==> !spec_match_at(haystack@, needle@, at),
        decreases hlen - nlen + 1 - i,
    {
        if match_at(haystack, needle, i) {
            return true;
        }
        i += 1;
    }
    proof {
        assert(forall|at: int| at > hlen - nlen ==> !spec_match_at(haystack@, needle@, at));
    }
    false
}

} // verus!
