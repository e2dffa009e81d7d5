//! Character-level text utilities: conversion between `String` and
//! `Vec<char>`, Unicode lowercasing, substring search and lexicographic
//! comparison. Comparisons are by Unicode scalar value, which matches the
//! byte order of UTF-8 encoded strings.

use vstd::prelude::*;
use vstd::string::*;

verus! {

/// The sequence of characters of `str::to_lowercase`, a function of the
/// input characters alone.
pub uninterp spec fn lower_of(s: Seq<char>) -> Seq<char>;

/// Relies on str::to_lowercase: the result depends on the characters alone;
/// lowercasing the empty string yields the empty string.
#[verifier::external_body]
pub fn lowercase(s: &str) -> (r: String)
    ensures
        r@ == lower_of(s@),
        s@.len() == 0 ==> r@.len() == 0,
{
    s.to_lowercase()
}

/// Relies on `Iterator::collect` for `String`: collecting characters yields
/// the string of exactly those characters, in order.
#[verifier::external_body]
pub fn string_from_chars(v: &Vec<char>) -> (r: String)
    ensures
        r@ == v@,
{
    v.iter().collect()
}

/// The characters of a string slice, as a vector.
pub fn chars_vec(s: &str) -> (r: Vec<char>)
    ensures
        r@ == s@,
{
    let n = s.unicode_len();
    let mut r: Vec<char> = Vec::new();
    let mut i: usize = 0;
    while i < n
        invariant
            n == s@.len(),
            i <= n,
            r@ == s@.subrange(0, i as int),
        decreases n - i,
    {
        let c = s.get_char(i);
        r.push(c);
        proof {
            assert(r@ =~= s@.subrange(0, i + 1));
        }
        i = i + 1;
    }
    proof {
        assert(r@ =~= s@);
    }
    r
}

/// `needle` occurs in `hay` starting at position `i`.
pub open spec fn match_at(hay: Seq<char>, needle: Seq<char>, i: int) -> bool {
    &&& 0 <= i
    &&& i + needle.len() <= hay.len()
    &&& forall|j: int| 0 <= j < needle.len() ==> hay[i + j] == needle[j]
}

/// `needle` occurs somewhere in `hay`; the empty sequence occurs everywhere.
pub open spec fn contains_seq(hay: Seq<char>, needle: Seq<char>) -> bool {
    exists|i: int| match_at(hay, needle, i)
}

/// Substring search by scalar-value equality.
pub fn contains_chars(hay: &Vec<char>, needle: &Vec<char>) -> (r: bool)
    ensures
        r == contains_seq(hay@, needle@),
{
    let hn = hay.len();
    let nn = needle.len();
    if nn > hn {
        assert(forall|i: int| !match_at(hay@, needle@, i));
        return false;
    }
    let mut i: usize = 0;
    while i <= hn - nn
        invariant
            nn <= hn == hay@.len(),
            nn == needle@.len(),
            i <= hn - nn + 1,
            forall|k: int| 0 <= k < i ==> !match_at(hay@, needle@, k),
        decreases hn - i,
    {
        let mut j: usize = 0;
        let mut all_eq: bool = true;
        while j < nn
            invariant
                nn <= hn == hay@.len(),
                nn == needle@.len(),
                i + nn <= hn,
                j <= nn,
                all_eq == (forall|k: int| 0 <= k < j ==> hay@[i + k] == needle@[k]),
            decreases nn - j,
        {
            if hay[i + j] != needle[j] {
                all_eq = false;
            }
            j = j + 1;
        }
        if all_eq {
            assert(match_at(hay@, needle@, i as int));
            return true;
        }
        i = i + 1;
    }
    assert forall|k: int| !match_at(hay@, needle@, k) by {
        if 0 <= k && k + nn <= hn {
            assert(!match_at(hay@, needle@, k));
        }
    }
    false
}

/// Whether `char::is_whitespace` holds, a function of the character alone.
pub uninterp spec fn is_space(c: char) -> bool;

/// Relies on char::is_whitespace: the Unicode White_Space property of the
/// character alone.
#[verifier::external_body]
pub fn char_is_whitespace(c: char) -> (r: bool)
    ensures
        r == is_space(c),
{
    c.is_whitespace()
}

/// `s` with leading and trailing whitespace removed.
pub open spec fn trim_spec(s: Seq<char>) -> Seq<char>
    decreases s.len(),
{
    if s.len() > 0 && is_space(s[0]) {
        trim_spec(s.drop_first())
    } else if s.len() > 0 && is_space(s.last()) {
        trim_spec(s.drop_last())
    } else {
        s
    }
}

/// Removes leading and trailing whitespace from a character vector.
pub fn trim_chars(s: &Vec<char>) -> (r: Vec<char>)
    ensures
        r@ == trim_spec(s@),
{
    let mut lo: usize = 0;
    let mut hi: usize = s.len();
    proof {
        assert(s@.subrange(0, s@.len() as int) =~= s@);
    }
    while lo < hi
        invariant
            lo <= hi <= s@.len(),
            trim_spec(s@) == trim_spec(s@.subrange(lo as int, hi as int)),
        decreases hi - lo,
    {
        let ghost cur = s@.subrange(lo as int, hi as int);
        if char_is_whitespace(s[lo]) {
            proof {
                assert(cur[0] == s@[lo as int]);
                assert(cur.drop_first() =~= s@.subrange(lo + 1, hi as int));
            }
            lo = lo + 1;
        } else if char_is_whitespace(s[hi - 1]) {
            proof {
                assert(cur[0] == s@[lo as int]);
                assert(cur.last() == s@[hi - 1]);
                assert(cur.drop_last() =~= s@.subrange(lo as int, hi - 1));
            }
            hi = hi - 1;
        } else {
            proof {
                assert(cur[0] == s@[lo as int]);
                assert(cur.last() == s@[hi - 1]);
                assert(trim_spec(cur) == cur);
            }
            let mut r: Vec<char> = Vec::new();
            let mut k: usize = lo;
            while k < hi
                invariant
                    lo <= k <= hi <= s@.len(),
                    r@ == s@.subrange(lo as int, k as int),
                decreases hi - k,
            {
                r.push(s[k]);
                proof {
                    assert(r@ =~= s@.subrange(lo as int, k + 1));
                }
                k = k + 1;
            }
            return r;
        }
    }
    proof {
        assert(s@.subrange(lo as int, hi as int) =~= Seq::<char>::empty());
        assert(trim_spec(Seq::<char>::empty()) =~= Seq::<char>::empty());
    }
    Vec::new()
}

/// Appends the characters of `s` to `v`.
pub fn push_chars(v: &mut Vec<char>, s: &str)
    ensures
        final(v)@ == old(v)@ + s@,
{
    let n = s.unicode_len();
    let mut i: usize = 0;
    proof {
        assert(v@ =~= old(v)@ + s@.subrange(0, 0));
    }
    while i < n
        invariant
            n == s@.len(),
            i <= n,
            v@ == old(v)@ + s@.subrange(0, i as int),
        decreases n - i,
    {
        v.push(s.get_char(i));
        proof {
            assert(v@ =~= old(v)@ + s@.subrange(0, i + 1));
        }
        i = i + 1;
    }
    proof {
        assert(s@.subrange(0, n as int) =~= s@);
    }
}

/// String equality against a literal.
pub fn str_eq(s: &String, lit: &str) -> (r: bool)
    ensures
        r == (s@ == lit@),
{
    s.eq(&lit.to_owned())
}

/// `prefix + middle` as one string.
pub fn join2(prefix: &str, middle: &str) -> (r: String)
    ensures
        r@ == prefix@ + middle@,
{
    let mut s = prefix.to_owned();
    s.append(middle);
    s
}

/// `prefix + middle + suffix` as one string.
pub fn join3(prefix: &str, middle: &str, suffix: &str) -> (r: String)
    ensures
        r@ == prefix@ + middle@ + suffix@,
{
    let mut s = prefix.to_owned();
    s.append(middle);
    s.append(suffix);
    s
}

/// Lexicographic "less than or equal" on character sequences, comparing
/// Unicode scalar values position by position.
pub open spec fn lex_le(a: Seq<char>, b: Seq<char>) -> bool
    decreases a.len(),
{
    if a.len() == 0 {
        true
    } else if b.len() == 0 {
        false
    } else if (a[0] as u32) < (b[0] as u32) {
        true
    } else if (a[0] as u32) > (b[0] as u32) {
        false
    } else {
        lex_le(a.skip(1), b.skip(1))
    }
}

/// `lex_le` relates every pair of sequences one way or the other.
pub proof fn lemma_lex_le_total(a: Seq<char>, b: Seq<char>)
    ensures
        lex_le(a, b) || lex_le(b, a),
    decreases a.len(),
{
    if a.len() == 0 || b.len() == 0 {
    } else if (a[0] as u32) == (b[0] as u32) {
        lemma_lex_le_total(a.skip(1), b.skip(1));
    }
}

/// `lex_le` is transitive.
pub proof fn lemma_lex_le_trans(a: Seq<char>, b: Seq<char>, c: Seq<char>)
    requires
        lex_le(a, b),
        lex_le(b, c),
    ensures
        lex_le(a, c),
    decreases a.len(),
{
    if a.len() == 0 || b.len() == 0 || c.len() == 0 {
    } else if (a[0] as u32) == (b[0] as u32) && (b[0] as u32) == (c[0] as u32) {
        lemma_lex_le_trans(a.skip(1), b.skip(1), c.skip(1));
    }
}

/// Lexicographic comparison of character vectors.
pub fn lex_le_chars(a: &Vec<char>, b: &Vec<char>) -> (r: bool)
    ensures
        r == lex_le(a@, b@),
{
    let mut i: usize = 0;
    let an = a.len();
    let bn = b.len();
    proof {
        assert(a@.skip(0) =~= a@);
        assert(b@.skip(0) =~= b@);
    }
    loop
        invariant
            an == a@.len(),
            bn == b@.len(),
            i <= an,
            i <= bn,
            lex_le(a@, b@) == lex_le(a@.skip(i as int), b@.skip(i as int)),
        decreases an - i,
    {
        if i == an {
            assert(lex_le(a@.skip(i as int), b@.skip(i as int)));
            return true;
        }
        if i == bn {
            assert(!lex_le(a@.skip(i as int), b@.skip(i as int)));
            return false;
        }
        let ca = a[i] as u32;
        let cb = b[i] as u32;
        if ca < cb {
            assert(lex_le(a@.skip(i as int), b@.skip(i as int)));
            return true;
        }
        if ca > cb {
            assert(!lex_le(a@.skip(i as int), b@.skip(i as int)));
            return false;
        }
        proof {
            assert(a@.skip(i as int)[0] == a@[i as int]);
            assert(b@.skip(i as int)[0] == b@[i as int]);
            assert(a@.skip(i as int).skip(1) =~= a@.skip(i + 1));
            assert(b@.skip(i as int).skip(1) =~= b@.skip(i + 1));
        }
        i = i + 1;
    }
}

} // verus!
