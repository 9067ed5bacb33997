//! Character-level helpers shared by the parsers.
//!
//! Every position in this crate is a character index into the view of a
//! string (`Seq<char>`), never a byte offset, so no slice can fall inside a
//! multi-byte character.

use vstd::prelude::*;
use vstd::string::*;

verus! {

/// `needle` occurs in `hay` starting at index `at`.
pub open spec fn occurs_at(hay: Seq<char>, needle: Seq<char>, at: int) -> bool {
    &&& 0 <= at
    &&& at + needle.len() <= hay.len()
    &&& hay.subrange(at, at + needle.len()) == needle
}

/// The first index at or after `from` where `needle` occurs in `hay`.
pub open spec fn first_occurrence_from(hay: Seq<char>, needle: Seq<char>, from: int) -> Option<int>
    decreases hay.len() + 1 - from,
{
    if from < 0 || from + needle.len() > hay.len() {
        None
    } else if occurs_at(hay, needle, from) {
        Some(from)
    } else {
        first_occurrence_from(hay, needle, from + 1)
    }
}

/// The first index where `needle` occurs in `hay`, if it occurs at all.
pub open spec fn first_occurrence(hay: Seq<char>, needle: Seq<char>) -> Option<int> {
    first_occurrence_from(hay, needle, 0)
}

/// `first_occurrence_from` returns the least matching index, and `None`
/// exactly when there is no match at or after `from`.
pub proof fn lemma_first_occurrence_from(hay: Seq<char>, needle: Seq<char>, from: int)
    requires
        0 <= from,
    ensures
        match first_occurrence_from(hay, needle, from) {
            Some(p) => {
                &&& from <= p
                &&& occurs_at(hay, needle, p)
                &&& forall|q: int| from <= q < p ==> !occurs_at(hay, needle, q)
            },
            None => forall|q: int| from <= q ==> !occurs_at(hay, needle, q),
        },
    decreases hay.len() + 1 - from,
{
    if from + needle.len() > hay.len() {
    } else if occurs_at(hay, needle, from) {
    } else {
        lemma_first_occurrence_from(hay, needle, from + 1);
    }
}

/// Copies the characters of `s` into a vector, so that the scanners can
/// index them in constant time.
pub fn to_chars(s: &str) -> (v: Vec<char>)
    ensures
        v@ == s@,
{
    let mut v: Vec<char> = Vec::new();
    for c in it: s.chars()
        invariant
            v@ == it.seq().take(it.index() as int),
            it.seq() == s@,
    {
        v.push(c);
    }
    v
}

/// Whether `needle` occurs in `hay` at index `at`.
pub fn matches_at(hay: &[char], needle: &[char], at: usize) -> (r: bool)
    requires
        at + needle@.len() <= hay@.len(),
    ensures
        r == occurs_at(hay@, needle@, at as int),
{
    let n = hay.len();
    let m = needle.len();
    let mut j: usize = 0;
    while j < m
        invariant
            n == hay@.len(),
            m == needle@.len(),
            at + m <= n,
            j <= m,
            forall|k: int| 0 <= k < j ==> hay@[at + k] == needle@[k],
        decreases m - j,
    {
        if hay[at + j] != needle[j] {
            proof {
                let window = hay@.subrange(at as int, at + m);
                assert(window[j as int] == hay@[at + j]);
            }
            return false;
        }
        j += 1;
    }
    assert(hay@.subrange(at as int, at + m) =~= needle@);
    true
}

/// Position of the first occurrence of `needle` in `hay`.
pub fn find(hay: &[char], needle: &[char]) -> (r: Option<usize>)
    ensures
        match r {
            Some(p) => first_occurrence(hay@, needle@) == Some(p as int),
            None => first_occurrence(hay@, needle@) is None,
        },
{
    let n = hay.len();
    let m = needle.len();
    if m > n {
        return None;
    }
    let last: usize = n - m;
    let mut p: usize = 0;
    loop
        invariant
            n == hay@.len(),
            m == needle@.len(),
            m <= n,
            last == n - m,
            p <= last,
            first_occurrence(hay@, needle@) == first_occurrence_from(hay@, needle@, p as int),
        decreases last - p,
    {
        if matches_at(hay, needle, p) {
            return Some(p);
        }
        if p == last {
            assert(first_occurrence_from(hay@, needle@, p + 1) is None);
            return None;
        }
        p += 1;
    }
}

/// Copies the characters `from..to` of `s` into an owned string.
pub fn substring(s: &str, from: usize, to: usize) -> (r: String)
    requires
        from <= to <= s@.len(),
    ensures
        r@ == s@.subrange(from as int, to as int),
{
    s.substring_char(from, to).to_owned()
}

/// Whether two strings hold the same characters.
pub fn same_text(a: &str, b: &str) -> (r: bool)
    ensures
        r == (a@ == b@),
{
    a.to_owned() == b.to_owned()
}

} // verus!
