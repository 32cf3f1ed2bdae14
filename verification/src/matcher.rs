//! The pattern matcher.
//!
//! A line matches a pattern when the pattern occurs in it as a contiguous
//! byte-for-byte substring.  Case-insensitive matching compares the
//! lowercase folding of the line against a pattern that the query has
//! already folded once at construction time, so no work on the pattern is
//! repeated per line.  An empty pattern occurs in every line, including an
//! empty one; a pattern longer than the line never occurs.

use vstd::prelude::*;
use crate::ascii::fold_seq;
use crate::ascii::lemma_fold_seq_subrange;

verus! {

/// `needle` occurs in `hay` as the substring that starts at position `i`.
pub open spec fn occurs_at(hay: Seq<u8>, needle: Seq<u8>, i: int) -> bool {
    0 <= i && i + needle.len() <= hay.len() && hay.subrange(i, i + needle.len()) == needle
}

/// `hay` contains `needle` as a contiguous byte-for-byte substring.
pub open spec fn contains_seq(hay: Seq<u8>, needle: Seq<u8>) -> bool {
    exists|i: int| occurs_at(hay, needle, i)
}

/// An empty needle occurs in every haystack.
pub proof fn lemma_contains_empty(hay: Seq<u8>, needle: Seq<u8>)
    requires
        needle.len() == 0,
    ensures
        contains_seq(hay, needle),
{
    assert(hay.subrange(0, 0) =~= needle);
    assert(occurs_at(hay, needle, 0));
}

/// Lowercase folding preserves substring occurrence: wherever a needle
/// occurs in a haystack, its folding occurs in the folded haystack.
pub proof fn lemma_fold_preserves_contains(hay: Seq<u8>, needle: Seq<u8>)
    requires
        contains_seq(hay, needle),
    ensures
        contains_seq(fold_seq(hay), fold_seq(needle)),
{
    let i = choose|i: int| occurs_at(hay, needle, i);
    lemma_fold_seq_subrange(hay, i, i + needle.len());
    assert(occurs_at(fold_seq(hay), fold_seq(needle), i));
}

/// A line matches a stored pattern under the given case sensitivity.
/// Case-sensitive queries keep the pattern as given and compare it against
/// the raw line; case-insensitive queries store the pattern already folded
/// to lowercase and compare it against the folded line.
pub open spec fn line_matches(pattern: Seq<u8>, case_sensitive: bool, line: Seq<u8>) -> bool {
    if case_sensitive {
        contains_seq(line, pattern)
    } else {
        contains_seq(fold_seq(line), pattern)
    }
}

/// A line that matches a pattern case-sensitively also matches the folded
/// pattern case-insensitively.
pub proof fn lemma_sensitive_implies_insensitive(pattern: Seq<u8>, line: Seq<u8>)
    requires
        line_matches(pattern, true, line),
    ensures
        line_matches(fold_seq(pattern), false, line),
{
    lemma_fold_preserves_contains(line, pattern);
}

/// `needle` occurs in `hay` starting exactly at position `i`.
fn match_at(hay: &Vec<u8>, needle: &Vec<u8>, i: usize) -> (r: bool)
    requires
        i + needle@.len() <= hay@.len(),
    ensures
        r == occurs_at(hay@, needle@, i as int),
{
    let h = hay.len();
    let n = needle.len();
    let mut j: usize = 0;
    while j < n
        invariant
            h == hay@.len(),
            n == needle@.len(),
            i + n <= h,
            j <= n,
            forall|k: int| 0 <= k < j ==> hay@[i + k] == needle@[k],
        decreases n - j,
    {
        if hay[i + j] != needle[j] {
            proof {
                assert(hay@.subrange(i as int, i + needle@.len())[j as int] == hay@[i + j]);
            }
            return false;
        }
        j += 1;
    }
    proof {
        assert(hay@.subrange(i as int, i + needle@.len()) =~= needle@);
    }
    true
}

/// Executable substring search: does `hay` contain `needle`?
pub fn contains_bytes(hay: &Vec<u8>, needle: &Vec<u8>) -> (r: bool)
    ensures
        r == contains_seq(hay@, needle@),
{
    let h = hay.len();
    let n = needle.len();
    if n == 0 {
        proof {
            lemma_contains_empty(hay@, needle@);
        }
        return true;
    }
    if n > h {
        return false;
    }
    let mut i: usize = 0;
    while i <= h - n
        invariant
            h == hay@.len(),
            n == needle@.len(),
            1 <= n <= h,
            i <= h - n + 1,
            forall|j: int| 0 <= j < i ==> !occurs_at(hay@, needle@, j),
        decreases h - n - i + 1,
    {
        if match_at(hay, needle, i) {
            return true;
        }
        i += 1;
    }
    false
}

} // verus!
