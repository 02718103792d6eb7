//! Substring containment on texts, and case folding.

use crate::encoding::lemma_utf8_keeps_substrings;
use vstd::prelude::*;

verus! {

/// `needle` stands in `haystack` as a contiguous block that starts at index `at`.
pub open spec fn occurs_at<T>(haystack: Seq<T>, needle: Seq<T>, at: int) -> bool {
    &&& 0 <= at
    &&& at + needle.len() <= haystack.len()
    &&& haystack.subrange(at, at + needle.len()) == needle
}

/// `needle` stands somewhere in `haystack` as a contiguous block.
/// The empty sequence stands in every sequence.
pub open spec fn is_substring<T>(haystack: Seq<T>, needle: Seq<T>) -> bool {
    exists|at: int| occurs_at(haystack, needle, at)
}

/// What `str::to_lowercase` returns for a string with the characters `s`: its
/// lowercase form by the rules of Unicode, which may differ from `s` in length.
pub uninterp spec fn lowercase_of(s: Seq<char>) -> Seq<char>;

/// `str::to_lowercase` is taken on trust. All that is claimed of it is that
/// its result is decided by the characters of the string, whatever the locale
/// and the machine: `lowercase_of` is the name of that result.
pub assume_specification[ str::to_lowercase ](s: &str) -> (lower: String)
    ensures
        lower@ == lowercase_of(s@),
;

/// Whether `needle` stands in `haystack` at index `at`.
fn block_at(haystack: &[u8], needle: &[u8], at: usize) -> (found: bool)
    requires
        at + needle.len() <= haystack.len(),
    ensures
        found == occurs_at(haystack@, needle@, at as int),
{
    let mut k: usize = 0;
    while k < needle.len()
        invariant
            k <= needle.len(),
            at + needle.len() <= haystack.len(),
            forall|j: int| 0 <= j < k ==> haystack@[at + j] == needle@[j],
        decreases needle.len() - k,
    {
        if haystack[at + k] != needle[k] {
            assert(haystack@.subrange(at as int, at + needle.len())[k as int] != needle@[k as int]);
            return false;
        }
        k += 1;
    }
    assert(haystack@.subrange(at as int, at + needle.len()) =~= needle@);
    true
}

/// Whether the bytes `needle` stand in the bytes `haystack` as a contiguous
/// block.
fn contains_block(haystack: &[u8], needle: &[u8]) -> (found: bool)
    ensures
        found == is_substring(haystack@, needle@),
{
    if needle.len() > haystack.len() {
        return false;
    }
    let last: usize = haystack.len() - needle.len();
    let mut at: usize = 0;
    while at < last
        invariant
            at <= last,
            last + needle.len() == haystack.len(),
            forall|i: int| 0 <= i < at ==> !occurs_at(haystack@, needle@, i),
        decreases last - at,
    {
        if block_at(haystack, needle, at) {
            return true;
        }
        at += 1;
    }
    block_at(haystack, needle, last)
}

/// Whether `needle` stands in `haystack` as a contiguous block of characters.
/// The search runs on the bytes of the two strings.
pub fn contains(haystack: &str, needle: &str) -> (found: bool)
    ensures
        found == is_substring(haystack@, needle@),
{
    proof {
        lemma_utf8_keeps_substrings(haystack@, needle@);
    }
    contains_block(haystack.as_bytes(), needle.as_bytes())
}

} // verus!
