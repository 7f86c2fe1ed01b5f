//! Substring search over bytes and text.

use vstd::prelude::*;

verus! {

/// Whether `needle` occurs in `haystack`; the empty needle occurs everywhere.
pub open spec fn occurs_in(haystack: Seq<u8>, needle: Seq<u8>) -> bool {
    exists|i: int| 0 <= i <= haystack.len() - needle.len() && #[trigger] haystack.subrange(i, i + needle.len()) == needle
}

fn matches_at(haystack: &[u8], needle: &[u8], at: usize) -> (found: bool)
    requires
        at + needle@.len() <= haystack@.len(),
    ensures
        found == (haystack@.subrange(at as int, at + needle@.len()) == needle@),
{
    let n = haystack.len();
    let mut j: usize = 0;
    while j < needle.len()
        invariant
            n == haystack@.len(),
            at + needle@.len() <= haystack@.len(),
            j <= needle@.len(),
            forall|k: int| 0 <= k < j ==> haystack@[at + k] == needle@[k],
        decreases needle@.len() - j,
    {
        if haystack[at + j] != needle[j] {
            assert(haystack@.subrange(at as int, at + needle@.len())[j as int] != needle@[j as int]);
            return false;
        }
        j = j + 1;
    }
    assert(haystack@.subrange(at as int, at + needle@.len()) =~= needle@);
    true
}

/// Whether `needle` occurs in `haystack`.
pub fn contains_bytes(haystack: &[u8], needle: &[u8]) -> (found: bool)
    ensures
        found == occurs_in(haystack@, needle@),
{
    if needle.len() == 0 {
        assert(haystack@.subrange(0int, 0int + needle@.len()) =~= needle@);
        return true;
    }
    if needle.len() > haystack.len() {
        return false;
    }
    let n = haystack.len();
    let last = n - needle.len();
    let mut i: usize = 0;
    while i <= last
        invariant
            n == haystack@.len(),
            needle@.len() >= 1,
            last == haystack@.len() - needle@.len(),
            i <= last + 1,
            forall|k: int| 0 <= k < i ==> #[trigger] haystack@.subrange(k, k + needle@.len()) != needle@,
        decreases last + 1 - i,
    {
        if matches_at(haystack, needle, i) {
            return true;
        }
        i = i + 1;
    }
    false
}

/// Whether the text `needle` occurs in the text `haystack`, compared by
/// their UTF-8 bytes.
pub fn contains_utf8(haystack: &str, needle: &str) -> (found: bool)
    ensures
        found == occurs_in(vstd::utf8::encode_utf8(haystack@), vstd::utf8::encode_utf8(needle@)),
{
    contains_bytes(haystack.as_bytes(), needle.as_bytes())
}

} // verus!
