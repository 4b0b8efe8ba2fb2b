//! The scan of the kernel log for crashes.

use vstd::prelude::*;

verus! {

/// The bytes `BUG`, which the kernel logs when it finds itself in a state
/// that must not be.
pub const BUG_MARKER: [u8; 3] = [0x42, 0x55, 0x47];

/// The bytes `UBSAN:`, which start every report of undefined behaviour.
pub const UBSAN_MARKER: [u8; 6] = [0x55, 0x42, 0x53, 0x41, 0x4e, 0x3a];

/// `needle` stands in `haystack` at `at`.
pub open spec fn occurs_at(haystack: Seq<u8>, needle: Seq<u8>, at: int) -> bool {
    &&& 0 <= at
    &&& at + needle.len() <= haystack.len()
    &&& haystack.subrange(at, at + needle.len()) == needle
}

/// `needle` stands somewhere in `haystack`.
pub open spec fn occurs(haystack: Seq<u8>, needle: Seq<u8>) -> bool {
    exists|at: int| occurs_at(haystack, needle, at)
}

/// An entry of the kernel log that reports a crash.
pub open spec fn reports_crash(line: Seq<u8>) -> bool {
    occurs(line, BUG_MARKER@) || occurs(line, UBSAN_MARKER@)
}

/// Whether `needle` stands in `haystack` at `at`.
pub fn matches_at(haystack: &[u8], needle: &[u8], at: usize) -> (found: bool)
    requires
        at + needle.len() <= haystack.len(),
    ensures
        found == occurs_at(haystack@, needle@, at as int),
{
    let mut j: usize = 0;
    while j < needle.len()
        invariant
            j <= needle.len(),
            at + needle.len() <= haystack.len(),
            forall|k: int| 0 <= k < j ==> haystack@[at + k] == needle@[k],
        decreases needle.len() - j,
    {
        if haystack[at + j] != needle[j] {
            assert(haystack@.subrange(at as int, at + needle@.len())[j as int] != needle@[j as int]);
            return false;
        }
        j += 1;
    }
    assert(haystack@.subrange(at as int, at + needle@.len()) =~= needle@);
    true
}

/// Whether `needle` stands somewhere in `haystack`.
pub fn contains_bytes(haystack: &[u8], needle: &[u8]) -> (found: bool)
    ensures
        found == occurs(haystack@, needle@),
{
    if needle.len() > haystack.len() {
        return false;
    }
    let last: usize = haystack.len() - needle.len();
    let mut at: usize = 0;
    while at < last
        invariant
            at <= last,
            last == haystack.len() - needle.len(),
            needle.len() <= haystack.len(),
            forall|k: int| 0 <= k < at ==> !occurs_at(haystack@, needle@, k),
        decreases last - at,
    {
        if matches_at(haystack, needle, at) {
            return true;
        }
        at += 1;
    }
    matches_at(haystack, needle, last)
}

/// Whether an entry of the kernel log reports a crash.
pub fn line_reports_crash(line: &[u8]) -> (crash: bool)
    ensures
        crash == reports_crash(line@),
{
    contains_bytes(line, BUG_MARKER.as_slice()) || contains_bytes(line, UBSAN_MARKER.as_slice())
}

} // verus!
