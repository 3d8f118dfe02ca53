//! String comparison helpers.
//!
//! Registry lookups compare channel names and connection ids; the admin
//! gate compares the supplied token against the configured one without
//! an early exit, so the time taken does not depend on where the first
//! mismatch sits.

use vstd::prelude::*;

verus! {

/// Character-wise equality with an early exit on the first mismatch.
pub fn eq_str(a: &str, b: &str) -> (r: bool)
    ensures
        r == (a@ == b@),
{
    let n = a.unicode_len();
    if n != b.unicode_len() {
        return false;
    }
    let mut i: usize = 0;
    while i < n
        invariant
            n == a@.len(),
            n == b@.len(),
            i <= n,
            forall|j: int| 0 <= j < i ==> a@[j] == b@[j],
        decreases n - i,
    {
        if a.get_char(i) != b.get_char(i) {
            return false;
        }
        i = i + 1;
    }
    proof {
        assert(a@ =~= b@);
    }
    true
}

/// Equality that always scans the whole string when the lengths agree:
/// used for the admin token so the comparison takes the same time
/// whichever character differs first.
pub fn token_matches(supplied: &str, expected: &str) -> (r: bool)
    ensures
        r == (supplied@ == expected@),
{
    let n = supplied.unicode_len();
    if n != expected.unicode_len() {
        return false;
    }
    let mut all_eq = true;
    let mut i: usize = 0;
    while i < n
        invariant
            n == supplied@.len(),
            n == expected@.len(),
            i <= n,
            all_eq == (forall|j: int| 0 <= j < i ==> supplied@[j] == expected@[j]),
        decreases n - i,
    {
        let same = supplied.get_char(i) == expected.get_char(i);
        all_eq = all_eq && same;
        i = i + 1;
    }
    proof {
        if all_eq {
            assert(supplied@ =~= expected@);
        }
    }
    all_eq
}

} // verus!
