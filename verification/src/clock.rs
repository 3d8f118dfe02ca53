//! Reading the wall clock.

use vstd::prelude::*;

verus! {

/// Relies on `chrono::Utc::now` and `chrono::DateTime::timestamp_millis`:
/// the current UTC time in milliseconds since the Unix epoch. The value
/// depends on when the call runs, so nothing is promised about it;
/// callers state what holds whatever came back.
#[verifier::external_body]
pub fn utc_now_ms() -> (r: i64) {
    chrono::Utc::now().timestamp_millis()
}

} // verus!
