//! Wall-clock access for token issuance and verification.

use vstd::prelude::*;

verus! {

/// Relies on std's `SystemTime::now` and its distance from
/// `UNIX_EPOCH`: the current wall-clock time in whole seconds since
/// the Unix epoch, negative when the host clock lies before the
/// epoch. Every reading maps to a value and no path panics; nothing
/// is promised of the value, so callers handle every outcome.
#[verifier::external_body]
pub(crate) fn now_seconds() -> i64 {
    match std::time::SystemTime::now().duration_since(std::time::UNIX_EPOCH) {
        Ok(d) => i64::try_from(d.as_secs()).unwrap_or(i64::MAX),
        Err(e) => -(i64::try_from(e.duration().as_secs()).unwrap_or(i64::MAX)),
    }
}

} // verus!
