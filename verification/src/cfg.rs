//! Issuer and verifier configuration: the symmetric signing secret and
//! the time windows.
//!
//! The secret is injected once at construction and read-only
//! afterwards; issuance and verification share it.

use vstd::prelude::*;

use crate::claims::DEFAULT_VALIDITY_SECS;

verus! {

/// The default clock-skew leeway applied to time-bound checks: sixty
/// seconds.
pub const DEFAULT_LEEWAY_SECS: i64 = 60;

/// The largest accepted validity window: one leap year, in seconds.
pub const MAX_VALIDITY_SECS: i64 = 31_622_400;

/// The largest accepted leeway: one day, in seconds.
pub const MAX_LEEWAY_SECS: i64 = 86_400;

/// Token configuration: the signing secret, shared between issuance
/// and verification, the validity window of fresh tokens, and the
/// clock-skew leeway of the time-bound checks.
pub struct Config {
    /// The symmetric secret that signs and verifies every token.
    pub secret: Vec<u8>,
    /// How long a fresh token stays valid, in seconds.
    pub validity_secs: i64,
    /// The tolerated clock skew of the time-bound checks, in seconds.
    pub leeway_secs: i64,
}

impl Config {
    /// Whether the windows lie within the accepted ranges.
    pub open spec fn wf(self) -> bool {
        0 < self.validity_secs <= MAX_VALIDITY_SECS && 0 <= self.leeway_secs
            <= MAX_LEEWAY_SECS
    }

    /// A configuration with the given secret and the default windows:
    /// seven days of validity and sixty seconds of leeway.
    pub fn new(secret: Vec<u8>) -> (r: Config)
        ensures
            r.secret == secret,
            r.validity_secs == DEFAULT_VALIDITY_SECS,
            r.leeway_secs == DEFAULT_LEEWAY_SECS,
            r.wf(),
    {
        Config {
            secret: secret,
            validity_secs: DEFAULT_VALIDITY_SECS,
            leeway_secs: DEFAULT_LEEWAY_SECS,
        }
    }

    /// A configuration with explicit windows.
    pub fn with_windows(secret: Vec<u8>, validity_secs: i64, leeway_secs: i64) -> (r: Config)
        requires
            0 < validity_secs <= MAX_VALIDITY_SECS,
            0 <= leeway_secs <= MAX_LEEWAY_SECS,
        ensures
            r.secret == secret,
            r.validity_secs == validity_secs,
            r.leeway_secs == leeway_secs,
            r.wf(),
    {
        Config { secret: secret, validity_secs: validity_secs, leeway_secs: leeway_secs }
    }
}

} // verus!
