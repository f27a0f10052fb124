//! Token issuance and bearer-credential verification for the kapitalist
//! personal-finance API, together with the request and response payload
//! types its endpoints exchange.

pub mod api;
pub mod ascii;
pub mod auth;
pub mod b64;
pub mod cfg;
pub mod claims;
pub(crate) mod clock;
pub mod crypto;
pub mod json;
pub mod num;
pub mod request;
pub mod response;
pub mod token;
pub mod transaction;
pub mod wallet;

use vstd::prelude::*;

verus! {

/// Fixed issuer and audience identifier carried in every token this
/// service issues.
pub const SERVICE_NAME: &'static str = "kapitalist";

} // verus!
