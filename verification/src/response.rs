//! Response payloads the API hands back to clients.

use vstd::prelude::*;

verus! {

/// The error payload returned to clients; its message never reveals
/// the internal cause of an authorization failure.
#[derive(Debug)]
pub struct ErrorResponse {
    pub error: String,
}

impl ErrorResponse {
    /// An error response with the given message.
    pub fn new(err: &str) -> (r: ErrorResponse)
        ensures
            r.error@ == err@,
    {
        ErrorResponse { error: err.to_owned() }
    }

    /// The uniform response for server-side failures.
    pub fn server_error() -> (r: ErrorResponse)
        ensures
            r.error@ == "Internal server error"@,
    {
        ErrorResponse::new("Internal server error")
    }

    /// The response of endpoints that are not implemented yet.
    pub fn not_implemented() -> (r: ErrorResponse)
        ensures
            r.error@ == "Not implemented yet"@,
    {
        ErrorResponse::new("Not implemented yet")
    }
}

/// The payload that hands a freshly issued token to the client.
#[derive(Debug)]
pub struct TokenResponse {
    pub token: String,
}

} // verus!
