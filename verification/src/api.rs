//! The static endpoints of the service.

use vstd::prelude::*;

use vstd::string::StringExecFns;

verus! {

/// Handles `GET /`: reports that the service is up, with its name and
/// version.
pub fn index() -> (r: String)
    ensures
        r@ == "kapitalist v0.1.0 is running"@,
{
    String::from_str("kapitalist v0.1.0 is running")
}

} // verus!
