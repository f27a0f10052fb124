//! Route handlers of the transaction endpoints that are not yet
//! backed by the store: each answers with the route it serves.

use vstd::prelude::*;

use vstd::string::StringExecFns;

use crate::ascii::chars_of_bytes;
use crate::num::{dec_int, dec_nat, i64_to_string, u64_to_string};

verus! {

/// Handles `POST /transaction`.
pub fn post() -> (r: &'static str)
    ensures
        r@ == "POST /transaction"@,
{
    "POST /transaction"
}

/// Handles `GET /transaction/{id}`.
pub fn get(id: u64) -> (r: String)
    ensures
        r@ == "GET /transaction/"@ + chars_of_bytes(dec_nat(id as nat)),
{
    let mut s = String::from_str("GET /transaction/");
    let num = u64_to_string(id);
    s.append(num.as_str());
    s
}

/// Handles `PUT /transaction/{id}`.
pub fn put(id: i64) -> (r: String)
    ensures
        r@ == "PUT /transaction/"@ + chars_of_bytes(dec_int(id as int)),
{
    let mut s = String::from_str("PUT /transaction/");
    let num = i64_to_string(id);
    s.append(num.as_str());
    s
}

} // verus!
