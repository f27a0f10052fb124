//! Route handlers of the wallet endpoints that are not yet backed by
//! the store: each answers with the route it serves.

use vstd::prelude::*;

use vstd::string::StringExecFns;

use crate::ascii::chars_of_bytes;
use crate::num::{dec_nat, u64_to_string};

verus! {

/// Handles `POST /wallet`.
pub fn post() -> (r: &'static str)
    ensures
        r@ == "POST /wallet"@,
{
    "POST /wallet"
}

/// Handles `GET /wallet/{wid}`.
pub fn get(wid: u64) -> (r: String)
    ensures
        r@ == "GET /wallet/"@ + chars_of_bytes(dec_nat(wid as nat)),
{
    let mut s = String::from_str("GET /wallet/");
    let num = u64_to_string(wid);
    s.append(num.as_str());
    s
}

/// Handles `PUT /wallet/{wid}`.
pub fn put(wid: u64) -> (r: String)
    ensures
        r@ == "PUT /wallet/"@ + chars_of_bytes(dec_nat(wid as nat)),
{
    let mut s = String::from_str("PUT /wallet/");
    let num = u64_to_string(wid);
    s.append(num.as_str());
    s
}

/// Handles `GET /wallet/{wid}/transactions`.
pub fn tx_get_all(wid: u64) -> (r: String)
    ensures
        r@ == "GET /wallet/"@ + chars_of_bytes(dec_nat(wid as nat)) + "/transactions"@,
{
    let mut s = String::from_str("GET /wallet/");
    let num = u64_to_string(wid);
    s.append(num.as_str());
    s.append("/transactions");
    s
}

/// Handles `POST /wallet/{wid}/transaction`.
pub fn tx_post(wid: u64) -> (r: String)
    ensures
        r@ == "POST /wallet/"@ + chars_of_bytes(dec_nat(wid as nat)) + "/transaction"@,
{
    let mut s = String::from_str("POST /wallet/");
    let num = u64_to_string(wid);
    s.append(num.as_str());
    s.append("/transaction");
    s
}

/// Handles `GET /wallet/{wid}/transaction/{tid}`; answers with the
/// method name its twin endpoint uses.
pub fn tx_get(wid: u64, tid: u64) -> (r: String)
    ensures
        r@ == "POST /wallet/"@ + chars_of_bytes(dec_nat(wid as nat)) + "/transaction/"@
            + chars_of_bytes(dec_nat(tid as nat)),
{
    let mut s = String::from_str("POST /wallet/");
    let num = u64_to_string(wid);
    s.append(num.as_str());
    s.append("/transaction/");
    let num2 = u64_to_string(tid);
    s.append(num2.as_str());
    s
}

/// Handles `PUT /wallet/{wid}/transaction/{tid}`.
pub fn tx_put(wid: u64, tid: u64) -> (r: String)
    ensures
        r@ == "PUT /wallet/"@ + chars_of_bytes(dec_nat(wid as nat)) + "/transaction/"@
            + chars_of_bytes(dec_nat(tid as nat)),
{
    let mut s = String::from_str("PUT /wallet/");
    let num = u64_to_string(wid);
    s.append(num.as_str());
    s.append("/transaction/");
    let num2 = u64_to_string(tid);
    s.append(num2.as_str());
    s
}

} // verus!
