//! The HMAC-SHA256 signature primitive, supplied by jsonwebtoken.
//!
//! Signing and verifying go through jsonwebtoken's `crypto` module
//! with `Algorithm::HS256` and keys built from the configured secret,
//! exactly as token issuance and validation use them.
//!
//! The contracts below assume jsonwebtoken's default crypto provider,
//! the only one its enabled features supply; nothing in this crate,
//! its tests, or its entry point installs another one through
//! `CryptoProvider::install_default`. An embedding process that did so
//! before first use would be changing the primitive these contracts
//! speak of.

use vstd::prelude::*;

use crate::b64::is_b64_byte;

verus! {

/// The base64url-encoded HMAC-SHA256 signature of `msg` under `key`,
/// as jsonwebtoken's signing routine returns it: a function of the
/// key and the message alone.
pub uninterp spec fn hs256_sig_b64(key: Seq<u8>, msg: Seq<u8>) -> Seq<u8>;

/// Relies on jsonwebtoken's `crypto::sign` with `Algorithm::HS256` and
/// an `EncodingKey::from_secret` key. For the HMAC family the call
/// cannot fail: the key factory accepts secrets of any length and
/// HMAC signing itself is infallible, so the unwrap never fires. The
/// result is the base64url (no padding) encoding of the HMAC-SHA256
/// tag: a deterministic function of key and message made of base64url
/// alphabet bytes.
#[verifier::external_body]
pub(crate) fn sign_hs256(msg: &Vec<u8>, key: &Vec<u8>) -> (r: Vec<u8>)
    ensures
        r@ == hs256_sig_b64(key@, msg@),
        forall|i: int| 0 <= i < r@.len() ==> is_b64_byte(#[trigger] r@[i]),
{
    let k = jsonwebtoken::EncodingKey::from_secret(key);
    let s = jsonwebtoken::crypto::sign(msg, &k, jsonwebtoken::Algorithm::HS256).unwrap();
    s.into_bytes()
}

/// Relies on jsonwebtoken's `crypto::verify` with `Algorithm::HS256`
/// and a `DecodingKey::from_secret` key: it recomputes the HMAC-SHA256
/// signature of `msg` and compares, so it returns true exactly when
/// `sig` is the base64url signature that `crypto::sign` produces for
/// this key and message. A `sig` that is not canonical base64url
/// fails its strict decoding inside `verify` and compares false.
#[verifier::external_body]
pub(crate) fn verify_hs256(sig: &Vec<u8>, msg: &Vec<u8>, key: &Vec<u8>) -> (r: bool)
    requires
        forall|i: int| 0 <= i < sig@.len() ==> #[trigger] sig@[i] < 0x80,
    ensures
        r == (sig@ == hs256_sig_b64(key@, msg@)),
{
    let k = jsonwebtoken::DecodingKey::from_secret(key);
    match std::str::from_utf8(sig) {
        Ok(s) => jsonwebtoken::crypto::verify(s, msg, &k, jsonwebtoken::Algorithm::HS256)
            .unwrap_or(false),
        Err(_) => false,
    }
}

} // verus!
