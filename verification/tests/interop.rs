//! Wire-format compatibility with jsonwebtoken itself: tokens this
//! library issues decode and validate there, and material signed by
//! jsonwebtoken verifies here.

use jsonwebtoken::{decode, Algorithm, DecodingKey, EncodingKey, Validation};
use kapitalist::auth::{check_token_at, issue, issue_at, User};
use kapitalist::b64::b64_encode;
use kapitalist::cfg::Config;

const SECRET: &[u8] = b"interop secret";
const NOW: i64 = 1_700_000_000;

#[test]
fn issued_token_decodes_with_jsonwebtoken() {
    let cfg = Config::new(SECRET.to_vec());
    // issue against the real clock so jsonwebtoken's expiry check passes
    let token = issue("auth", 42, &cfg);
    let mut validation = Validation::new(Algorithm::HS256);
    validation.set_audience(&["kapitalist"]);
    let data = decode::<serde_json::Value>(
        &token,
        &DecodingKey::from_secret(SECRET),
        &validation,
    )
    .unwrap();
    assert_eq!(data.header.alg, Algorithm::HS256);
    assert_eq!(data.claims.get("iss").unwrap().as_str(), Some("kapitalist"));
    assert_eq!(data.claims.get("aud").unwrap().as_str(), Some("kapitalist"));
    assert_eq!(data.claims.get("sub").unwrap().as_str(), Some("auth"));
    assert_eq!(data.claims.get("uid").unwrap().as_i64(), Some(42));
}

#[test]
fn issued_token_rejected_there_under_other_secret() {
    let cfg = Config::new(SECRET.to_vec());
    let token = issue("auth", 42, &cfg);
    let mut validation = Validation::new(Algorithm::HS256);
    validation.set_audience(&["kapitalist"]);
    let r = decode::<serde_json::Value>(
        &token,
        &DecodingKey::from_secret(b"a different secret"),
        &validation,
    );
    assert!(r.is_err());
}

#[test]
fn token_signed_by_jsonwebtoken_verifies_here() {
    let cfg = Config::new(SECRET.to_vec());
    // assemble the canonical signing input by hand and let
    // jsonwebtoken produce the signature
    let header = b"{\"alg\":\"HS256\",\"typ\":\"JWT\"}".to_vec();
    let payload = format!(
        "{{\"iss\":\"kapitalist\",\"sub\":\"auth\",\"aud\":\"kapitalist\",\"iat\":{},\"exp\":{},\"uid\":7}}",
        NOW,
        NOW + 600
    );
    let mut message = b64_encode(&header);
    message.push(b'.');
    message.extend_from_slice(&b64_encode(&payload.into_bytes()));
    let sig = jsonwebtoken::crypto::sign(
        &message,
        &EncodingKey::from_secret(SECRET),
        Algorithm::HS256,
    )
    .unwrap();
    let token = format!("{}.{}", String::from_utf8(message).unwrap(), sig);
    let r = check_token_at(&format!("Bearer {}", token), &cfg, NOW);
    assert_eq!(r, Ok(User { user_id: 7 }));
}

#[test]
fn signature_depends_on_the_message() {
    let cfg = Config::new(SECRET.to_vec());
    let a = issue_at("auth", 1, &cfg, NOW);
    let b = issue_at("auth", 2, &cfg, NOW);
    let parts_a: Vec<&str> = a.split('.').collect();
    let parts_b: Vec<&str> = b.split('.').collect();
    assert_eq!(parts_a.len(), 3);
    assert_ne!(parts_a[2], parts_b[2]);
    // and the signature is not a copy of the payload segment
    assert_ne!(parts_a[1], parts_a[2]);
}
