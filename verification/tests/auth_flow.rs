//! End-to-end behavior of token issuance and bearer verification.

use kapitalist::auth::{check_token, check_token_at, issue, issue_at, verify_candidates_at, AuthError, User};
use kapitalist::cfg::Config;
use kapitalist::claims::TokenClaims;
use kapitalist::token::encode_token;

const NOW: i64 = 1_700_000_000;

fn test_config() -> Config {
    Config::new(b"a very well kept secret".to_vec())
}

fn bearer(token: &str) -> String {
    format!("Bearer {}", token)
}

#[test]
fn issue_then_verify_immediately() {
    let cfg = test_config();
    let token = issue_at("auth", 42, &cfg, NOW);
    let r = check_token_at(&bearer(&token), &cfg, NOW);
    assert_eq!(r, Ok(User { user_id: 42 }));
}

#[test]
fn issue_then_verify_with_clock() {
    let cfg = test_config();
    let token = issue("auth", 42, &cfg);
    let r = check_token(&bearer(&token), &cfg);
    assert_eq!(r, Ok(User { user_id: 42 }));
}

#[test]
fn issue_preserves_other_user_ids() {
    let cfg = test_config();
    for uid in [0i64, 1, -7, i64::MAX, i64::MIN] {
        let token = issue_at("auth", uid, &cfg, NOW);
        let r = check_token_at(&bearer(&token), &cfg, NOW);
        assert_eq!(r, Ok(User { user_id: uid }));
    }
}

#[test]
fn tampered_signature_rejected() {
    let cfg = test_config();
    let token = issue_at("auth", 42, &cfg, NOW);
    let mut bytes = token.into_bytes();
    let n = bytes.len();
    bytes[n - 1] = if bytes[n - 1] == b'A' { b'B' } else { b'A' };
    let tampered = String::from_utf8(bytes).unwrap();
    let r = check_token_at(&bearer(&tampered), &cfg, NOW);
    assert_eq!(r, Err(AuthError::InvalidSignature));
}

#[test]
fn expired_beyond_leeway_rejected() {
    let cfg = test_config();
    let claims = TokenClaims {
        iss: "kapitalist".to_string(),
        sub: "auth".to_string(),
        aud: "kapitalist".to_string(),
        iat: NOW - 4000,
        exp: NOW - 3600,
        uid: 5,
    };
    let token = encode_token(&claims, &cfg.secret);
    let r = check_token_at(&bearer(&token), &cfg, NOW);
    assert_eq!(r, Err(AuthError::Expired));
}

#[test]
fn expired_within_leeway_accepted() {
    let cfg = test_config();
    let claims = TokenClaims {
        iss: "kapitalist".to_string(),
        sub: "auth".to_string(),
        aud: "kapitalist".to_string(),
        iat: NOW - 1000,
        exp: NOW - 30,
        uid: 5,
    };
    let token = encode_token(&claims, &cfg.secret);
    let r = check_token_at(&bearer(&token), &cfg, NOW);
    assert_eq!(r, Ok(User { user_id: 5 }));
}

#[test]
fn issued_far_in_future_rejected() {
    let cfg = test_config();
    let claims = TokenClaims {
        iss: "kapitalist".to_string(),
        sub: "auth".to_string(),
        aud: "kapitalist".to_string(),
        iat: NOW + 3600,
        exp: NOW + 4000,
        uid: 5,
    };
    let token = encode_token(&claims, &cfg.secret);
    let r = check_token_at(&bearer(&token), &cfg, NOW);
    assert_eq!(r, Err(AuthError::NotYetValid));
}

#[test]
fn wrong_scheme_rejected() {
    let cfg = test_config();
    let r = check_token_at("Basic abcdef", &cfg, NOW);
    assert_eq!(r, Err(AuthError::MalformedCredential));
}

#[test]
fn malformed_header_shapes_rejected() {
    let cfg = test_config();
    let token = issue_at("auth", 42, &cfg, NOW);
    // lower-case scheme word
    assert_eq!(
        check_token_at(&format!("bearer {}", token), &cfg, NOW),
        Err(AuthError::MalformedCredential)
    );
    // missing space
    assert_eq!(
        check_token_at(&format!("Bearer{}", token), &cfg, NOW),
        Err(AuthError::MalformedCredential)
    );
    // extra space between scheme and token
    assert_eq!(
        check_token_at(&format!("Bearer  {}", token), &cfg, NOW),
        Err(AuthError::MalformedCredential)
    );
    // trailing second token
    assert_eq!(
        check_token_at(&format!("Bearer {} extra", token), &cfg, NOW),
        Err(AuthError::MalformedCredential)
    );
    // scheme word alone
    assert_eq!(
        check_token_at("Bearer", &cfg, NOW),
        Err(AuthError::MalformedCredential)
    );
    // empty header value
    assert_eq!(check_token_at("", &cfg, NOW), Err(AuthError::MalformedCredential));
}

#[test]
fn empty_token_rejected() {
    let cfg = test_config();
    let r = check_token_at("Bearer ", &cfg, NOW);
    assert_eq!(r, Err(AuthError::InvalidSignature));
}

#[test]
fn garbage_token_rejected() {
    let cfg = test_config();
    assert_eq!(
        check_token_at("Bearer abc", &cfg, NOW),
        Err(AuthError::InvalidSignature)
    );
    assert_eq!(
        check_token_at("Bearer a.b.c.d", &cfg, NOW),
        Err(AuthError::InvalidSignature)
    );
}

#[test]
fn wrong_secret_rejected() {
    let issuing = Config::new(b"the real secret".to_vec());
    let verifying = Config::new(b"another secret".to_vec());
    let token = issue_at("auth", 42, &issuing, NOW);
    assert_eq!(
        check_token_at(&bearer(&token), &issuing, NOW),
        Ok(User { user_id: 42 })
    );
    assert_eq!(
        check_token_at(&bearer(&token), &verifying, NOW),
        Err(AuthError::InvalidSignature)
    );
}

#[test]
fn verification_is_idempotent() {
    let cfg = test_config();
    let token = issue_at("auth", 42, &cfg, NOW);
    let header = bearer(&token);
    let first = check_token_at(&header, &cfg, NOW);
    let second = check_token_at(&header, &cfg, NOW);
    assert_eq!(first, second);
    assert_eq!(first, Ok(User { user_id: 42 }));
}

#[test]
fn no_header_at_all_rejected() {
    let cfg = test_config();
    let headers: Vec<String> = Vec::new();
    let r = verify_candidates_at(&headers, &cfg, NOW);
    assert_eq!(r, Err(AuthError::MissingCredential));
}

#[test]
fn first_verifying_candidate_wins() {
    let cfg = test_config();
    let token = issue_at("auth", 42, &cfg, NOW);
    let headers = vec!["Basic abcdef".to_string(), bearer(&token)];
    let r = verify_candidates_at(&headers, &cfg, NOW);
    assert_eq!(r, Ok(User { user_id: 42 }));
}

#[test]
fn all_candidates_failing_reports_last_cause() {
    let cfg = test_config();
    let headers = vec!["Basic abcdef".to_string(), "Bearer x".to_string()];
    let r = verify_candidates_at(&headers, &cfg, NOW);
    assert_eq!(r, Err(AuthError::InvalidSignature));
}

#[test]
fn every_rejection_maps_to_unauthorized() {
    for e in [
        AuthError::MissingCredential,
        AuthError::MalformedCredential,
        AuthError::InvalidSignature,
        AuthError::Expired,
        AuthError::NotYetValid,
    ] {
        assert_eq!(e.status_code(), 401);
    }
}

#[test]
fn custom_windows_respected() {
    let cfg = Config::with_windows(b"s".to_vec(), 3600, 0);
    let token = issue_at("auth", 9, &cfg, NOW);
    assert_eq!(check_token_at(&bearer(&token), &cfg, NOW + 3600), Ok(User { user_id: 9 }));
    assert_eq!(
        check_token_at(&bearer(&token), &cfg, NOW + 3601),
        Err(AuthError::Expired)
    );
}
