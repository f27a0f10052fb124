//! Exact expected values for the decimal, base64url, and claims
//! payload codecs.

use kapitalist::b64::{b64_decode, b64_encode};
use kapitalist::claims::{parse_claims, TokenClaims};
use kapitalist::json::{escape, parse_string_at};
use kapitalist::num::{i64_to_string, parse_i64_at, u64_to_string};

#[test]
fn decimal_rendering() {
    assert_eq!(u64_to_string(0), "0");
    assert_eq!(u64_to_string(7), "7");
    assert_eq!(u64_to_string(12345), "12345");
    assert_eq!(u64_to_string(u64::MAX), "18446744073709551615");
    assert_eq!(i64_to_string(-42), "-42");
    assert_eq!(i64_to_string(i64::MIN), "-9223372036854775808");
    assert_eq!(i64_to_string(i64::MAX), "9223372036854775807");
}

#[test]
fn decimal_parsing() {
    let v = b"12345,".to_vec();
    assert_eq!(parse_i64_at(&v, 0), Some((12345, 5)));
    let v = b"-42".to_vec();
    assert_eq!(parse_i64_at(&v, 0), Some((-42, 3)));
    let v = b"-9223372036854775808".to_vec();
    assert_eq!(parse_i64_at(&v, 0), Some((i64::MIN, 20)));
    let v = b"9223372036854775807".to_vec();
    assert_eq!(parse_i64_at(&v, 0), Some((i64::MAX, 19)));
}

#[test]
fn decimal_parsing_rejects_non_canonical() {
    // leading zero
    assert_eq!(parse_i64_at(&b"007".to_vec(), 0), None);
    // negative zero
    assert_eq!(parse_i64_at(&b"-0".to_vec(), 0), None);
    // no digits
    assert_eq!(parse_i64_at(&b"x".to_vec(), 0), None);
    assert_eq!(parse_i64_at(&b"-".to_vec(), 0), None);
    // one past the i64 range
    assert_eq!(parse_i64_at(&b"9223372036854775808".to_vec(), 0), None);
    assert_eq!(parse_i64_at(&b"-9223372036854775809".to_vec(), 0), None);
}

#[test]
fn base64url_known_vectors() {
    assert_eq!(b64_encode(&b"Man".to_vec()), b"TWFu".to_vec());
    assert_eq!(b64_encode(&b"M".to_vec()), b"TQ".to_vec());
    assert_eq!(b64_encode(&b"Ma".to_vec()), b"TWE".to_vec());
    assert_eq!(b64_encode(&Vec::new()), Vec::<u8>::new());
    // url-safe alphabet for the two high values
    assert_eq!(b64_encode(&vec![0xFB, 0xFF]), b"-_8".to_vec());
}

#[test]
fn base64url_roundtrip() {
    for sample in [&b""[..], &b"M"[..], &b"Ma"[..], &b"Man"[..], &b"hello world!"[..]] {
        let enc = b64_encode(&sample.to_vec());
        assert_eq!(b64_decode(&enc), Some(sample.to_vec()));
    }
}

#[test]
fn base64url_decoding_is_strict() {
    // padding characters are not part of the alphabet
    assert_eq!(b64_decode(&b"TWE=".to_vec()), None);
    // a length of one more than a multiple of four is impossible
    assert_eq!(b64_decode(&b"TWFuA".to_vec()), None);
    // nonzero trailing bits
    assert_eq!(b64_decode(&b"TR".to_vec()), None);
    // byte outside the alphabet
    assert_eq!(b64_decode(&b"T(".to_vec()), None);
}

#[test]
fn string_escaping() {
    let body = b"a\"b\\c".to_vec();
    let escaped = escape(&body);
    assert_eq!(escaped, b"a\\\"b\\\\c".to_vec());
    let mut quoted = escaped.clone();
    quoted.push(b'"');
    assert_eq!(parse_string_at(&quoted, 0), Some((body, quoted.len())));
}

#[test]
fn string_parsing_rejects_bad_escapes_and_controls() {
    // unknown escape
    assert_eq!(parse_string_at(&b"a\\n\"".to_vec(), 0), None);
    // control character
    assert_eq!(parse_string_at(&b"a\x07b\"".to_vec(), 0), None);
    // unterminated
    assert_eq!(parse_string_at(&b"abc".to_vec(), 0), None);
}

fn sample_claims() -> TokenClaims {
    TokenClaims {
        iss: "kapitalist".to_string(),
        sub: "auth".to_string(),
        aud: "kapitalist".to_string(),
        iat: 100,
        exp: 200,
        uid: 42,
    }
}

#[test]
fn claims_payload_exact_text() {
    let json = sample_claims().to_json();
    let expected = "{\"iss\":\"kapitalist\",\"sub\":\"auth\",\"aud\":\"kapitalist\",\"iat\":100,\"exp\":200,\"uid\":42}";
    assert_eq!(String::from_utf8(json).unwrap(), expected);
}

#[test]
fn claims_payload_roundtrip() {
    let c = sample_claims();
    let parsed = parse_claims(&c.to_json()).unwrap();
    assert_eq!(parsed.iss, c.iss);
    assert_eq!(parsed.sub, c.sub);
    assert_eq!(parsed.aud, c.aud);
    assert_eq!(parsed.iat, c.iat);
    assert_eq!(parsed.exp, c.exp);
    assert_eq!(parsed.uid, c.uid);
}

#[test]
fn claims_payload_roundtrip_negative_uid() {
    let mut c = sample_claims();
    c.uid = -9;
    let parsed = parse_claims(&c.to_json()).unwrap();
    assert_eq!(parsed.uid, -9);
}

#[test]
fn claims_parsing_is_canonical_only() {
    // fields out of order
    let reordered =
        "{\"sub\":\"auth\",\"iss\":\"kapitalist\",\"aud\":\"kapitalist\",\"iat\":100,\"exp\":200,\"uid\":42}";
    assert!(parse_claims(&reordered.as_bytes().to_vec()).is_none());
    // trailing content after the closing brace
    let trailing =
        "{\"iss\":\"kapitalist\",\"sub\":\"auth\",\"aud\":\"kapitalist\",\"iat\":100,\"exp\":200,\"uid\":42} ";
    assert!(parse_claims(&trailing.as_bytes().to_vec()).is_none());
    // negative issued-at
    let negative =
        "{\"iss\":\"kapitalist\",\"sub\":\"auth\",\"aud\":\"kapitalist\",\"iat\":-1,\"exp\":200,\"uid\":42}";
    assert!(parse_claims(&negative.as_bytes().to_vec()).is_none());
    // whitespace inside the object
    let spaced =
        "{\"iss\": \"kapitalist\",\"sub\":\"auth\",\"aud\":\"kapitalist\",\"iat\":100,\"exp\":200,\"uid\":42}";
    assert!(parse_claims(&spaced.as_bytes().to_vec()).is_none());
}

#[test]
fn fresh_claims_have_consistent_times() {
    let c = TokenClaims::new("auth", 42);
    assert_eq!(c.iss, "kapitalist");
    assert_eq!(c.aud, "kapitalist");
    assert_eq!(c.sub, "auth");
    assert_eq!(c.uid, 42);
    assert_eq!(c.exp, c.iat + 604_800);
}
