//! The bearer-credential verifier: from a raw `Authorization` header
//! value to an authenticated user identity, checked against the
//! configured secret and time bounds.
//!
//! Verification is a pure function of the header value, the
//! configuration, and the current time; `vm_header` and `vm_token`
//! are its mathematical statement, and every failure collapses to a
//! single unauthorized outcome at the boundary.

use vstd::prelude::*;
use vstd::string::StringSliceAdditionalSpecFns;

use crate::ascii::{all_ascii, bytes_of_chars, chars_of_bytes, check_ascii, has_at, sub_vec, vec_eq};
use crate::b64::{b64_dec, b64_decode, b64_enc, b64_encode, is_b64_byte};
use crate::cfg::Config;
use crate::claims::{
    claims_json, lemma_claims_roundtrip, lemma_wf_view, parse_claims, text_ok, wf_data,
    ClaimsView, TokenClaims, MAX_TIMESTAMP,
};
use crate::crypto::{hs256_sig_b64, verify_hs256};
use crate::token::{
    encode_token, find_dots, header_json, header_vec, lemma_token_structure, sp_split3,
    split_segments, token_payload_claims, signing_input, token_bytes, valid_dots,
};
use crate::SERVICE_NAME;

verus! {

/// The authenticated identity a verified token yields: the request
/// guard every protected endpoint consumes.
#[derive(Debug, Clone, Copy, PartialEq, Eq, Structural)]
pub struct User {
    pub user_id: i64,
}

/// Why a credential was rejected. Internal diagnosis only: every
/// variant collapses to the same unauthorized outcome at the
/// boundary, so no cause is revealed to the client.
#[derive(Debug, Clone, Copy, PartialEq, Eq, Structural)]
pub enum AuthError {
    /// No `Authorization` header was presented.
    MissingCredential,
    /// The header does not have the `Bearer <token>` shape.
    MalformedCredential,
    /// The token is malformed or its signature does not verify.
    InvalidSignature,
    /// The token's expiry, plus leeway, has passed.
    Expired,
    /// The token's issued-at time lies beyond the leeway in the
    /// future.
    NotYetValid,
}

impl AuthError {
    /// The HTTP status code every rejection maps to at the boundary:
    /// 401 Unauthorized, whatever the internal cause, so that no
    /// cause is revealed to a probing client.
    pub fn status_code(&self) -> (r: u16)
        ensures
            r == 401,
    {
        401
    }
}

/// The scheme prefix of a bearer credential: `Bearer` and one space.
pub open spec fn bearer_prefix() -> Seq<u8> {
    seq![0x42u8, 0x65, 0x61, 0x72, 0x65, 0x72, 0x20]
}

/// The scheme prefix, as a vector.
pub fn bearer_vec() -> (r: Vec<u8>)
    ensures
        r@ == bearer_prefix(),
{
    let v: Vec<u8> = vec![0x42u8, 0x65, 0x61, 0x72, 0x65, 0x72, 0x20];
    proof {
        assert(v@ =~= bearer_prefix());
    }
    v
}

/// Whether no byte of `s` is a space.
pub open spec fn no_space(s: Seq<u8>) -> bool {
    forall|k: int| 0 <= k < s.len() ==> #[trigger] s[k] != 0x20
}

/// Splits a header value of the exact shape `Bearer <token>` into its
/// token, where the token carries no space; everything else is
/// refused. This is the splitting of the value on spaces into exactly
/// the scheme word and one token.
pub open spec fn sp_bearer(h: Seq<u8>) -> Option<Seq<u8>> {
    if h.len() >= 7 && h.take(7) == bearer_prefix() && no_space(h.skip(7)) {
        Some(h.skip(7))
    } else {
        None
    }
}

/// What verifying a raw token yields: the token must split into three
/// segments, open with the fixed header, carry the signature of its
/// first two segments under `key`, decode to a canonical claims
/// payload, and lie within the time bounds at `now` with the given
/// leeway. Every defect of the token itself reports
/// `InvalidSignature`; a signature segment with bytes outside ASCII
/// cannot be a signature and is rejected outright; the issued-at
/// check applies the same leeway policy as the expiry check.
pub open spec fn vm_token(t: Seq<u8>, key: Seq<u8>, leeway: int, now: int) -> Result<
    int,
    AuthError,
> {
    match sp_split3(t) {
        None => Err(AuthError::InvalidSignature),
        Some(p3) => if p3.0 != b64_enc(header_json()) {
            Err(AuthError::InvalidSignature)
        } else if !all_ascii(p3.2) {
            Err(AuthError::InvalidSignature)
        } else if p3.2 != hs256_sig_b64(key, p3.0 + seq![0x2Eu8] + p3.1) {
            Err(AuthError::InvalidSignature)
        } else {
            match b64_dec(p3.1) {
                None => Err(AuthError::InvalidSignature),
                Some(payload) => match crate::claims::sp_claims(payload) {
                    None => Err(AuthError::InvalidSignature),
                    Some(v) => if now > v.exp + leeway {
                        Err(AuthError::Expired)
                    } else if v.iat - leeway > now {
                        Err(AuthError::NotYetValid)
                    } else {
                        Ok(v.uid)
                    },
                },
            }
        },
    }
}

/// What verifying one header value yields: the bearer token is
/// extracted and verified.
pub open spec fn vm_header(h: Seq<u8>, key: Seq<u8>, leeway: int, now: int) -> Result<
    int,
    AuthError,
> {
    match sp_bearer(h) {
        None => Err(AuthError::MalformedCredential),
        Some(t) => vm_token(t, key, leeway, now),
    }
}

/// What verifying a list of candidate header values yields: the first
/// candidate that verifies wins; rejection is reported only after all
/// candidates are exhausted, with the last cause.
pub open spec fn vm_candidates(hs: Seq<Seq<u8>>, key: Seq<u8>, leeway: int, now: int) -> Result<
    int,
    AuthError,
>
    decreases hs.len(),
{
    if hs.len() == 0 {
        Err(AuthError::MissingCredential)
    } else {
        match vm_header(hs[0], key, leeway, now) {
            Ok(u) => Ok(u),
            Err(e) => if hs.len() == 1 {
                Err(e)
            } else {
                vm_candidates(hs.skip(1), key, leeway, now)
            },
        }
    }
}

/// Whether an execution result carries exactly what the model says.
pub open spec fn matches_model(r: Result<User, AuthError>, m: Result<int, AuthError>) -> bool {
    match r {
        Ok(u) => m == Ok::<int, AuthError>(u.user_id as int),
        Err(e) => m == Err::<int, AuthError>(e),
    }
}

/// The byte sequences of a list of header values.
pub open spec fn header_bytes_of(hs: Seq<String>) -> Seq<Seq<u8>> {
    hs.map(|_i: int, s: String| vstd::utf8::encode_utf8(s@))
}

/// The claim set that `issue` embeds: fixed issuer and audience, the
/// given subject and user, and an expiry one validity window past the
/// issue time.
pub open spec fn issued_view(sub: Seq<char>, uid: int, iat: int, validity: int) -> ClaimsView {
    ClaimsView {
        iss: bytes_of_chars(SERVICE_NAME@),
        sub: bytes_of_chars(sub),
        aud: bytes_of_chars(SERVICE_NAME@),
        iat: iat,
        exp: iat + validity,
        uid: uid,
    }
}

/// Verifies a raw token (already stripped of the scheme prefix)
/// against the configured secret and time bounds, at time `now`.
pub fn verify_token_at(t: &Vec<u8>, cfg: &Config, now: i64) -> (r: Result<User, AuthError>)
    requires
        cfg.wf(),
    ensures
        matches_model(r, vm_token(t@, cfg.secret@, cfg.leeway_secs as int, now as int)),
{
    let (d1, d2) = match find_dots(t) {
        Some(d) => d,
        None => {
            return Err(AuthError::InvalidSignature);
        },
    };
    let (h, p, sig) = split_segments(t, d1, d2);
    let expected = b64_encode(&header_vec());
    if !vec_eq(&h, &expected) {
        return Err(AuthError::InvalidSignature);
    }
    if !check_ascii(&sig) {
        return Err(AuthError::InvalidSignature);
    }
    let msg = sub_vec(t, 0, d2);
    proof {
        assert(msg@ =~= h@ + seq![0x2Eu8] + p@);
    }
    if !verify_hs256(&sig, &msg, &cfg.secret) {
        return Err(AuthError::InvalidSignature);
    }
    let payload = match b64_decode(&p) {
        Some(x) => x,
        None => {
            return Err(AuthError::InvalidSignature);
        },
    };
    let claims = match parse_claims(&payload) {
        Some(c) => c,
        None => {
            return Err(AuthError::InvalidSignature);
        },
    };
    if now > claims.exp + cfg.leeway_secs {
        return Err(AuthError::Expired);
    }
    if claims.iat - cfg.leeway_secs > now {
        return Err(AuthError::NotYetValid);
    }
    Ok(User { user_id: claims.uid })
}

/// Validates one `Authorization` header value at time `now`: splits
/// the `Bearer <token>` shape and verifies the token.
pub fn check_token_at(header: &str, cfg: &Config, now: i64) -> (r: Result<User, AuthError>)
    requires
        cfg.wf(),
    ensures
        matches_model(
            r,
            vm_header(header.spec_bytes(), cfg.secret@, cfg.leeway_secs as int, now as int),
        ),
{
    let bytes = header.as_bytes_vec();
    let n = bytes.len();
    let bp = bearer_vec();
    if !has_at(&bytes, 0, &bp) {
        proof {
            let hb = header.spec_bytes();
            assert(bytes@ == hb);
            if hb.len() >= 7 {
                assert(hb.take(7) =~= bytes@.subrange(0, 7));
            }
            assert(sp_bearer(hb) is None);
        }
        return Err(AuthError::MalformedCredential);
    }
    proof {
        assert(bytes@.take(7) =~= bytes@.subrange(0, 7));
    }
    let mut k: usize = 7;
    while k < n
        invariant
            7 <= k <= n == bytes@.len(),
            bytes@ == header.spec_bytes(),
            bytes@.take(7) == bearer_prefix(),
            forall|q: int| 7 <= q < k ==> #[trigger] bytes@[q] != 0x20,
        decreases n - k,
    {
        if bytes[k] == 0x20 {
            proof {
                assert(bytes@.skip(7)[k - 7] == 0x20);
            }
            return Err(AuthError::MalformedCredential);
        }
        k = k + 1;
    }
    let tok = sub_vec(&bytes, 7, n);
    proof {
        assert(tok@ =~= bytes@.skip(7));
        assert(sp_bearer(bytes@) == Some(tok@));
    }
    verify_token_at(&tok, cfg, now)
}

/// Validates one `Authorization` header value against the current
/// time: the request guard behind every protected endpoint.
pub fn check_token(header: &str, cfg: &Config) -> (r: Result<User, AuthError>)
    requires
        cfg.wf(),
    ensures
        exists|now: int|
            matches_model(
                r,
                vm_header(header.spec_bytes(), cfg.secret@, cfg.leeway_secs as int, now),
            ),
{
    let now = crate::clock::now_seconds();
    let r = check_token_at(header, cfg, now);
    proof {
        assert(matches_model(
            r,
            vm_header(header.spec_bytes(), cfg.secret@, cfg.leeway_secs as int, now as int),
        ));
    }
    r
}

/// Tries each candidate header value in order at time `now` and
/// succeeds on the first one that verifies; reports rejection only
/// after all candidates are exhausted.
pub fn verify_candidates_at(headers: &Vec<String>, cfg: &Config, now: i64) -> (r: Result<
    User,
    AuthError,
>)
    requires
        cfg.wf(),
    ensures
        matches_model(
            r,
            vm_candidates(
                header_bytes_of(headers@),
                cfg.secret@,
                cfg.leeway_secs as int,
                now as int,
            ),
        ),
{
    let ghost m = header_bytes_of(headers@);
    let n = headers.len();
    if n == 0 {
        return Err(AuthError::MissingCredential);
    }
    let mut i: usize = 0;
    proof {
        assert(m.skip(0) =~= m);
    }
    while i < n
        invariant
            0 <= i < n == headers@.len(),
            cfg.wf(),
            m == header_bytes_of(headers@),
            vm_candidates(m, cfg.secret@, cfg.leeway_secs as int, now as int) == vm_candidates(
                m.skip(i as int),
                cfg.secret@,
                cfg.leeway_secs as int,
                now as int,
            ),
        decreases n - i,
    {
        let r = check_token_at(headers[i].as_str(), cfg, now);
        proof {
            assert(m.skip(i as int)[0] == m[i as int]);
            assert(m[i as int] == vstd::utf8::encode_utf8(headers@[i as int]@));
        }
        match r {
            Ok(u) => {
                return Ok(u);
            },
            Err(e) => {
                if i + 1 == n {
                    proof {
                        assert(m.skip(i as int).len() == 1);
                    }
                    return Err(e);
                }
                proof {
                    assert(m.skip(i as int).skip(1) =~= m.skip(i + 1));
                }
                i = i + 1;
            },
        }
    }
    // never reached: the loop returns at the last candidate, and the
    // invariant keeps the index strictly below the length
    proof {
        assert(false);
    }
    Err(AuthError::MissingCredential)
}

/// Tries each candidate header value in order against the current
/// time.
pub fn verify_candidates(headers: &Vec<String>, cfg: &Config) -> (r: Result<User, AuthError>)
    requires
        cfg.wf(),
    ensures
        exists|now: int|
            matches_model(
                r,
                vm_candidates(header_bytes_of(headers@), cfg.secret@, cfg.leeway_secs as int, now),
            ),
{
    let now = crate::clock::now_seconds();
    let r = verify_candidates_at(headers, cfg, now);
    proof {
        assert(matches_model(
            r,
            vm_candidates(
                header_bytes_of(headers@),
                cfg.secret@,
                cfg.leeway_secs as int,
                now as int,
            ),
        ));
    }
    r
}

/// A token issued for a well-formed claim set verifies under the same
/// secret at any time within its validity window, extended by the
/// leeway on both sides; so does the full header `Bearer <token>`.
/// The signature hypothesis holds of every signature the signing
/// routine returns.
#[verifier::rlimit(100)]
#[verifier::spinoff_prover]
pub proof fn lemma_token_roundtrip(v: ClaimsView, key: Seq<u8>, leeway: int, vnow: int)
    requires
        wf_data(v),
        leeway >= 0,
        vnow <= v.exp + leeway,
        v.iat - leeway <= vnow,
        forall|i: int|
            0 <= i < hs256_sig_b64(key, signing_input(v)).len() ==> is_b64_byte(
                #[trigger] hs256_sig_b64(key, signing_input(v))[i],
            ),
    ensures
        vm_token(token_bytes(v, key), key, leeway, vnow) == Ok::<int, AuthError>(v.uid),
        vm_header(bearer_prefix() + token_bytes(v, key), key, leeway, vnow) == Ok::<int, AuthError>(v.uid),
{
    let h = b64_enc(header_json());
    let p = b64_enc(claims_json(v));
    let s = hs256_sig_b64(key, signing_input(v));
    let t = token_bytes(v, key);
    lemma_token_structure(v, key);
    assert(sp_split3(t) == Some((h, p, s)));
    assert forall|i: int| 0 <= i < s.len() implies #[trigger] s[i] < 0x80 by {
        assert(is_b64_byte(s[i]));
    }
    assert(h + seq![0x2Eu8] + p =~= signing_input(v));
    crate::b64::lemma_b64_roundtrip(claims_json(v));
    lemma_claims_roundtrip(v);
    assert(vm_token(t, key, leeway, vnow) == Ok::<int, AuthError>(v.uid));
    let full = bearer_prefix() + t;
    assert(full.take(7) =~= bearer_prefix());
    assert(full.skip(7) =~= t);
    assert forall|k: int| 0 <= k < t.len() implies #[trigger] t[k] != 0x20 by {
        lemma_token_structure(v, key);
    }
    assert(sp_bearer(full) == Some(t));
}

/// Issues a signed token for the given subject and user at time
/// `now`: the token's bytes are the canonical encoding of the issued
/// claim set, and it verifies under the same secret at any time from
/// `now - leeway` to expiry plus leeway — in particular immediately,
/// and still within the leeway after expiry.
pub fn issue_at(sub: &str, uid: i64, cfg: &Config, now: i64) -> (r: String)
    requires
        cfg.wf(),
        sub@.len() > 0,
        text_ok(sub@),
        0 <= now,
        now + cfg.validity_secs <= MAX_TIMESTAMP,
    ensures
        r@ == chars_of_bytes(
            token_bytes(
                issued_view(sub@, uid as int, now as int, cfg.validity_secs as int),
                cfg.secret@,
            ),
        ),
        bytes_of_chars(r@) == token_bytes(
            issued_view(sub@, uid as int, now as int, cfg.validity_secs as int),
            cfg.secret@,
        ),
        forall|vnow: int|
            now - cfg.leeway_secs <= vnow <= now + cfg.validity_secs + cfg.leeway_secs
                ==> vm_token(
                bytes_of_chars(r@),
                cfg.secret@,
                cfg.leeway_secs as int,
                vnow,
            ) == Ok::<int, AuthError>(uid as int) && vm_header(
                bearer_prefix() + bytes_of_chars(r@),
                cfg.secret@,
                cfg.leeway_secs as int,
                vnow,
            ) == Ok::<int, AuthError>(uid as int),
{
    let claims = TokenClaims::new_at(sub, uid, now, cfg.validity_secs);
    let ghost v = issued_view(sub@, uid as int, now as int, cfg.validity_secs as int);
    proof {
        assert(claims@ == v);
    }
    let tok = encode_token(&claims, &cfg.secret);
    proof {
        lemma_wf_view(claims);
        crate::ascii::lemma_bytes_chars_roundtrip(token_bytes(v, cfg.secret@));
        assert(bytes_of_chars(tok@) == token_bytes(v, cfg.secret@));
        assert forall|vnow: int|
            now - cfg.leeway_secs <= vnow <= now + cfg.validity_secs
                + cfg.leeway_secs implies vm_token(
            bytes_of_chars(tok@),
            cfg.secret@,
            cfg.leeway_secs as int,
            vnow,
        ) == Ok::<int, AuthError>(uid as int) && vm_header(
            bearer_prefix() + bytes_of_chars(tok@),
            cfg.secret@,
            cfg.leeway_secs as int,
            vnow,
        ) == Ok::<int, AuthError>(uid as int) by {
            if v.exp <= vnow {
                lemma_within_leeway_accepted(v, cfg.secret@, cfg.leeway_secs as int, vnow);
            } else {
                lemma_token_roundtrip(v, cfg.secret@, cfg.leeway_secs as int, vnow);
            }
        }
    }
    tok
}

/// Issues a signed token for the given subject and user against the
/// current time, valid for the configured window.
pub fn issue(sub: &str, uid: i64, cfg: &Config) -> (r: String)
    requires
        cfg.wf(),
        sub@.len() > 0,
        text_ok(sub@),
    ensures
        exists|iat: int|
            0 <= iat && iat + cfg.validity_secs <= MAX_TIMESTAMP as int && r@
                == chars_of_bytes(
                token_bytes(issued_view(sub@, uid as int, iat, cfg.validity_secs as int), cfg.secret@),
            ) && bytes_of_chars(r@) == token_bytes(
                issued_view(sub@, uid as int, iat, cfg.validity_secs as int),
                cfg.secret@,
            ),
{
    let t = crate::clock::now_seconds();
    let now = if t < 0 {
        0
    } else if t > MAX_TIMESTAMP - cfg.validity_secs {
        MAX_TIMESTAMP - cfg.validity_secs
    } else {
        t
    };
    let r = issue_at(sub, uid, cfg, now);
    proof {
        assert(0 <= now as int && now as int + cfg.validity_secs <= MAX_TIMESTAMP as int
            && r@ == chars_of_bytes(
            token_bytes(
                issued_view(sub@, uid as int, now as int, cfg.validity_secs as int),
                cfg.secret@,
            ),
        ) && bytes_of_chars(r@) == token_bytes(
            issued_view(sub@, uid as int, now as int, cfg.validity_secs as int),
            cfg.secret@,
        ));
    }
    r
}

/// Leeway tolerance: a token whose expiry already passed, by no more
/// than the leeway, still verifies. The signature hypothesis holds of
/// every signature the signing routine returns; the issued-at bound
/// reflects the optional issued-at check, which applies the same
/// leeway policy and holds of every issued claim set.
pub proof fn lemma_within_leeway_accepted(v: ClaimsView, key: Seq<u8>, leeway: int, now: int)
    requires
        wf_data(v),
        0 <= leeway,
        v.exp <= now <= v.exp + leeway,
        v.iat - leeway <= now,
        forall|i: int|
            0 <= i < hs256_sig_b64(key, signing_input(v)).len() ==> is_b64_byte(
                #[trigger] hs256_sig_b64(key, signing_input(v))[i],
            ),
    ensures
        vm_token(token_bytes(v, key), key, leeway, now) == Ok::<int, AuthError>(v.uid),
        vm_header(bearer_prefix() + token_bytes(v, key), key, leeway, now) == Ok::<int, AuthError>(v.uid),
{
    lemma_token_roundtrip(v, key, leeway, now);
}

/// Expiry is enforced: any token whose payload carries an expiry more
/// than the leeway in the past is rejected, whatever else holds of
/// it.
pub proof fn lemma_expired_rejected(
    t: Seq<u8>,
    key: Seq<u8>,
    leeway: int,
    now: int,
    v: ClaimsView,
)
    requires
        token_payload_claims(t) == Some(v),
        now > v.exp + leeway,
    ensures
        vm_token(t, key, leeway, now) is Err,
{
}

/// Scheme checking is enforced: a header value that is not `Bearer`,
/// one space, and one nonempty token free of spaces is rejected.
pub proof fn lemma_bad_scheme_rejected(h: Seq<u8>, key: Seq<u8>, leeway: int, now: int)
    requires
        h.len() < 8 || h.take(7) != bearer_prefix() || !no_space(h.skip(7)),
    ensures
        vm_header(h, key, leeway, now) is Err,
{
    match sp_bearer(h) {
        None => {},
        Some(tok) => {
            assert(tok.len() == 0);
            assert forall|i: int, j: int| !valid_dots(tok, i, j) by {}
            assert(sp_split3(tok) is None);
        },
    }
}

/// The signature is enforced: verification succeeds only when the
/// token's third segment is the signature of its first two segments
/// under the configured secret. A token signed with a different
/// secret therefore verifies only if the two secrets happen to sign
/// this message identically.
pub proof fn lemma_ok_needs_signature(t: Seq<u8>, key: Seq<u8>, leeway: int, now: int)
    ensures
        vm_token(t, key, leeway, now) is Ok ==> sp_split3(t) is Some && sp_split3(t)->Some_0.2
            == hs256_sig_b64(
            key,
            sp_split3(t)->Some_0.0 + seq![0x2Eu8] + sp_split3(t)->Some_0.1,
        ),
{
}


/// A token signed under one secret is rejected under another,
/// whenever the two secrets do not sign this very message
/// identically: the verifier accepts only the configured secret's
/// signature.
pub proof fn lemma_wrong_secret_rejected(
    v: ClaimsView,
    issuing: Seq<u8>,
    verifying: Seq<u8>,
    leeway: int,
    now: int,
)
    ensures
        hs256_sig_b64(issuing, signing_input(v)) != hs256_sig_b64(verifying, signing_input(v))
            ==> vm_token(token_bytes(v, issuing), verifying, leeway, now) is Err,
{
    if hs256_sig_b64(issuing, signing_input(v)) != hs256_sig_b64(
        verifying,
        signing_input(v),
    ) {
        crate::token::lemma_token_split_cases(v, issuing);
        let t = token_bytes(v, issuing);
        match sp_split3(t) {
            None => {},
            Some(p3) => {
                assert(p3.0 + seq![0x2Eu8] + p3.1 =~= signing_input(v));
            },
        }
    }
}


/// Only issued material is accepted: a token that verifies is, byte
/// for byte, the canonical token of a well-formed claim set under the
/// configured secret, and that claim set lies within the time bounds.
/// Together with `lemma_token_roundtrip` this pins verification down
/// exactly.
pub proof fn lemma_ok_is_issued(t: Seq<u8>, key: Seq<u8>, leeway: int, now: int) -> (v:
    ClaimsView)
    requires
        vm_token(t, key, leeway, now) is Ok,
    ensures
        wf_data(v),
        t == token_bytes(v, key),
        vm_token(t, key, leeway, now) == Ok::<int, AuthError>(v.uid),
        now <= v.exp + leeway,
        v.iat - leeway <= now,
{
    let p3 = sp_split3(t)->Some_0;
    crate::token::lemma_split3_sound(t);
    let payload = crate::b64::b64_dec(p3.1)->Some_0;
    crate::b64::lemma_b64_dec_sound(p3.1);
    let v = crate::claims::sp_claims(payload)->Some_0;
    crate::claims::lemma_sp_claims_sound(payload);
    assert(p3.1 == b64_enc(claims_json(v)));
    assert(p3.0 + seq![0x2Eu8] + p3.1 =~= signing_input(v));
    assert(p3.2 == hs256_sig_b64(key, signing_input(v)));
    assert(t =~= token_bytes(v, key));
    v
}

/// Verification is idempotent: it is a pure function of header,
/// secret, leeway and time, so two results that match the same model
/// are equal, user id included.
pub proof fn lemma_verify_idempotent(
    r1: Result<User, AuthError>,
    r2: Result<User, AuthError>,
    m: Result<int, AuthError>,
)
    requires
        matches_model(r1, m),
        matches_model(r2, m),
    ensures
        r1 == r2,
{
    match (r1, r2) {
        (Ok(u1), Ok(u2)) => {
            assert(u1.user_id == u2.user_id);
        },
        _ => {},
    }
}

} // verus!
