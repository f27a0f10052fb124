//! The token wire format: three dot-separated base64url segments
//! carrying the fixed header, the claims payload, and the signature.

use vstd::prelude::*;

use crate::ascii::{bytes_to_string, chars_of_bytes, sub_vec};
use crate::b64::{b64_enc, b64_encode, is_b64_byte, lemma_b64_enc_alphabet};
use crate::claims::{claims_json, sp_claims, ClaimsView, TokenClaims};
use crate::crypto::{hs256_sig_b64, sign_hs256};

verus! {

/// The fixed token header: `{"alg":"HS256","typ":"JWT"}`.
pub open spec fn header_json() -> Seq<u8> {
    seq![
        0x7Bu8, 0x22, 0x61, 0x6C, 0x67, 0x22, 0x3A, 0x22, 0x48, 0x53, 0x32, 0x35, 0x36,
        0x22, 0x2C, 0x22, 0x74, 0x79, 0x70, 0x22, 0x3A, 0x22, 0x4A, 0x57, 0x54, 0x22, 0x7D,
    ]
}

/// The fixed token header, as a vector.
pub fn header_vec() -> (r: Vec<u8>)
    ensures
        r@ == header_json(),
{
    let v: Vec<u8> = vec![
        0x7Bu8, 0x22, 0x61, 0x6C, 0x67, 0x22, 0x3A, 0x22, 0x48, 0x53, 0x32, 0x35, 0x36,
        0x22, 0x2C, 0x22, 0x74, 0x79, 0x70, 0x22, 0x3A, 0x22, 0x4A, 0x57, 0x54, 0x22, 0x7D,
    ];
    proof {
        assert(v@ =~= header_json());
    }
    v
}

/// The first two token segments: encoded header, a dot, encoded
/// payload. This is what gets signed.
pub open spec fn signing_input(v: ClaimsView) -> Seq<u8> {
    b64_enc(header_json()) + seq![0x2Eu8] + b64_enc(claims_json(v))
}

/// The complete token for a claim set under a secret: the signing
/// input, a dot, and its signature.
pub open spec fn token_bytes(v: ClaimsView, key: Seq<u8>) -> Seq<u8> {
    signing_input(v) + seq![0x2Eu8] + hs256_sig_b64(key, signing_input(v))
}

/// Whether `i` and `j` are the positions of the only two dots of `t`.
pub open spec fn valid_dots(t: Seq<u8>, i: int, j: int) -> bool {
    &&& 0 <= i < j < t.len()
    &&& t[i] == 0x2E
    &&& t[j] == 0x2E
    &&& forall|k: int| 0 <= k < t.len() && k != i && k != j ==> t[k] != 0x2E
}

/// Splits a token into its three segments, defined only when the token
/// has exactly two dots.
pub open spec fn sp_split3(t: Seq<u8>) -> Option<(Seq<u8>, Seq<u8>, Seq<u8>)> {
    if exists|d: (int, int)| valid_dots(t, d.0, d.1) {
        let d = choose|d: (int, int)| valid_dots(t, d.0, d.1);
        Some((t.take(d.0), t.subrange(d.0 + 1, d.1), t.skip(d.1 + 1)))
    } else {
        None
    }
}

/// A token has at most one pair of dot positions.
pub proof fn lemma_valid_dots_unique(t: Seq<u8>, i: int, j: int, i2: int, j2: int)
    requires
        valid_dots(t, i, j),
        valid_dots(t, i2, j2),
    ensures
        i == i2,
        j == j2,
{
    assert(i2 == i || i2 == j);
    assert(j2 == i || j2 == j);
}

/// The split of a token whose dot positions are known.
pub proof fn lemma_split3_of(t: Seq<u8>, i: int, j: int)
    requires
        valid_dots(t, i, j),
    ensures
        sp_split3(t) == Some((t.take(i), t.subrange(i + 1, j), t.skip(j + 1))),
{
    let w = (i, j);
    assert(valid_dots(t, w.0, w.1));
    assert(exists|d: (int, int)| valid_dots(t, d.0, d.1));
    let d = choose|d: (int, int)| valid_dots(t, d.0, d.1);
    lemma_valid_dots_unique(t, d.0, d.1, i, j);
}

/// The claim set a token's payload segment carries, when the token
/// splits and its payload decodes and parses.
pub open spec fn token_payload_claims(t: Seq<u8>) -> Option<ClaimsView> {
    match sp_split3(t) {
        None => None,
        Some(p3) => match crate::b64::b64_dec(p3.1) {
            None => None,
            Some(payload) => sp_claims(payload),
        },
    }
}

/// Finds the positions of the only two dots of `t`, or nothing when
/// `t` does not have exactly two dots.
pub fn find_dots(t: &Vec<u8>) -> (r: Option<(usize, usize)>)
    ensures
        match r {
            Some(d) => valid_dots(t@, d.0 as int, d.1 as int),
            None => forall|i: int, j: int| !valid_dots(t@, i, j),
        },
{
    let n = t.len();
    let mut d1: usize = 0;
    let mut d2: usize = 0;
    let mut count: usize = 0;
    let mut p: usize = 0;
    while p < n
        invariant
            p <= n == t@.len(),
            count <= 2,
            count >= 1 ==> d1 < p && t@[d1 as int] == 0x2E,
            count >= 2 ==> d1 < d2 < p && t@[d2 as int] == 0x2E,
            forall|k: int|
                0 <= k < p && k != d1 && k != d2 ==> #[trigger] t@[k] != 0x2E,
            count == 0 ==> forall|k: int| 0 <= k < p ==> #[trigger] t@[k] != 0x2E,
            count == 1 ==> forall|k: int| 0 <= k < p && k != d1 ==> #[trigger] t@[k] != 0x2E,
        decreases n - p,
    {
        if t[p] == 0x2E {
            if count == 0 {
                d1 = p;
                count = 1;
            } else if count == 1 {
                d2 = p;
                count = 2;
            } else {
                // a third dot: no pair of positions can cover all three
                proof {
                    assert forall|i: int, j: int| !valid_dots(t@, i, j) by {
                        if valid_dots(t@, i, j) {
                            assert(d1 == i || d1 == j);
                            assert(d2 == i || d2 == j);
                            assert(p == i || p == j);
                        }
                    }
                }
                return None;
            }
        }
        p = p + 1;
    }
    if count == 2 {
        Some((d1, d2))
    } else {
        proof {
            assert forall|i: int, j: int| !valid_dots(t@, i, j) by {
                if valid_dots(t@, i, j) {
                    assert(t@[i] == 0x2E && t@[j] == 0x2E);
                }
            }
        }
        None
    }
}

/// Renders a claim set as a complete signed token string.
pub fn encode_token(claims: &TokenClaims, secret: &Vec<u8>) -> (r: String)
    requires
        claims.wf(),
    ensures
        r@ == chars_of_bytes(token_bytes(claims@, secret@)),
        forall|i: int|
            0 <= i < hs256_sig_b64(secret@, signing_input(claims@)).len() ==> is_b64_byte(
                #[trigger] hs256_sig_b64(secret@, signing_input(claims@))[i],
            ),
{
    let header = header_vec();
    let mut msg = b64_encode(&header);
    msg.push(0x2E);
    let payload = claims.to_json();
    let mut p64 = b64_encode(&payload);
    msg.append(&mut p64);
    proof {
        assert(msg@ =~= signing_input(claims@));
    }
    let mut sig = sign_hs256(&msg, secret);
    let mut tok = msg;
    tok.push(0x2E);
    tok.append(&mut sig);
    proof {
        assert(tok@ =~= token_bytes(claims@, secret@));
    }
    bytes_to_string(&tok)
}

/// Copies the three segments of a token out by dot positions.
pub fn split_segments(t: &Vec<u8>, d1: usize, d2: usize) -> (r: (Vec<u8>, Vec<u8>, Vec<u8>))
    requires
        valid_dots(t@, d1 as int, d2 as int),
    ensures
        sp_split3(t@) == Some((r.0@, r.1@, r.2@)),
{
    proof {
        lemma_split3_of(t@, d1 as int, d2 as int);
    }
    let n = t.len();
    let h = sub_vec(t, 0, d1);
    let p = sub_vec(t, d1 + 1, d2);
    let s = sub_vec(t, d2 + 1, n);
    proof {
        assert(t@.take(d1 as int) =~= t@.subrange(0, d1 as int));
        assert(t@.skip(d2 + 1) =~= t@.subrange(d2 + 1, t@.len() as int));
    }
    (h, p, s)
}


/// A token that splits is, byte for byte, its three segments joined
/// by dots.
pub proof fn lemma_split3_sound(t: Seq<u8>)
    requires
        sp_split3(t) is Some,
    ensures
        t == sp_split3(t)->Some_0.0 + seq![0x2Eu8] + sp_split3(t)->Some_0.1 + seq![0x2Eu8]
            + sp_split3(t)->Some_0.2,
{
    let d = choose|d: (int, int)| valid_dots(t, d.0, d.1);
    assert(valid_dots(t, d.0, d.1));
    assert(t =~= t.take(d.0) + seq![0x2Eu8] + t.subrange(d.0 + 1, d.1) + seq![0x2Eu8]
        + t.skip(d.1 + 1));
}

/// With nothing assumed of the signature bytes: a complete token
/// either fails to split (its signature holds a dot), or splits into
/// exactly its three segments.
pub proof fn lemma_token_split_cases(v: ClaimsView, key: Seq<u8>)
    ensures
        sp_split3(token_bytes(v, key)) is None || sp_split3(token_bytes(v, key)) == Some(
            (b64_enc(header_json()), b64_enc(claims_json(v)), hs256_sig_b64(
                key,
                signing_input(v),
            )),
        ),
{
    let h = b64_enc(header_json());
    let p = b64_enc(claims_json(v));
    let s = hs256_sig_b64(key, signing_input(v));
    let t = token_bytes(v, key);
    let i = h.len() as int;
    let j = h.len() as int + 1 + p.len() as int;
    lemma_b64_enc_alphabet(header_json());
    lemma_b64_enc_alphabet(claims_json(v));
    assert(t.len() == h.len() + 1 + p.len() + 1 + s.len());
    assert forall|k: int| 0 <= k < t.len() implies #[trigger] t[k] == (if k < i {
        h[k]
    } else if k == i {
        0x2E
    } else if k < j {
        p[k - i - 1]
    } else if k == j {
        0x2E
    } else {
        s[k - j - 1]
    }) by {
        assert(signing_input(v)[k] == t[k] || k > i + p.len());
    }
    if exists|k: int| j < k < t.len() && #[trigger] t[k] == 0x2E {
        let k3 = choose|k: int| j < k < t.len() && #[trigger] t[k] == 0x2E;
        assert forall|a: int, b: int| !valid_dots(t, a, b) by {
            if valid_dots(t, a, b) {
                assert(t[i] == 0x2E);
                assert(t[j] == 0x2E);
                assert(t[k3] == 0x2E);
                assert(i == a || i == b);
                assert(j == a || j == b);
                assert(k3 == a || k3 == b);
            }
        }
        assert(sp_split3(t) is None);
    } else {
        assert forall|k: int| 0 <= k < t.len() && k != i && k != j implies #[trigger] t[k]
            != 0x2E by {
            if k < i {
                assert(is_b64_byte(h[k]));
            } else if k < j {
                assert(is_b64_byte(p[k - i - 1]));
            }
        }
        assert(valid_dots(t, i, j));
        lemma_split3_of(t, i, j);
        assert(t.take(i) =~= h);
        assert(t.subrange(i + 1, j) =~= p);
        assert(t.skip(j + 1) =~= s);
    }
}

/// Segments of encoded material contain no dot and no space, so a
/// token built from them splits back into them.
pub proof fn lemma_token_structure(v: ClaimsView, key: Seq<u8>)
    requires
        forall|i: int|
            0 <= i < hs256_sig_b64(key, signing_input(v)).len() ==> is_b64_byte(
                #[trigger] hs256_sig_b64(key, signing_input(v))[i],
            ),
    ensures
        sp_split3(token_bytes(v, key)) == Some(
            (b64_enc(header_json()), b64_enc(claims_json(v)), hs256_sig_b64(
                key,
                signing_input(v),
            )),
        ),
        forall|k: int|
            0 <= k < token_bytes(v, key).len() ==> #[trigger] token_bytes(v, key)[k] != 0x20,
{
    let h = b64_enc(header_json());
    let p = b64_enc(claims_json(v));
    let s = hs256_sig_b64(key, signing_input(v));
    let t = token_bytes(v, key);
    lemma_b64_enc_alphabet(header_json());
    lemma_b64_enc_alphabet(claims_json(v));
    let i = h.len() as int;
    let j = h.len() as int + 1 + p.len() as int;
    assert(t.len() == h.len() + 1 + p.len() + 1 + s.len());
    assert forall|k: int| 0 <= k < t.len() implies #[trigger] t[k] == (if k < i {
        h[k]
    } else if k == i {
        0x2E
    } else if k < j {
        p[k - i - 1]
    } else if k == j {
        0x2E
    } else {
        s[k - j - 1]
    }) by {
        assert(signing_input(v)[k] == t[k] || k > i + p.len());
    }
    assert forall|k: int| 0 <= k < t.len() && k != i && k != j implies #[trigger] t[k]
        != 0x2E by {
        if k < i {
            assert(is_b64_byte(h[k]));
        } else if k < j {
            assert(is_b64_byte(p[k - i - 1]));
        } else {
            assert(is_b64_byte(s[k - j - 1]));
        }
    }
    assert(valid_dots(t, i, j));
    lemma_split3_of(t, i, j);
    assert(t.take(i) =~= h);
    assert(t.subrange(i + 1, j) =~= p);
    assert(t.skip(j + 1) =~= s);
    assert forall|k: int| 0 <= k < t.len() implies #[trigger] t[k] != 0x20 by {
        if k < i {
            assert(is_b64_byte(h[k]));
        } else if k == i || k == j {
        } else if k < j {
            assert(is_b64_byte(p[k - i - 1]));
        } else {
            assert(is_b64_byte(s[k - j - 1]));
        }
    }
}

} // verus!
