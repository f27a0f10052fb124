//! The claim set embedded in every issued token, and its canonical
//! JSON payload codec.
//!
//! The payload carries exactly six claims, in a fixed order, with
//! printable-ASCII string values: this is the one encoding issuance
//! produces, and the verifier accepts exactly this encoding.

use vstd::prelude::*;

use crate::ascii::{bytes_of_chars, bytes_to_string, chars_of_bytes, string_to_bytes};
use crate::json::{
    esc, escape, expect_lit, parse_string_at, sp_lit, sp_str, str_ok, lemma_sp_lit_of_print,
    lemma_sp_lit_sound, lemma_sp_str_of_print, lemma_sp_str_sound,
};
use crate::num::{dec_int, i64_to_dec, parse_i64_at, sp_i64, lemma_sp_i64_of_print, lemma_sp_i64_sound};
use crate::SERVICE_NAME;

verus! {

/// The largest issued-at or expiry timestamp the wire format carries:
/// eighteen decimal digits.
pub const MAX_TIMESTAMP: i64 = 999_999_999_999_999_999;

/// The validity window of a freshly constructed claim set: seven days,
/// in seconds.
pub const DEFAULT_VALIDITY_SECS: i64 = 604_800;

/// Represents claims included in kapitalist issued web tokens.
#[derive(Debug)]
pub struct TokenClaims {
    /// Issuer
    pub iss: String,
    /// Subject
    pub sub: String,
    /// Audience
    pub aud: String,
    /// Issued At, in seconds since the epoch
    pub iat: i64,
    /// Expiration Time, in seconds since the epoch
    pub exp: i64,
    /// User Id
    pub uid: i64,
}

/// The mathematical content of a claim set: string claims as byte
/// sequences, time claims and the user id as integers.
pub struct ClaimsView {
    pub iss: Seq<u8>,
    pub sub: Seq<u8>,
    pub aud: Seq<u8>,
    pub iat: int,
    pub exp: int,
    pub uid: int,
}

impl View for TokenClaims {
    type V = ClaimsView;

    open spec fn view(&self) -> ClaimsView {
        ClaimsView {
            iss: bytes_of_chars(self.iss@),
            sub: bytes_of_chars(self.sub@),
            aud: bytes_of_chars(self.aud@),
            iat: self.iat as int,
            exp: self.exp as int,
            uid: self.uid as int,
        }
    }
}

/// Whether every character of a string claim is printable ASCII, the
/// charset the wire format carries.
pub open spec fn text_ok(s: Seq<char>) -> bool {
    forall|i: int| 0 <= i < s.len() ==> 0x20 <= (#[trigger] s[i]) as int <= 0x7E
}

/// A claim set the codec can carry: printable string claims and time
/// claims within the wire format's range.
pub open spec fn wf_data(v: ClaimsView) -> bool {
    &&& str_ok(v.iss)
    &&& str_ok(v.sub)
    &&& str_ok(v.aud)
    &&& 0 <= v.iat <= MAX_TIMESTAMP as int
    &&& 0 <= v.exp <= MAX_TIMESTAMP as int
    &&& -0x8000000000000000 <= v.uid <= 0x7FFFFFFFFFFFFFFF
}

impl TokenClaims {
    /// Whether this claim set can be carried by the wire format.
    pub open spec fn wf(self) -> bool {
        text_ok(self.iss@) && text_ok(self.sub@) && text_ok(self.aud@) && 0 <= self.iat
            <= MAX_TIMESTAMP && 0 <= self.exp <= MAX_TIMESTAMP
    }
}

/// A well-formed claim set has well-formed mathematical content.
pub proof fn lemma_wf_view(c: TokenClaims)
    requires
        c.wf(),
    ensures
        wf_data(c@),
{
    assert forall|i: int| 0 <= i < c@.iss.len() implies crate::json::str_byte_ok(
        #[trigger] c@.iss[i],
    ) by {
        assert(c@.iss[i] == c.iss@[i] as u8);
    }
    assert forall|i: int| 0 <= i < c@.sub.len() implies crate::json::str_byte_ok(
        #[trigger] c@.sub[i],
    ) by {
        assert(c@.sub[i] == c.sub@[i] as u8);
    }
    assert forall|i: int| 0 <= i < c@.aud.len() implies crate::json::str_byte_ok(
        #[trigger] c@.aud[i],
    ) by {
        assert(c@.aud[i] == c.aud@[i] as u8);
    }
}

/// The opening of the payload object up to the issuer value:
/// `{"iss":"`.
pub open spec fn lit_head() -> Seq<u8> {
    seq![0x7Bu8, 0x22, 0x69, 0x73, 0x73, 0x22, 0x3A, 0x22]
}

/// The text between issuer and subject values: `,"sub":"`.
pub open spec fn lit_sub() -> Seq<u8> {
    seq![0x2Cu8, 0x22, 0x73, 0x75, 0x62, 0x22, 0x3A, 0x22]
}

/// The text between subject and audience values: `,"aud":"`.
pub open spec fn lit_aud() -> Seq<u8> {
    seq![0x2Cu8, 0x22, 0x61, 0x75, 0x64, 0x22, 0x3A, 0x22]
}

/// The text before the issued-at value: `,"iat":`.
pub open spec fn lit_iat() -> Seq<u8> {
    seq![0x2Cu8, 0x22, 0x69, 0x61, 0x74, 0x22, 0x3A]
}

/// The text before the expiry value: `,"exp":`.
pub open spec fn lit_exp() -> Seq<u8> {
    seq![0x2Cu8, 0x22, 0x65, 0x78, 0x70, 0x22, 0x3A]
}

/// The text before the user id value: `,"uid":`.
pub open spec fn lit_uid() -> Seq<u8> {
    seq![0x2Cu8, 0x22, 0x75, 0x69, 0x64, 0x22, 0x3A]
}

/// The canonical JSON payload of a claim set.
pub open spec fn claims_json(v: ClaimsView) -> Seq<u8> {
    lit_head() + esc(v.iss) + seq![0x22u8] + lit_sub() + esc(v.sub) + seq![0x22u8] + lit_aud()
        + esc(v.aud) + seq![0x22u8] + lit_iat() + dec_int(v.iat) + lit_exp() + dec_int(v.exp)
        + lit_uid() + dec_int(v.uid) + seq![0x7Du8]
}

/// Parses the canonical JSON payload: the claim set it carries, or
/// nothing when the input is not a canonical payload.
pub open spec fn sp_claims(s: Seq<u8>) -> Option<ClaimsView> {
    match sp_lit(s, lit_head()) {
        None => None,
        Some(r1) => match sp_str(r1) {
            None => None,
            Some(p_iss) => match sp_lit(p_iss.1, lit_sub()) {
                None => None,
                Some(r2) => match sp_str(r2) {
                    None => None,
                    Some(p_sub) => match sp_lit(p_sub.1, lit_aud()) {
                        None => None,
                        Some(r3) => match sp_str(r3) {
                            None => None,
                            Some(p_aud) => sp_claims_nums(
                                p_iss.0,
                                p_sub.0,
                                p_aud.0,
                                p_aud.1,
                            ),
                        },
                    },
                },
            },
        },
    }
}

/// Parses the three numeric claims and the closing brace, completing
/// `sp_claims`.
pub open spec fn sp_claims_nums(iss: Seq<u8>, sub: Seq<u8>, aud: Seq<u8>, r: Seq<u8>) -> Option<
    ClaimsView,
> {
    match sp_lit(r, lit_iat()) {
        None => None,
        Some(r4) => match sp_i64(r4) {
            None => None,
            Some(p_iat) => match sp_lit(p_iat.1, lit_exp()) {
                None => None,
                Some(r5) => match sp_i64(r5) {
                    None => None,
                    Some(p_exp) => match sp_lit(p_exp.1, lit_uid()) {
                        None => None,
                        Some(r6) => match sp_i64(r6) {
                            None => None,
                            Some(p_uid) => if p_uid.1 =~= seq![0x7Du8] && 0 <= p_iat.0
                                <= MAX_TIMESTAMP as int && 0 <= p_exp.0
                                <= MAX_TIMESTAMP as int {
                                Some(
                                    ClaimsView {
                                        iss: iss,
                                        sub: sub,
                                        aud: aud,
                                        iat: p_iat.0,
                                        exp: p_exp.0,
                                        uid: p_uid.0,
                                    },
                                )
                            } else {
                                None
                            },
                        },
                    },
                },
            },
        },
    }
}

/// Parsing a canonical payload yields the claim set it renders.
#[verifier::rlimit(100)]
#[verifier::spinoff_prover]
pub proof fn lemma_claims_roundtrip(v: ClaimsView)
    requires
        wf_data(v),
    ensures
        sp_claims(claims_json(v)) == Some(v),
{
    let r_end = seq![0x7Du8];
    let r_uid = dec_int(v.uid) + r_end;
    let r_lu = lit_uid() + r_uid;
    let r_exp = dec_int(v.exp) + r_lu;
    let r_le = lit_exp() + r_exp;
    let r_iat = dec_int(v.iat) + r_le;
    let r_li = lit_iat() + r_iat;
    let r_aud = esc(v.aud) + seq![0x22u8] + r_li;
    let r_la = lit_aud() + r_aud;
    let r_sub = esc(v.sub) + seq![0x22u8] + r_la;
    let r_ls = lit_sub() + r_sub;
    let r_iss = esc(v.iss) + seq![0x22u8] + r_ls;
    let s = claims_json(v);
    assert(s =~= lit_head() + r_iss);
    lemma_sp_lit_of_print(lit_head(), r_iss);
    assert(sp_lit(s, lit_head()) == Some(r_iss));
    lemma_sp_str_of_print(v.iss, r_ls);
    lemma_sp_lit_of_print(lit_sub(), r_sub);
    lemma_sp_str_of_print(v.sub, r_la);
    lemma_sp_lit_of_print(lit_aud(), r_aud);
    lemma_sp_str_of_print(v.aud, r_li);
    lemma_sp_lit_of_print(lit_iat(), r_iat);
    assert(r_le[0] == lit_exp()[0]);
    lemma_sp_i64_of_print(v.iat, r_le);
    lemma_sp_lit_of_print(lit_exp(), r_exp);
    assert(r_lu[0] == lit_uid()[0]);
    lemma_sp_i64_of_print(v.exp, r_lu);
    lemma_sp_lit_of_print(lit_uid(), r_uid);
    assert(r_end[0] == 0x7D && !crate::num::is_digit(r_end[0]));
    lemma_sp_i64_of_print(v.uid, r_end);
    assert(sp_claims(s) == Some(v));
}


/// A successfully parsed payload is canonical: it is, byte for byte,
/// the rendering of the claim set it yields, and that claim set is
/// well-formed.
#[verifier::rlimit(100)]
#[verifier::spinoff_prover]
pub proof fn lemma_sp_claims_sound(s: Seq<u8>)
    requires
        sp_claims(s) is Some,
    ensures
        wf_data(sp_claims(s)->Some_0),
        s == claims_json(sp_claims(s)->Some_0),
{
    let v = sp_claims(s)->Some_0;
    let r1 = sp_lit(s, lit_head())->Some_0;
    lemma_sp_lit_sound(s, lit_head());
    let p_iss = sp_str(r1)->Some_0;
    lemma_sp_str_sound(r1);
    let r2 = sp_lit(p_iss.1, lit_sub())->Some_0;
    lemma_sp_lit_sound(p_iss.1, lit_sub());
    let p_sub = sp_str(r2)->Some_0;
    lemma_sp_str_sound(r2);
    let r3 = sp_lit(p_sub.1, lit_aud())->Some_0;
    lemma_sp_lit_sound(p_sub.1, lit_aud());
    let p_aud = sp_str(r3)->Some_0;
    lemma_sp_str_sound(r3);
    let r4 = sp_lit(p_aud.1, lit_iat())->Some_0;
    lemma_sp_lit_sound(p_aud.1, lit_iat());
    let p_iat = sp_i64(r4)->Some_0;
    lemma_sp_i64_sound(r4);
    let r5 = sp_lit(p_iat.1, lit_exp())->Some_0;
    lemma_sp_lit_sound(p_iat.1, lit_exp());
    let p_exp = sp_i64(r5)->Some_0;
    lemma_sp_i64_sound(r5);
    let r6 = sp_lit(p_exp.1, lit_uid())->Some_0;
    lemma_sp_lit_sound(p_exp.1, lit_uid());
    let p_uid = sp_i64(r6)->Some_0;
    lemma_sp_i64_sound(r6);
    assert(v.iss == p_iss.0 && v.sub == p_sub.0 && v.aud == p_aud.0);
    assert(v.iat == p_iat.0 && v.exp == p_exp.0 && v.uid == p_uid.0);
    assert(p_uid.1 =~= seq![0x7Du8]);
    // reassemble the input from the back, one consumed piece at a time
    let t_uid = dec_int(v.uid) + seq![0x7Du8];
    assert(r6 =~= t_uid);
    let t_lu = lit_uid() + t_uid;
    assert(p_exp.1 =~= t_lu);
    let t_exp = dec_int(v.exp) + t_lu;
    assert(r5 =~= t_exp);
    let t_le = lit_exp() + t_exp;
    assert(p_iat.1 =~= t_le);
    let t_iat = dec_int(v.iat) + t_le;
    assert(r4 =~= t_iat);
    let t_li = lit_iat() + t_iat;
    assert(p_aud.1 =~= t_li);
    let t_aud = esc(v.aud) + seq![0x22u8] + t_li;
    assert(r3 =~= t_aud);
    let t_la = lit_aud() + t_aud;
    assert(p_sub.1 =~= t_la);
    let t_sub = esc(v.sub) + seq![0x22u8] + t_la;
    assert(r2 =~= t_sub);
    let t_ls = lit_sub() + t_sub;
    assert(p_iss.1 =~= t_ls);
    let t_iss = esc(v.iss) + seq![0x22u8] + t_ls;
    assert(r1 =~= t_iss);
    assert(s =~= lit_head() + t_iss);
    assert(s =~= claims_json(v));
}

/// The opening literal of the payload, as a vector.
fn lit_head_vec() -> (r: Vec<u8>)
    ensures
        r@ == lit_head(),
{
    let v: Vec<u8> = vec![0x7Bu8, 0x22, 0x69, 0x73, 0x73, 0x22, 0x3A, 0x22];
    proof {
        assert(v@ =~= lit_head());
    }
    v
}

/// The subject separator literal, as a vector.
fn lit_sub_vec() -> (r: Vec<u8>)
    ensures
        r@ == lit_sub(),
{
    let v: Vec<u8> = vec![0x2Cu8, 0x22, 0x73, 0x75, 0x62, 0x22, 0x3A, 0x22];
    proof {
        assert(v@ =~= lit_sub());
    }
    v
}

/// The audience separator literal, as a vector.
fn lit_aud_vec() -> (r: Vec<u8>)
    ensures
        r@ == lit_aud(),
{
    let v: Vec<u8> = vec![0x2Cu8, 0x22, 0x61, 0x75, 0x64, 0x22, 0x3A, 0x22];
    proof {
        assert(v@ =~= lit_aud());
    }
    v
}

/// The issued-at separator literal, as a vector.
fn lit_iat_vec() -> (r: Vec<u8>)
    ensures
        r@ == lit_iat(),
{
    let v: Vec<u8> = vec![0x2Cu8, 0x22, 0x69, 0x61, 0x74, 0x22, 0x3A];
    proof {
        assert(v@ =~= lit_iat());
    }
    v
}

/// The expiry separator literal, as a vector.
fn lit_exp_vec() -> (r: Vec<u8>)
    ensures
        r@ == lit_exp(),
{
    let v: Vec<u8> = vec![0x2Cu8, 0x22, 0x65, 0x78, 0x70, 0x22, 0x3A];
    proof {
        assert(v@ =~= lit_exp());
    }
    v
}

/// The user id separator literal, as a vector.
fn lit_uid_vec() -> (r: Vec<u8>)
    ensures
        r@ == lit_uid(),
{
    let v: Vec<u8> = vec![0x2Cu8, 0x22, 0x75, 0x69, 0x64, 0x22, 0x3A];
    proof {
        assert(v@ =~= lit_uid());
    }
    v
}

impl TokenClaims {
    /// Creates a claim set with the given subject and user id, issued
    /// at `now` and valid for `validity` seconds.
    pub fn new_at(sub: &str, uid: i64, now: i64, validity: i64) -> (r: TokenClaims)
        requires
            sub@.len() > 0,
            text_ok(sub@),
            0 <= now,
            0 < validity,
            now + validity <= MAX_TIMESTAMP,
        ensures
            r.iss@ == SERVICE_NAME@,
            r.aud@ == SERVICE_NAME@,
            r.sub@ == sub@,
            r.uid == uid,
            r.iat == now,
            r.exp == now + validity,
            r.wf(),
    {
        proof {
            lemma_service_name_text();
        }
        TokenClaims {
            iss: service_name_string(),
            sub: sub.to_owned(),
            aud: service_name_string(),
            iat: now,
            exp: now + validity,
            uid: uid,
        }
    }

    /// Creates a new claim set with the given subject and user id,
    /// issued now and valid for the default window of seven days.
    pub fn new(sub: &str, uid: i64) -> (r: TokenClaims)
        requires
            sub@.len() > 0,
            text_ok(sub@),
        ensures
            r.iss@ == SERVICE_NAME@,
            r.aud@ == SERVICE_NAME@,
            r.sub@ == sub@,
            r.uid == uid,
            0 <= r.iat,
            r.exp == r.iat + DEFAULT_VALIDITY_SECS,
            r.wf(),
    {
        let t = crate::clock::now_seconds();
        let now = if t < 0 {
            0
        } else if t > MAX_TIMESTAMP - DEFAULT_VALIDITY_SECS {
            MAX_TIMESTAMP - DEFAULT_VALIDITY_SECS
        } else {
            t
        };
        TokenClaims::new_at(sub, uid, now, DEFAULT_VALIDITY_SECS)
    }

    /// Renders this claim set as its canonical JSON payload.
    pub fn to_json(&self) -> (r: Vec<u8>)
        requires
            self.wf(),
        ensures
            r@ == claims_json(self@),
    {
        proof {
            lemma_text_is_ascii(self.iss@);
            lemma_text_is_ascii(self.sub@);
            lemma_text_is_ascii(self.aud@);
        }
        let mut out = lit_head_vec();
        let mut iss = escape(&string_to_bytes(self.iss.as_str()));
        out.append(&mut iss);
        out.push(0x22);
        let mut l = lit_sub_vec();
        out.append(&mut l);
        let mut sub = escape(&string_to_bytes(self.sub.as_str()));
        out.append(&mut sub);
        out.push(0x22);
        let mut l2 = lit_aud_vec();
        out.append(&mut l2);
        let mut aud = escape(&string_to_bytes(self.aud.as_str()));
        out.append(&mut aud);
        out.push(0x22);
        let mut l3 = lit_iat_vec();
        out.append(&mut l3);
        let mut iat = i64_to_dec(self.iat);
        out.append(&mut iat);
        let mut l4 = lit_exp_vec();
        out.append(&mut l4);
        let mut exp = i64_to_dec(self.exp);
        out.append(&mut exp);
        let mut l5 = lit_uid_vec();
        out.append(&mut l5);
        let mut uid = i64_to_dec(self.uid);
        out.append(&mut uid);
        out.push(0x7D);
        proof {
            assert(out@ =~= claims_json(self@));
        }
        out
    }
}

/// Parses a canonical JSON payload into a claim set.
#[verifier::rlimit(100)]
#[verifier::spinoff_prover]
pub fn parse_claims(s: &Vec<u8>) -> (r: Option<TokenClaims>)
    ensures
        match r {
            Some(c) => sp_claims(s@) == Some(c@) && c.wf(),
            None => sp_claims(s@) is None,
        },
{
    proof {
        assert(s@.skip(0) =~= s@);
    }
    let j0 = match expect_lit(s, 0, &lit_head_vec()) {
        Some(j) => j,
        None => {
            return None;
        },
    };
    let (iss, j1) = match parse_string_at(s, j0) {
        Some(p) => p,
        None => {
            return None;
        },
    };
    let j2 = match expect_lit(s, j1, &lit_sub_vec()) {
        Some(j) => j,
        None => {
            return None;
        },
    };
    let (sub, j3) = match parse_string_at(s, j2) {
        Some(p) => p,
        None => {
            return None;
        },
    };
    let j4 = match expect_lit(s, j3, &lit_aud_vec()) {
        Some(j) => j,
        None => {
            return None;
        },
    };
    let (aud, j5) = match parse_string_at(s, j4) {
        Some(p) => p,
        None => {
            return None;
        },
    };
    let j6 = match expect_lit(s, j5, &lit_iat_vec()) {
        Some(j) => j,
        None => {
            return None;
        },
    };
    let (iat, j7) = match parse_i64_at(s, j6) {
        Some(p) => p,
        None => {
            return None;
        },
    };
    let j8 = match expect_lit(s, j7, &lit_exp_vec()) {
        Some(j) => j,
        None => {
            return None;
        },
    };
    let (exp, j9) = match parse_i64_at(s, j8) {
        Some(p) => p,
        None => {
            return None;
        },
    };
    let j10 = match expect_lit(s, j9, &lit_uid_vec()) {
        Some(j) => j,
        None => {
            return None;
        },
    };
    let (uid, j11) = match parse_i64_at(s, j10) {
        Some(p) => p,
        None => {
            return None;
        },
    };
    let ghost tail = s@.skip(j11 as int);
    if s.len() - j11 != 1 {
        // the remainder must be exactly the closing brace
        proof {
            if tail =~= seq![0x7Du8] {
                assert(tail.len() == 1);
            }
        }
        return None;
    }
    if s[j11] != 0x7D {
        proof {
            assert(tail[0] == s@[j11 as int]);
        }
        return None;
    }
    if iat < 0 || iat > MAX_TIMESTAMP {
        return None;
    }
    if exp < 0 || exp > MAX_TIMESTAMP {
        return None;
    }
    proof {
        assert(tail =~= seq![0x7Du8]);
    }
    let c = TokenClaims {
        iss: bytes_to_string(&iss),
        sub: bytes_to_string(&sub),
        aud: bytes_to_string(&aud),
        iat: iat,
        exp: exp,
        uid: uid,
    };
    proof {
        crate::ascii::lemma_bytes_chars_roundtrip(iss@);
        crate::ascii::lemma_bytes_chars_roundtrip(sub@);
        crate::ascii::lemma_bytes_chars_roundtrip(aud@);
        lemma_text_of_str_ok(iss@);
        lemma_text_of_str_ok(sub@);
        lemma_text_of_str_ok(aud@);
    }
    Some(c)
}

/// Printable ASCII text is ASCII.
proof fn lemma_text_is_ascii(s: Seq<char>)
    requires
        text_ok(s),
    ensures
        vstd::utf8::is_ascii_chars(s),
{
    assert forall|i: int| 0 <= i < s.len() implies '\0' <= #[trigger] s[i] <= '\u{7f}' by {
        assert(0x20 <= s[i] as int <= 0x7E);
    }
}

/// The characters of printable-ASCII bytes are printable ASCII.
proof fn lemma_text_of_str_ok(b: Seq<u8>)
    requires
        str_ok(b),
    ensures
        text_ok(chars_of_bytes(b)),
{
    assert forall|i: int| 0 <= i < chars_of_bytes(b).len() implies 0x20 <= (
    #[trigger] chars_of_bytes(b)[i]) as int <= 0x7E by {
        assert(chars_of_bytes(b)[i] == b[i] as char);
    }
}

/// The service identifier is printable ASCII text.
pub proof fn lemma_service_name_text()
    ensures
        SERVICE_NAME@.len() > 0,
        text_ok(SERVICE_NAME@),
{
    reveal_strlit("kapitalist");
}

/// The fixed issuer and audience value, as an owned string.
pub fn service_name_string() -> (r: String)
    ensures
        r@ == SERVICE_NAME@,
{
    SERVICE_NAME.to_owned()
}

} // verus!
