//! Base64url codec without padding, the segment encoding of the token
//! wire format.
//!
//! Encoding and decoding are defined arithmetically over byte
//! sequences; decoding is strict (no padding, zero trailing bits), so
//! it accepts exactly the canonical encodings.

use vstd::prelude::*;

verus! {

/// The alphabet value of a base64url byte, or 64 when the byte is not
/// in the alphabet.
pub open spec fn b64_val(b: u8) -> int {
    if 0x41 <= b <= 0x5A {
        b - 0x41
    } else if 0x61 <= b <= 0x7A {
        b - 0x61 + 26
    } else if 0x30 <= b <= 0x39 {
        b - 0x30 + 52
    } else if b == 0x2D {
        62
    } else if b == 0x5F {
        63
    } else {
        64
    }
}

/// Whether `b` belongs to the base64url alphabet.
pub open spec fn is_b64_byte(b: u8) -> bool {
    b64_val(b) < 64
}

/// The alphabet byte for a value in 0..64.
pub open spec fn b64_byte(v: int) -> u8 {
    if v < 26 {
        (0x41 + v) as u8
    } else if v < 52 {
        (0x61 + (v - 26)) as u8
    } else if v < 62 {
        (0x30 + (v - 52)) as u8
    } else if v == 62 {
        0x2D
    } else {
        0x5F
    }
}

/// Base64url encoding of a byte sequence, without padding.
pub open spec fn b64_enc(s: Seq<u8>) -> Seq<u8>
    decreases s.len(),
{
    if s.len() == 0 {
        Seq::empty()
    } else if s.len() == 1 {
        seq![b64_byte(s[0] as int / 4), b64_byte((s[0] as int % 4) * 16)]
    } else if s.len() == 2 {
        seq![
            b64_byte(s[0] as int / 4),
            b64_byte((s[0] as int % 4) * 16 + s[1] as int / 16),
            b64_byte((s[1] as int % 16) * 4),
        ]
    } else {
        seq![
            b64_byte(s[0] as int / 4),
            b64_byte((s[0] as int % 4) * 16 + s[1] as int / 16),
            b64_byte((s[1] as int % 16) * 4 + s[2] as int / 64),
            b64_byte(s[2] as int % 64),
        ] + b64_enc(s.skip(3))
    }
}

/// Strict base64url decoding: accepts exactly the outputs of
/// `b64_enc`, requiring every byte to be in the alphabet, no length
/// congruent to 1 modulo 4, and zero trailing bits.
pub open spec fn b64_dec(s: Seq<u8>) -> Option<Seq<u8>>
    decreases s.len(),
{
    if s.len() == 0 {
        Some(Seq::empty())
    } else if s.len() == 1 {
        None
    } else if s.len() == 2 {
        if is_b64_byte(s[0]) && is_b64_byte(s[1]) && b64_val(s[1]) % 16 == 0 {
            Some(seq![(b64_val(s[0]) * 4 + b64_val(s[1]) / 16) as u8])
        } else {
            None
        }
    } else if s.len() == 3 {
        if is_b64_byte(s[0]) && is_b64_byte(s[1]) && is_b64_byte(s[2]) && b64_val(s[2]) % 4
            == 0 {
            Some(
                seq![
                    (b64_val(s[0]) * 4 + b64_val(s[1]) / 16) as u8,
                    ((b64_val(s[1]) % 16) * 16 + b64_val(s[2]) / 4) as u8,
                ],
            )
        } else {
            None
        }
    } else {
        if is_b64_byte(s[0]) && is_b64_byte(s[1]) && is_b64_byte(s[2]) && is_b64_byte(s[3]) {
            match b64_dec(s.skip(4)) {
                Some(t) => Some(
                    seq![
                        (b64_val(s[0]) * 4 + b64_val(s[1]) / 16) as u8,
                        ((b64_val(s[1]) % 16) * 16 + b64_val(s[2]) / 4) as u8,
                        ((b64_val(s[2]) % 4) * 64 + b64_val(s[3])) as u8,
                    ] + t,
                ),
                None => None,
            }
        } else {
            None
        }
    }
}

/// Alphabet byte and value are inverse on 0..64.
pub proof fn lemma_b64_byte_val(v: int)
    requires
        0 <= v < 64,
    ensures
        is_b64_byte(b64_byte(v)),
        b64_val(b64_byte(v)) == v,
{
}

/// Value and alphabet byte are inverse on the alphabet.
pub proof fn lemma_b64_val_byte_inv(b: u8)
    requires
        is_b64_byte(b),
    ensures
        b64_byte(b64_val(b)) == b,
{
}

/// A successful decoding consumed exactly the encoding of its result:
/// strict decoding accepts only canonical text.
pub proof fn lemma_b64_dec_sound(s: Seq<u8>)
    requires
        b64_dec(s) is Some,
    ensures
        s == b64_enc(b64_dec(s)->Some_0),
    decreases s.len(),
{
    let x = b64_dec(s)->Some_0;
    if s.len() == 0 {
        assert(s =~= b64_enc(x));
    } else if s.len() == 2 {
        let v0 = b64_val(s[0]);
        let v1 = b64_val(s[1]);
        let b0 = (v0 * 4 + v1 / 16) as u8;
        assert(x == seq![b0]);
        lemma_b64_val_byte_inv(s[0]);
        lemma_b64_val_byte_inv(s[1]);
        assert(b0 / 4 == v0);
        assert(b0 % 4 == v1 / 16);
        assert((b0 % 4) * 16 == v1);
        assert(s =~= b64_enc(x));
    } else if s.len() == 3 {
        let v0 = b64_val(s[0]);
        let v1 = b64_val(s[1]);
        let v2 = b64_val(s[2]);
        let b0 = (v0 * 4 + v1 / 16) as u8;
        let b1 = ((v1 % 16) * 16 + v2 / 4) as u8;
        assert(x == seq![b0, b1]);
        lemma_b64_val_byte_inv(s[0]);
        lemma_b64_val_byte_inv(s[1]);
        lemma_b64_val_byte_inv(s[2]);
        assert(b0 / 4 == v0);
        assert((b0 % 4) * 16 + b1 / 16 == v1);
        assert((b1 % 16) * 4 == v2);
        assert(s =~= b64_enc(x));
    } else {
        let v0 = b64_val(s[0]);
        let v1 = b64_val(s[1]);
        let v2 = b64_val(s[2]);
        let v3 = b64_val(s[3]);
        let srest = s.skip(4);
        lemma_b64_dec_sound(srest);
        let xrest = b64_dec(srest)->Some_0;
        let b0 = (v0 * 4 + v1 / 16) as u8;
        let b1 = ((v1 % 16) * 16 + v2 / 4) as u8;
        let b2 = ((v2 % 4) * 64 + v3) as u8;
        assert(x == seq![b0, b1, b2] + xrest);
        lemma_b64_val_byte_inv(s[0]);
        lemma_b64_val_byte_inv(s[1]);
        lemma_b64_val_byte_inv(s[2]);
        lemma_b64_val_byte_inv(s[3]);
        assert(b0 / 4 == v0);
        assert((b0 % 4) * 16 + b1 / 16 == v1);
        assert((b1 % 16) * 4 + b2 / 64 == v2);
        assert(b2 % 64 == v3);
        lemma_b64_enc_append(seq![b0, b1, b2], xrest);
        assert(x.skip(3) =~= xrest);
        assert(x[0] == b0 && x[1] == b1 && x[2] == b2);
        assert(seq![b0, b1, b2] + xrest =~= x);
        assert(seq![b0, b1, b2].skip(3) =~= Seq::<u8>::empty());
        assert(b64_enc(Seq::<u8>::empty()) =~= Seq::<u8>::empty());
        assert(b64_enc(seq![b0, b1, b2]) =~= seq![
            b64_byte(b0 as int / 4),
            b64_byte((b0 as int % 4) * 16 + b1 as int / 16),
            b64_byte((b1 as int % 16) * 4 + b2 as int / 64),
            b64_byte(b2 as int % 64),
        ]);
        assert(s =~= b64_enc(seq![b0, b1, b2]) + b64_enc(xrest));
    }
}

/// Every byte of an encoding is in the alphabet; in particular none is
/// a dot, space, quote, or backslash.
pub proof fn lemma_b64_enc_alphabet(s: Seq<u8>)
    ensures
        forall|i: int| 0 <= i < b64_enc(s).len() ==> is_b64_byte(#[trigger] b64_enc(s)[i]),
    decreases s.len(),
{
    if s.len() == 0 {
    } else if s.len() <= 2 {
    } else {
        lemma_b64_enc_alphabet(s.skip(3));
        let head = seq![
            b64_byte(s[0] as int / 4),
            b64_byte((s[0] as int % 4) * 16 + s[1] as int / 16),
            b64_byte((s[1] as int % 16) * 4 + s[2] as int / 64),
            b64_byte(s[2] as int % 64),
        ];
        assert(forall|i: int|
            0 <= i < b64_enc(s).len() ==> b64_enc(s)[i] == if i < 4 {
                head[i]
            } else {
                b64_enc(s.skip(3))[i - 4]
            });
    }
}

/// Encoding a sequence whose length is a multiple of three
/// concatenates with encoding the remainder.
pub proof fn lemma_b64_enc_append(a: Seq<u8>, b: Seq<u8>)
    requires
        a.len() % 3 == 0,
    ensures
        b64_enc(a + b) == b64_enc(a) + b64_enc(b),
    decreases a.len(),
{
    if a.len() == 0 {
        assert(a + b =~= b);
        assert(b64_enc(a) + b64_enc(b) =~= b64_enc(b));
    } else {
        lemma_b64_enc_append(a.skip(3), b);
        let s = a + b;
        assert(s.len() >= 3);
        assert(s[0] == a[0] && s[1] == a[1] && s[2] == a[2]);
        assert(s.skip(3) =~= a.skip(3) + b);
        assert(b64_enc(s) =~= b64_enc(a) + b64_enc(b));
    }
}

/// Decoding after a decodable prefix of groups: the prefix contributes
/// its bytes and the remainder decides success.
pub proof fn lemma_b64_dec_append(a: Seq<u8>, b: Seq<u8>, x: Seq<u8>)
    requires
        a.len() % 4 == 0,
        b64_dec(a) == Some(x),
    ensures
        b64_dec(a + b) == match b64_dec(b) {
            Some(t) => Some(x + t),
            None => None::<Seq<u8>>,
        },
    decreases a.len(),
{
    if a.len() == 0 {
        assert(a + b =~= b);
        if b64_dec(b) is Some {
            assert(x + b64_dec(b)->Some_0 =~= b64_dec(b)->Some_0);
        }
    } else {
        assert(a.len() >= 4);
        let arest = a.skip(4);
        let xrest = b64_dec(arest)->Some_0;
        lemma_b64_dec_append(arest, b, xrest);
        let s = a + b;
        assert(s[0] == a[0] && s[1] == a[1] && s[2] == a[2] && s[3] == a[3]);
        assert(s.len() >= 4);
        assert(s.skip(4) =~= arest + b);
        let head = seq![
            (b64_val(a[0]) * 4 + b64_val(a[1]) / 16) as u8,
            ((b64_val(a[1]) % 16) * 16 + b64_val(a[2]) / 4) as u8,
            ((b64_val(a[2]) % 4) * 64 + b64_val(a[3])) as u8,
        ];
        assert(x == head + xrest);
        match b64_dec(b) {
            Some(t) => {
                assert(head + (xrest + t) =~= x + t);
            },
            None => {},
        }
    }
}

/// Decoding an encoding gives back the original bytes.
pub proof fn lemma_b64_roundtrip(s: Seq<u8>)
    ensures
        b64_dec(b64_enc(s)) == Some(s),
    decreases s.len(),
{
    if s.len() == 0 {
        assert(b64_enc(s).len() == 0);
        assert(b64_dec(b64_enc(s)) == Some(Seq::<u8>::empty()));
        assert(s =~= Seq::<u8>::empty());
    } else if s.len() == 1 {
        let x = s[0] as int;
        lemma_b64_byte_val(x / 4);
        lemma_b64_byte_val((x % 4) * 16);
        assert(seq![((x / 4) * 4 + ((x % 4) * 16) / 16) as u8] =~= s);
    } else if s.len() == 2 {
        let x = s[0] as int;
        let y = s[1] as int;
        lemma_b64_byte_val(x / 4);
        lemma_b64_byte_val((x % 4) * 16 + y / 16);
        lemma_b64_byte_val((y % 16) * 4);
        assert(((x % 4) * 16 + y / 16) % 16 == y / 16);
        assert(((x % 4) * 16 + y / 16) / 16 == x % 4);
        assert(seq![
            ((x / 4) * 4 + ((x % 4) * 16 + y / 16) / 16) as u8,
            (((x % 4) * 16 + y / 16) % 16 * 16 + ((y % 16) * 4) / 4) as u8,
        ] =~= s);
    } else {
        let x = s[0] as int;
        let y = s[1] as int;
        let z = s[2] as int;
        lemma_b64_roundtrip(s.skip(3));
        lemma_b64_byte_val(x / 4);
        lemma_b64_byte_val((x % 4) * 16 + y / 16);
        lemma_b64_byte_val((y % 16) * 4 + z / 64);
        lemma_b64_byte_val(z % 64);
        let e = b64_enc(s);
        let head = seq![
            b64_byte(x / 4),
            b64_byte((x % 4) * 16 + y / 16),
            b64_byte((y % 16) * 4 + z / 64),
            b64_byte(z % 64),
        ];
        assert(e =~= head + b64_enc(s.skip(3)));
        assert(e[0] == head[0] && e[1] == head[1] && e[2] == head[2] && e[3] == head[3]);
        assert(e.len() >= 4);
        assert(e.skip(4) =~= b64_enc(s.skip(3)));
        assert(((x % 4) * 16 + y / 16) % 16 == y / 16);
        assert(((x % 4) * 16 + y / 16) / 16 == x % 4);
        assert(((y % 16) * 4 + z / 64) % 4 == z / 64);
        assert(((y % 16) * 4 + z / 64) / 4 == y % 16);
        assert((b64_val(e[0]) * 4 + b64_val(e[1]) / 16) as u8 == x);
        assert(((b64_val(e[1]) % 16) * 16 + b64_val(e[2]) / 4) as u8 == y);
        assert(((b64_val(e[2]) % 4) * 64 + b64_val(e[3])) as u8 == z);
        assert(seq![s[0], s[1], s[2]] + s.skip(3) =~= s);
    }
}

/// The alphabet value of `b`, or 64 when `b` is not in the alphabet.
pub fn val_of_byte(b: u8) -> (r: u8)
    ensures
        r as int == b64_val(b),
{
    if 0x41 <= b && b <= 0x5A {
        b - 0x41
    } else if 0x61 <= b && b <= 0x7A {
        b - 0x61 + 26
    } else if 0x30 <= b && b <= 0x39 {
        b - 0x30 + 52
    } else if b == 0x2D {
        62
    } else if b == 0x5F {
        63
    } else {
        64
    }
}

/// The alphabet byte for a value in 0..64.
pub fn byte_of_val(v: u8) -> (r: u8)
    requires
        v < 64,
    ensures
        r == b64_byte(v as int),
{
    if v < 26 {
        0x41 + v
    } else if v < 52 {
        0x61 + (v - 26)
    } else if v < 62 {
        0x30 + (v - 52)
    } else if v == 62 {
        0x2D
    } else {
        0x5F
    }
}

/// Encodes a byte vector in base64url without padding.
pub fn b64_encode(s: &Vec<u8>) -> (r: Vec<u8>)
    ensures
        r@ == b64_enc(s@),
{
    let n = s.len();
    let mut out: Vec<u8> = Vec::new();
    let mut i: usize = 0;
    while n - i >= 3
        invariant
            i <= n == s@.len(),
            i % 3 == 0,
            out@ == b64_enc(s@.take(i as int)),
        decreases n - i,
    {
        let x = s[i];
        let y = s[i + 1];
        let z = s[i + 2];
        out.push(byte_of_val(x / 4));
        out.push(byte_of_val((x % 4) * 16 + y / 16));
        out.push(byte_of_val((y % 16) * 4 + z / 64));
        out.push(byte_of_val(z % 64));
        proof {
            let g = s@.subrange(i as int, i + 3);
            lemma_b64_enc_append(s@.take(i as int), g);
            assert(s@.take(i as int) + g =~= s@.take(i + 3));
            assert(g[0] == s@[i as int] && g[1] == s@[i + 1] && g[2] == s@[i + 2]);
            assert(g.skip(3) =~= Seq::<u8>::empty());
            assert(b64_enc(Seq::<u8>::empty()) =~= Seq::<u8>::empty());
            assert(b64_enc(g) =~= seq![
                b64_byte(g[0] as int / 4),
                b64_byte((g[0] as int % 4) * 16 + g[1] as int / 16),
                b64_byte((g[1] as int % 16) * 4 + g[2] as int / 64),
                b64_byte(g[2] as int % 64),
            ]);
            assert(out@ =~= b64_enc(s@.take(i as int)) + b64_enc(g));
        }
        i = i + 3;
    }
    proof {
        lemma_b64_enc_append(s@.take(i as int), s@.skip(i as int));
        assert(s@.take(i as int) + s@.skip(i as int) =~= s@);
    }
    if n - i == 1 {
        let x = s[i];
        let ghost out_prev = out@;
        out.push(byte_of_val(x / 4));
        out.push(byte_of_val((x % 4) * 16));
        proof {
            let t = s@.skip(i as int);
            assert(t.len() == 1 && t[0] == s@[i as int]);
            assert(out@ =~= out_prev + b64_enc(t));
        }
    } else if n - i == 2 {
        let x = s[i];
        let y = s[i + 1];
        let ghost out_prev = out@;
        out.push(byte_of_val(x / 4));
        out.push(byte_of_val((x % 4) * 16 + y / 16));
        out.push(byte_of_val((y % 16) * 4));
        proof {
            let t = s@.skip(i as int);
            assert(t.len() == 2 && t[0] == s@[i as int] && t[1] == s@[i + 1]);
            assert(out@ =~= out_prev + b64_enc(t));
        }
    } else {
        proof {
            assert(s@.skip(i as int) =~= Seq::<u8>::empty());
            assert(b64_enc(Seq::<u8>::empty()) =~= Seq::<u8>::empty());
            assert(out@ =~= b64_enc(s@.take(i as int)) + b64_enc(s@.skip(i as int)));
        }
    }
    out
}

/// Decodes a base64url vector, strictly; `None` on any byte outside
/// the alphabet, an impossible length, or nonzero trailing bits.
pub fn b64_decode(s: &Vec<u8>) -> (r: Option<Vec<u8>>)
    ensures
        match r {
            Some(v) => b64_dec(s@) == Some(v@),
            None => b64_dec(s@) is None,
        },
{
    let n = s.len();
    let mut out: Vec<u8> = Vec::new();
    let mut i: usize = 0;
    while n - i >= 4
        invariant
            i <= n == s@.len(),
            i % 4 == 0,
            b64_dec(s@.take(i as int)) == Some(out@),
        decreases n - i,
    {
        let ghost out_prev = out@;
        let v0 = val_of_byte(s[i]);
        let v1 = val_of_byte(s[i + 1]);
        let v2 = val_of_byte(s[i + 2]);
        let v3 = val_of_byte(s[i + 3]);
        proof {
            lemma_b64_dec_append(s@.take(i as int), s@.skip(i as int), out_prev);
            assert(s@.take(i as int) + s@.skip(i as int) =~= s@);
            let t = s@.skip(i as int);
            assert(t.len() >= 4);
            assert(t[0] == s@[i as int] && t[1] == s@[i + 1] && t[2] == s@[i + 2] && t[3]
                == s@[i + 3]);
        }
        if v0 >= 64 || v1 >= 64 || v2 >= 64 || v3 >= 64 {
            return None;
        }
        out.push(v0 * 4 + v1 / 16);
        out.push((v1 % 16) * 16 + v2 / 4);
        out.push((v2 % 4) * 64 + v3);
        proof {
            let t = s@.skip(i as int);
            let g = s@.subrange(i as int, i + 4);
            assert(g[0] == t[0] && g[1] == t[1] && g[2] == t[2] && g[3] == t[3]);
            assert(g.skip(4) =~= Seq::<u8>::empty());
            assert(b64_dec(Seq::<u8>::empty()) == Some(Seq::<u8>::empty()));
            let gx = seq![
                (b64_val(g[0]) * 4 + b64_val(g[1]) / 16) as u8,
                ((b64_val(g[1]) % 16) * 16 + b64_val(g[2]) / 4) as u8,
                ((b64_val(g[2]) % 4) * 64 + b64_val(g[3])) as u8,
            ];
            assert(gx + Seq::<u8>::empty() =~= gx);
            assert(b64_dec(g) == Some(gx));
            lemma_b64_dec_append(s@.take(i as int), g, out_prev);
            assert(s@.take(i as int) + g =~= s@.take(i + 4));
            assert(out@ =~= out_prev + gx);
        }
        i = i + 4;
    }
    proof {
        lemma_b64_dec_append(s@.take(i as int), s@.skip(i as int), out@);
        assert(s@.take(i as int) + s@.skip(i as int) =~= s@);
    }
    if n - i == 0 {
        proof {
            assert(s@.skip(i as int) =~= Seq::<u8>::empty());
            assert(b64_dec(Seq::<u8>::empty()) == Some(Seq::<u8>::empty()));
            assert(out@ + Seq::<u8>::empty() =~= out@);
        }
        Some(out)
    } else if n - i == 1 {
        None
    } else if n - i == 2 {
        let v0 = val_of_byte(s[i]);
        let v1 = val_of_byte(s[i + 1]);
        proof {
            let t = s@.skip(i as int);
            assert(t.len() == 2 && t[0] == s@[i as int] && t[1] == s@[i + 1]);
        }
        if v0 >= 64 || v1 >= 64 || v1 % 16 != 0 {
            return None;
        }
        let ghost out_prev = out@;
        out.push(v0 * 4 + v1 / 16);
        proof {
            let t = s@.skip(i as int);
            assert(out@ =~= out_prev + b64_dec(t)->Some_0);
        }
        Some(out)
    } else {
        let v0 = val_of_byte(s[i]);
        let v1 = val_of_byte(s[i + 1]);
        let v2 = val_of_byte(s[i + 2]);
        proof {
            let t = s@.skip(i as int);
            assert(t.len() == 3 && t[0] == s@[i as int] && t[1] == s@[i + 1] && t[2] == s@[i
                + 2]);
        }
        if v0 >= 64 || v1 >= 64 || v2 >= 64 || v2 % 4 != 0 {
            return None;
        }
        let ghost out_prev = out@;
        out.push(v0 * 4 + v1 / 16);
        out.push((v1 % 16) * 16 + v2 / 4);
        proof {
            let t = s@.skip(i as int);
            assert(out@ =~= out_prev + b64_dec(t)->Some_0);
        }
        Some(out)
    }
}

} // verus!
