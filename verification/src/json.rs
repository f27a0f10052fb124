//! The fragment of JSON text that the claims payload uses: object
//! literals, escaped strings of printable ASCII, and integers.
//!
//! Escaping and string parsing are exact inverses, so the payload codec
//! built on them accepts exactly what it produces.

use vstd::prelude::*;

use crate::ascii::has_at;

verus! {

/// Whether `b` may appear unencoded inside a JSON string of this
/// format: printable ASCII.
pub open spec fn str_byte_ok(b: u8) -> bool {
    0x20 <= b <= 0x7E
}

/// Whether every byte of a string body is printable ASCII.
pub open spec fn str_ok(s: Seq<u8>) -> bool {
    forall|i: int| 0 <= i < s.len() ==> str_byte_ok(#[trigger] s[i])
}

/// The escaped form of one byte: quote and backslash get a backslash
/// prefix, everything else stands as itself.
pub open spec fn esc_byte(b: u8) -> Seq<u8> {
    if b == 0x22 || b == 0x5C {
        seq![0x5Cu8, b]
    } else {
        seq![b]
    }
}

/// The escaped form of a string body.
pub open spec fn esc(s: Seq<u8>) -> Seq<u8>
    decreases s.len(),
{
    if s.len() == 0 {
        Seq::empty()
    } else {
        esc_byte(s[0]) + esc(s.skip(1))
    }
}

/// Escaping distributes over concatenation.
pub proof fn lemma_esc_append(a: Seq<u8>, b: Seq<u8>)
    ensures
        esc(a + b) == esc(a) + esc(b),
    decreases a.len(),
{
    if a.len() == 0 {
        assert(a + b =~= b);
        assert(esc(a) + esc(b) =~= esc(b));
    } else {
        lemma_esc_append(a.skip(1), b);
        let s = a + b;
        assert(s[0] == a[0]);
        assert(s.skip(1) =~= a.skip(1) + b);
        assert(esc(s) =~= esc(a) + esc(b));
    }
}

/// Parses an escaped string body up to and including its closing
/// quote: the body and the remainder after the quote. Accepts exactly
/// the escapes that `esc` produces and only printable ASCII.
pub open spec fn sp_str(s: Seq<u8>) -> Option<(Seq<u8>, Seq<u8>)>
    decreases s.len(),
{
    if s.len() == 0 {
        None
    } else if s[0] == 0x22 {
        Some((Seq::empty(), s.skip(1)))
    } else if s[0] == 0x5C {
        if s.len() >= 2 && (s[1] == 0x22 || s[1] == 0x5C) {
            match sp_str(s.skip(2)) {
                Some(p) => Some((seq![s[1]] + p.0, p.1)),
                None => None,
            }
        } else {
            None
        }
    } else if 0x20 <= s[0] <= 0x7E {
        match sp_str(s.skip(1)) {
            Some(p) => Some((seq![s[0]] + p.0, p.1)),
            None => None,
        }
    } else {
        None
    }
}

/// Parsing the escaped form of a printable body, a closing quote, and
/// any remainder yields the body and that remainder.
pub proof fn lemma_sp_str_of_print(t: Seq<u8>, rest: Seq<u8>)
    requires
        str_ok(t),
    ensures
        sp_str(esc(t) + seq![0x22u8] + rest) == Some((t, rest)),
    decreases t.len(),
{
    let s = esc(t) + seq![0x22u8] + rest;
    if t.len() == 0 {
        assert(s =~= seq![0x22u8] + rest);
        assert(s[0] == 0x22);
        assert(s.skip(1) =~= rest);
        assert(sp_str(s) == Some((Seq::<u8>::empty(), rest)));
        assert(t =~= Seq::<u8>::empty());
    } else {
        lemma_sp_str_of_print(t.skip(1), rest);
        let srest = esc(t.skip(1)) + seq![0x22u8] + rest;
        assert(esc(t) =~= esc_byte(t[0]) + esc(t.skip(1)));
        if t[0] == 0x22 || t[0] == 0x5C {
            assert(s[0] == 0x5C && s[1] == t[0]);
            assert(s.len() >= 2);
            assert(s.skip(2) =~= srest);
            assert(seq![s[1]] + t.skip(1) =~= t);
        } else {
            assert(s[0] == t[0]);
            assert(s[0] != 0x22 && s[0] != 0x5C);
            assert(0x20 <= s[0] <= 0x7E);
            assert(s.skip(1) =~= srest);
            assert(seq![s[0]] + t.skip(1) =~= t);
        }
    }
}

/// A successful string parse consumed exactly the escaped form of its
/// body and the closing quote; the body is printable ASCII.
pub proof fn lemma_sp_str_sound(s: Seq<u8>)
    requires
        sp_str(s) is Some,
    ensures
        str_ok(sp_str(s)->Some_0.0),
        s == esc(sp_str(s)->Some_0.0) + seq![0x22u8] + sp_str(s)->Some_0.1,
    decreases s.len(),
{
    let c = sp_str(s)->Some_0.0;
    let r = sp_str(s)->Some_0.1;
    if s[0] == 0x22 {
        assert(esc(Seq::<u8>::empty()) =~= Seq::<u8>::empty());
        assert(s =~= esc(c) + seq![0x22u8] + r);
    } else if s[0] == 0x5C {
        let tail = s.skip(2);
        lemma_sp_str_sound(tail);
        let c2 = sp_str(tail)->Some_0.0;
        assert(c == seq![s[1]] + c2);
        assert(c[0] == s[1]);
        assert(forall|i: int| 1 <= i < c.len() ==> c[i] == #[trigger] c2[i - 1]);
        assert(esc(c) =~= esc_byte(c[0]) + esc(c.skip(1)));
        assert(c.skip(1) =~= c2);
        let tl = esc(c2) + seq![0x22u8] + r;
        assert(tail == tl);
        assert(s =~= seq![0x5Cu8, s[1]] + tail);
        assert(seq![0x5Cu8, s[1]] + tl =~= (esc_byte(s[1]) + esc(c2)) + seq![0x22u8] + r);
        assert(esc(c) == esc_byte(s[1]) + esc(c2));
    } else {
        let tail = s.skip(1);
        lemma_sp_str_sound(tail);
        let c2 = sp_str(tail)->Some_0.0;
        assert(c == seq![s[0]] + c2);
        assert(c[0] == s[0]);
        assert(forall|i: int| 1 <= i < c.len() ==> c[i] == #[trigger] c2[i - 1]);
        assert(esc(c) =~= esc_byte(c[0]) + esc(c.skip(1)));
        assert(c.skip(1) =~= c2);
        let tl = esc(c2) + seq![0x22u8] + r;
        assert(tail == tl);
        assert(s =~= seq![s[0]] + tail);
        assert(seq![s[0]] + tl =~= (esc_byte(s[0]) + esc(c2)) + seq![0x22u8] + r);
        assert(esc(c) == esc_byte(s[0]) + esc(c2));
    }
}

/// A successful literal parse consumed exactly the literal.
pub proof fn lemma_sp_lit_sound(s: Seq<u8>, l: Seq<u8>)
    requires
        sp_lit(s, l) is Some,
    ensures
        s == l + sp_lit(s, l)->Some_0,
{
    assert(s =~= s.take(l.len() as int) + s.skip(l.len() as int));
}

/// Escapes a string body for embedding in a JSON string literal.
pub fn escape(s: &Vec<u8>) -> (r: Vec<u8>)
    ensures
        r@ == esc(s@),
{
    let mut out: Vec<u8> = Vec::new();
    let mut i: usize = 0;
    while i < s.len()
        invariant
            i <= s@.len(),
            out@ == esc(s@.take(i as int)),
        decreases s@.len() - i,
    {
        let ghost out_prev = out@;
        let b = s[i];
        if b == 0x22 || b == 0x5C {
            out.push(0x5C);
        }
        out.push(b);
        i = i + 1;
        proof {
            let pre = s@.take(i - 1);
            lemma_esc_append(pre, seq![s@[i - 1]]);
            assert(pre + seq![s@[i - 1]] =~= s@.take(i as int));
            assert(seq![s@[i - 1]].skip(1) =~= Seq::<u8>::empty());
            assert(esc(Seq::<u8>::empty()) =~= Seq::<u8>::empty());
            assert(esc(seq![s@[i - 1]]) =~= esc_byte(s@[i - 1]));
            assert(out@ =~= out_prev + esc_byte(s@[i - 1]));
        }
    }
    proof {
        assert(s@.take(s@.len() as int) =~= s@);
    }
    out
}

/// The composition of a parsed prefix with the string parse of the
/// remaining input.
pub open spec fn sp_str_ctx(prefix: Seq<u8>, s: Seq<u8>) -> Option<(Seq<u8>, Seq<u8>)> {
    match sp_str(s) {
        Some(p) => Some((prefix + p.0, p.1)),
        None => None,
    }
}

/// Parses a JSON string body (after its opening quote) starting at
/// position `i`: the body bytes and the position just past the closing
/// quote.
pub fn parse_string_at(s: &Vec<u8>, i: usize) -> (r: Option<(Vec<u8>, usize)>)
    requires
        i <= s@.len(),
    ensures
        match r {
            Some(p) => i <= p.1 <= s@.len() && sp_str(s@.skip(i as int)) == Some(
                (p.0@, s@.skip(p.1 as int)),
            ) && str_ok(p.0@),
            None => sp_str(s@.skip(i as int)) is None,
        },
{
    let n = s.len();
    let mut out: Vec<u8> = Vec::new();
    let mut p = i;
    while p < n
        invariant
            i <= p <= n == s@.len(),
            sp_str(s@.skip(i as int)) == sp_str_ctx(out@, s@.skip(p as int)),
            str_ok(out@),
        decreases n - p,
    {
        let ghost out_prev = out@;
        let ghost suf = s@.skip(p as int);
        let b = s[p];
        proof {
            assert(suf[0] == s@[p as int]);
        }
        if b == 0x22 {
            proof {
                assert(suf.skip(1) =~= s@.skip(p + 1));
                assert(out@ + Seq::<u8>::empty() =~= out@);
            }
            return Some((out, p + 1));
        } else if b == 0x5C {
            if p + 1 < n {
                let e = s[p + 1];
                proof {
                    assert(suf[1] == s@[p + 1]);
                }
                if e == 0x22 || e == 0x5C {
                    out.push(e);
                    p = p + 2;
                    proof {
                        assert(suf.skip(2) =~= s@.skip(p as int));
                        assert(out@ =~= out_prev + seq![e]);
                        assert(forall|q: int|
                            0 <= q < out@.len() ==> str_byte_ok(#[trigger] out@[q]));
                        match sp_str(s@.skip(p as int)) {
                            Some(q) => {
                                assert(out_prev + (seq![e] + q.0) =~= out@ + q.0);
                            },
                            None => {},
                        }
                    }
                } else {
                    return None;
                }
            } else {
                return None;
            }
        } else if 0x20 <= b && b <= 0x7E {
            out.push(b);
            p = p + 1;
            proof {
                assert(suf.skip(1) =~= s@.skip(p as int));
                assert(out@ =~= out_prev + seq![b]);
                assert(forall|q: int| 0 <= q < out@.len() ==> str_byte_ok(#[trigger] out@[q]));
                match sp_str(s@.skip(p as int)) {
                    Some(q) => {
                        assert(out_prev + (seq![b] + q.0) =~= out@ + q.0);
                    },
                    None => {},
                }
            }
        } else {
            return None;
        }
    }
    proof {
        assert(s@.skip(p as int).len() == 0);
    }
    None
}

/// The remainder of `s` after a required literal prefix.
pub open spec fn sp_lit(s: Seq<u8>, l: Seq<u8>) -> Option<Seq<u8>> {
    if l.len() <= s.len() && s.take(l.len() as int) == l {
        Some(s.skip(l.len() as int))
    } else {
        None
    }
}

/// A literal prefix parses away to the remainder after it.
pub proof fn lemma_sp_lit_of_print(l: Seq<u8>, rest: Seq<u8>)
    ensures
        sp_lit(l + rest, l) == Some(rest),
{
    let s = l + rest;
    assert(s.take(l.len() as int) =~= l);
    assert(s.skip(l.len() as int) =~= rest);
}

/// Consumes the literal `lit` at position `i`, returning the position
/// after it.
pub fn expect_lit(s: &Vec<u8>, i: usize, lit: &Vec<u8>) -> (r: Option<usize>)
    requires
        i <= s@.len(),
    ensures
        match r {
            Some(j) => i <= j <= s@.len() && sp_lit(s@.skip(i as int), lit@) == Some(
                s@.skip(j as int),
            ),
            None => sp_lit(s@.skip(i as int), lit@) is None,
        },
{
    let n = s.len();
    if has_at(s, i, lit) {
        proof {
            assert(i + lit@.len() <= n);
            let suf = s@.skip(i as int);
            assert(suf.take(lit@.len() as int) =~= s@.subrange(
                i as int,
                i as int + lit@.len() as int,
            ));
            assert(suf.skip(lit@.len() as int) =~= s@.skip(i as int + lit@.len() as int));
        }
        Some(i + lit.len())
    } else {
        proof {
            let suf = s@.skip(i as int);
            if lit@.len() <= suf.len() {
                assert(suf.take(lit@.len() as int) =~= s@.subrange(
                    i as int,
                    i as int + lit@.len() as int,
                ));
            }
        }
        None
    }
}

} // verus!
