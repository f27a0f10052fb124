//! Canonical decimal rendering and parsing of integers, used by the
//! claims payload codec.
//!
//! The canonical form has no leading zeros, no plus sign, and `-` only
//! on strictly negative values, which makes rendering and parsing exact
//! inverses of each other.

use vstd::prelude::*;

use crate::ascii::{bytes_to_string, chars_of_bytes};

verus! {

/// Whether `b` is an ASCII decimal digit.
pub open spec fn is_digit(b: u8) -> bool {
    0x30 <= b <= 0x39
}

/// The digit byte for a value in 0..10.
pub open spec fn digit_byte(d: int) -> u8 {
    (0x30 + d) as u8
}

/// Canonical decimal digits of a natural number, most significant
/// first.
pub open spec fn dec_nat(n: nat) -> Seq<u8>
    decreases n,
{
    if n < 10 {
        seq![digit_byte(n as int)]
    } else {
        dec_nat(n / 10).push(digit_byte((n % 10) as int))
    }
}

/// Canonical decimal rendering of an integer: a minus sign on negative
/// values, then the digits of the magnitude.
pub open spec fn dec_int(v: int) -> Seq<u8> {
    if v < 0 {
        seq![0x2Du8] + dec_nat((-v) as nat)
    } else {
        dec_nat(v as nat)
    }
}

/// 10 to the power `k`.
pub open spec fn pow10(k: nat) -> int
    decreases k,
{
    if k == 0 {
        1
    } else {
        10 * pow10((k - 1) as nat)
    }
}

/// The value of a digit sequence, most significant first.
pub open spec fn dec_val(d: Seq<u8>) -> int
    decreases d.len(),
{
    if d.len() == 0 {
        0
    } else {
        10 * dec_val(d.drop_last()) + (d.last() - 0x30)
    }
}

/// The length of the longest digit prefix of `s`.
pub open spec fn digit_run(s: Seq<u8>) -> nat
    decreases s.len(),
{
    if s.len() > 0 && is_digit(s[0]) {
        1 + digit_run(s.drop_first())
    } else {
        0
    }
}

/// Parses a canonical unsigned decimal prefix of `s`: its value and
/// the remainder of the input. Fails when `s` does not start with a
/// digit or starts with a superfluous leading zero.
pub open spec fn sp_nat(s: Seq<u8>) -> Option<(int, Seq<u8>)> {
    let k = digit_run(s) as int;
    if k == 0 {
        None
    } else if s[0] == 0x30 && k > 1 {
        None
    } else {
        Some((dec_val(s.take(k)), s.skip(k)))
    }
}

/// Parses a canonical signed decimal prefix of `s` whose value fits in
/// an `i64`. Rejects `-0` and out-of-range values.
pub open spec fn sp_i64(s: Seq<u8>) -> Option<(int, Seq<u8>)> {
    if s.len() > 0 && s[0] == 0x2D {
        match sp_nat(s.skip(1)) {
            Some((n, r)) => if 0 < n <= 0x8000000000000000 {
                Some((-n, r))
            } else {
                None
            },
            None => None,
        }
    } else {
        match sp_nat(s) {
            Some((n, r)) => if n <= 0x7FFFFFFFFFFFFFFF {
                Some((n, r))
            } else {
                None
            },
            None => None,
        }
    }
}

/// `10^k` is positive and weakly monotone in `k`.
pub proof fn lemma_pow10_mono(a: nat, b: nat)
    requires
        a <= b,
    ensures
        0 < pow10(a) <= pow10(b),
    decreases b,
{
    if b > 0 {
        if a == b {
            lemma_pow10_mono((a - 1) as nat, (b - 1) as nat);
        } else {
            lemma_pow10_mono(a, (b - 1) as nat);
        }
    }
}

/// The two powers of ten that bracket the `u64` range, as numerals.
pub proof fn lemma_pow10_concrete()
    ensures
        pow10(18) == 0xDE0B6B3A7640000,
        pow10(19) == 0x8AC7230489E80000,
{
    reveal_with_fuel(pow10, 20);
}

/// Every byte of the canonical rendering is a digit, the rendering is
/// nonempty, and its first digit is zero only for the number zero.
pub proof fn lemma_dec_nat_shape(n: nat)
    ensures
        dec_nat(n).len() >= 1,
        forall|i: int| 0 <= i < dec_nat(n).len() ==> is_digit(#[trigger] dec_nat(n)[i]),
        n > 0 ==> dec_nat(n)[0] != 0x30,
        n < 10 <==> dec_nat(n).len() == 1,
    decreases n,
{
    if n >= 10 {
        lemma_dec_nat_shape(n / 10);
    }
}

/// Rendering then evaluating a natural number gives it back.
pub proof fn lemma_dec_val_dec_nat(n: nat)
    ensures
        dec_val(dec_nat(n)) == n,
    decreases n,
{
    reveal_with_fuel(dec_val, 3);
    if n < 10 {
        assert(dec_nat(n).drop_last() =~= Seq::<u8>::empty());
        assert(dec_nat(n).last() == digit_byte(n as int));
        assert(digit_byte(n as int) - 0x30 == n);
    } else {
        lemma_dec_val_dec_nat(n / 10);
        assert(dec_nat(n).drop_last() =~= dec_nat(n / 10));
        assert(dec_nat(n).last() == digit_byte((n % 10) as int));
        assert(digit_byte((n % 10) as int) - 0x30 == n % 10);
        assert(dec_val(dec_nat(n)) == 10 * (n / 10) + n % 10);
    }
}

/// A digit sequence of length `k` has value below `10^k`.
pub proof fn lemma_dec_val_upper(d: Seq<u8>)
    requires
        forall|i: int| 0 <= i < d.len() ==> is_digit(#[trigger] d[i]),
    ensures
        0 <= dec_val(d) < pow10(d.len()),
    decreases d.len(),
{
    if d.len() > 0 {
        lemma_dec_val_upper(d.drop_last());
    }
}

/// A digit sequence without a leading zero has value at least
/// `10^(len-1)`.
pub proof fn lemma_dec_val_lower(d: Seq<u8>)
    requires
        d.len() >= 1,
        forall|i: int| 0 <= i < d.len() ==> is_digit(#[trigger] d[i]),
        d[0] != 0x30,
    ensures
        dec_val(d) >= pow10((d.len() - 1) as nat),
    decreases d.len(),
{
    reveal_with_fuel(dec_val, 3);
    if d.len() == 1 {
        assert(d.last() == d[0]);
        assert(d.drop_last() =~= Seq::<u8>::empty());
        assert(dec_val(d) == d[0] - 0x30);
    } else {
        let e = d.drop_last();
        assert(e[0] == d[0]);
        assert(forall|i: int| 0 <= i < e.len() ==> is_digit(#[trigger] e[i]));
        lemma_dec_val_lower(e);
        assert(is_digit(d.last()));
        assert(dec_val(d) >= 10 * dec_val(e));
    }
}

/// The digit run of a sequence that starts with `k` digits followed by
/// a non-digit (or the end) is exactly `k`.
pub proof fn lemma_digit_run_len(s: Seq<u8>, k: int)
    requires
        0 <= k <= s.len(),
        forall|i: int| 0 <= i < k ==> is_digit(#[trigger] s[i]),
        k == s.len() || !is_digit(s[k]),
    ensures
        digit_run(s) == k,
    decreases k,
{
    if k == 0 {
    } else {
        lemma_digit_run_len(s.drop_first(), k - 1);
    }
}

/// Evaluating one more digit multiplies the prefix value by ten.
pub proof fn lemma_dec_val_step(s: Seq<u8>, a: int, m: int)
    requires
        0 <= a <= m < s.len(),
    ensures
        dec_val(s.subrange(a, m + 1)) == 10 * dec_val(s.subrange(a, m)) + (s[m] - 0x30),
{
    assert(s.subrange(a, m + 1).drop_last() =~= s.subrange(a, m));
    assert(s.subrange(a, m + 1).last() == s[m]);
}

/// Parsing the canonical rendering of `n`, followed by anything that
/// does not begin with a digit, yields `n` and that remainder.
pub proof fn lemma_sp_nat_of_print(n: nat, rest: Seq<u8>)
    requires
        rest.len() == 0 || !is_digit(rest[0]),
    ensures
        sp_nat(dec_nat(n) + rest) == Some((n as int, rest)),
{
    let d = dec_nat(n);
    let s = d + rest;
    lemma_dec_nat_shape(n);
    lemma_dec_val_dec_nat(n);
    assert(forall|i: int| 0 <= i < d.len() ==> is_digit(#[trigger] s[i]));
    if d.len() < s.len() {
        assert(s[d.len() as int] == rest[0]);
    }
    lemma_digit_run_len(s, d.len() as int);
    assert(s.take(d.len() as int) =~= d);
    assert(s.skip(d.len() as int) =~= rest);
    if n == 0 {
        assert(digit_run(s) == 1);
    } else {
        assert(s[0] == d[0] && d[0] != 0x30);
    }
}

/// Parsing the canonical rendering of an `i64` value, followed by
/// anything that does not begin with a digit, yields that value and
/// that remainder.
pub proof fn lemma_sp_i64_of_print(v: int, rest: Seq<u8>)
    requires
        -0x8000000000000000 <= v <= 0x7FFFFFFFFFFFFFFF,
        rest.len() == 0 || !is_digit(rest[0]),
    ensures
        sp_i64(dec_int(v) + rest) == Some((v, rest)),
{
    let s = dec_int(v) + rest;
    if v < 0 {
        let d = dec_nat((-v) as nat);
        lemma_sp_nat_of_print((-v) as nat, rest);
        assert(s[0] == 0x2D);
        assert(s.skip(1) =~= d + rest);
    } else {
        lemma_sp_nat_of_print(v as nat, rest);
        lemma_dec_nat_shape(v as nat);
        assert(s[0] == dec_nat(v as nat)[0]);
    }
}

/// A digit sequence without a superfluous leading zero is the
/// canonical rendering of its own value.
pub proof fn lemma_dec_nat_of_digits(d: Seq<u8>)
    requires
        d.len() >= 1,
        forall|i: int| 0 <= i < d.len() ==> is_digit(#[trigger] d[i]),
        d[0] != 0x30 || d.len() == 1,
    ensures
        dec_val(d) >= 0,
        dec_nat(dec_val(d) as nat) == d,
    decreases d.len(),
{
    lemma_dec_val_upper(d);
    let v = dec_val(d);
    if d.len() == 1 {
        assert(d.drop_last() =~= Seq::<u8>::empty());
        reveal_with_fuel(dec_val, 2);
        assert(v == d[0] - 0x30);
        assert(dec_nat(v as nat) =~= d);
    } else {
        let e = d.drop_last();
        assert(e[0] == d[0]);
        assert(forall|i: int| 0 <= i < e.len() ==> is_digit(#[trigger] e[i]));
        lemma_dec_nat_of_digits(e);
        lemma_dec_val_lower(d);
        lemma_pow10_mono(1, (d.len() - 1) as nat);
        assert(v >= 10);
        assert(v == 10 * dec_val(e) + (d.last() - 0x30));
        assert(v as nat / 10 == dec_val(e));
        assert(v as nat % 10 == d.last() - 0x30);
        assert(digit_byte((v as nat % 10) as int) == d.last());
        assert(dec_nat(v as nat) =~= d);
    }
}

/// A successful unsigned parse consumed exactly the canonical
/// rendering of its value.
pub proof fn lemma_sp_nat_sound(s: Seq<u8>)
    requires
        sp_nat(s) is Some,
    ensures
        0 <= sp_nat(s)->Some_0.0,
        s == dec_nat(sp_nat(s)->Some_0.0 as nat) + sp_nat(s)->Some_0.1,
{
    let k = digit_run(s) as int;
    let d = s.take(k);
    lemma_digit_run_prefix(s);
    assert(forall|i: int| 0 <= i < k ==> is_digit(#[trigger] d[i]));
    assert(d[0] == s[0]);
    lemma_dec_nat_of_digits(d);
    assert(s =~= d + s.skip(k));
}

/// The digit run of `s` is made of digits.
pub proof fn lemma_digit_run_prefix(s: Seq<u8>)
    ensures
        digit_run(s) <= s.len(),
        forall|i: int| 0 <= i < digit_run(s) ==> is_digit(#[trigger] s[i]),
    decreases s.len(),
{
    if s.len() > 0 && is_digit(s[0]) {
        lemma_digit_run_prefix(s.drop_first());
        assert forall|i: int| 0 <= i < digit_run(s) implies is_digit(#[trigger] s[i]) by {
            if i >= 1 {
                assert(s.drop_first()[i - 1] == s[i]);
                assert(is_digit(s.drop_first()[i - 1]));
            }
        }
    }
}

/// A successful signed parse consumed exactly the canonical rendering
/// of its value.
pub proof fn lemma_sp_i64_sound(s: Seq<u8>)
    requires
        sp_i64(s) is Some,
    ensures
        -0x8000000000000000 <= sp_i64(s)->Some_0.0 <= 0x7FFFFFFFFFFFFFFF,
        s == dec_int(sp_i64(s)->Some_0.0) + sp_i64(s)->Some_0.1,
{
    if s.len() > 0 && s[0] == 0x2D {
        let body = s.skip(1);
        lemma_sp_nat_sound(body);
        let n = sp_nat(body)->Some_0.0;
        let r = sp_nat(body)->Some_0.1;
        assert(s =~= seq![0x2Du8] + body);
        assert(seq![0x2Du8] + (dec_nat(n as nat) + r) =~= (seq![0x2Du8] + dec_nat(n as nat))
            + r);
    } else {
        lemma_sp_nat_sound(s);
    }
}

/// Renders a natural number in canonical decimal.
pub fn u64_to_dec(n: u64) -> (r: Vec<u8>)
    ensures
        r@ == dec_nat(n as nat),
{
    let mut out: Vec<u8> = Vec::new();
    let d0: u8 = (n % 10) as u8 + 0x30;
    out.push(d0);
    let mut m: u64 = n / 10;
    proof {
        if n >= 10 {
            assert(dec_nat(n as nat) =~= dec_nat((n / 10) as nat) + out@);
        } else {
            assert(out@ =~= dec_nat(n as nat));
        }
    }
    while m > 0
        invariant
            dec_nat(n as nat) == if m > 0 {
                dec_nat(m as nat) + out@
            } else {
                out@
            },
        decreases m,
    {
        let ghost out_prev = out@;
        let d: u8 = (m % 10) as u8 + 0x30;
        out.insert(0, d);
        proof {
            assert(out@ =~= seq![d] + out_prev);
            if m >= 10 {
                assert(dec_nat(m as nat) =~= dec_nat((m / 10) as nat) + seq![d]);
                assert(dec_nat((m / 10) as nat) + out@ =~= dec_nat(m as nat) + out_prev);
            } else {
                assert(dec_nat(m as nat) =~= seq![d]);
                assert(out@ =~= dec_nat(m as nat) + out_prev);
            }
        }
        m = m / 10;
    }
    out
}

/// Renders an integer in canonical decimal.
pub fn i64_to_dec(v: i64) -> (r: Vec<u8>)
    ensures
        r@ == dec_int(v as int),
{
    if v >= 0 {
        u64_to_dec(v as u64)
    } else {
        let mag: u64 = (-(v as i128)) as u64;
        let mut out: Vec<u8> = Vec::new();
        out.push(0x2D);
        let mut digits = u64_to_dec(mag);
        out.append(&mut digits);
        proof {
            assert(out@ =~= dec_int(v as int));
        }
        out
    }
}

/// Renders a natural number in canonical decimal, as a string.
pub fn u64_to_string(n: u64) -> (r: String)
    ensures
        r@ == chars_of_bytes(dec_nat(n as nat)),
{
    let d = u64_to_dec(n);
    bytes_to_string(&d)
}

/// Renders an integer in canonical decimal, as a string.
pub fn i64_to_string(v: i64) -> (r: String)
    ensures
        r@ == chars_of_bytes(dec_int(v as int)),
{
    let d = i64_to_dec(v);
    bytes_to_string(&d)
}

/// Parses a canonical signed decimal at position `i` of `s`, returning
/// the value and the position just past its digits.
pub fn parse_i64_at(s: &Vec<u8>, i: usize) -> (r: Option<(i64, usize)>)
    requires
        i <= s@.len(),
    ensures
        match r {
            Some(p) => i <= p.1 <= s@.len() && sp_i64(s@.skip(i as int)) == Some(
                (p.0 as int, s@.skip(p.1 as int)),
            ),
            None => sp_i64(s@.skip(i as int)) is None,
        },
{
    let n = s.len();
    let mut neg = false;
    let mut p = i;
    if p < n && s[p] == 0x2D {
        neg = true;
        p = p + 1;
    }
    let ghost body = s@.skip(p as int);
    proof {
        let si = s@.skip(i as int);
        if neg {
            assert(si[0] == s@[i as int]);
            assert(si.skip(1) =~= body);
        } else {
            assert(si =~= body);
            if i < s@.len() {
                assert(si[0] == s@[i as int]);
            }
        }
    }
    // scan the digit run
    let mut j = p;
    while j < n && 0x30 <= s[j] && s[j] <= 0x39
        invariant
            p <= j <= n == s@.len(),
            forall|m: int| p <= m < j ==> is_digit(#[trigger] s@[m]),
        decreases n - j,
    {
        j = j + 1;
    }
    let k = j - p;
    proof {
        assert(forall|m: int| 0 <= m < k ==> body[m] == s@[p + m]);
        if j < n {
            assert(body[k as int] == s@[j as int]);
        }
        lemma_digit_run_len(body, k as int);
        assert(body.skip(k as int) =~= s@.skip(j as int));
    }
    if k == 0 {
        return None;
    }
    if s[p] == 0x30 {
        if k > 1 {
            proof {
                assert(body[0] == s@[p as int]);
            }
            return None;
        }
    }
    proof {
        assert(body[0] == s@[p as int]);
        assert(body.take(k as int) =~= s@.subrange(p as int, j as int));
        assert(forall|m: int|
            0 <= m < k ==> is_digit(#[trigger] body.take(k as int)[m]));
    }
    if k > 19 {
        proof {
            let d = body.take(k as int);
            lemma_dec_val_lower(d);
            lemma_pow10_mono(19, (k - 1) as nat);
            lemma_pow10_concrete();
        }
        return None;
    }
    // evaluate the digits; at most 19 of them, so a u64 cannot overflow
    let mut acc: u64 = 0;
    let mut m = p;
    while m < j
        invariant
            p <= m <= j <= s@.len(),
            j - p == k,
            k <= 19,
            forall|q: int| p <= q < j ==> is_digit(#[trigger] s@[q]),
            acc == dec_val(s@.subrange(p as int, m as int)),
            0 <= acc < pow10((m - p) as nat),
        decreases j - m,
    {
        proof {
            lemma_dec_val_step(s@, p as int, m as int);
            lemma_pow10_mono((m - p) as nat, 18);
            lemma_pow10_concrete();
            lemma_dec_val_upper(s@.subrange(p as int, m + 1));
            assert(forall|q: int|
                0 <= q < m + 1 - p ==> is_digit(#[trigger] s@.subrange(p as int, m + 1)[q]));
        }
        acc = acc * 10 + (s[m] - 0x30) as u64;
        m = m + 1;
    }
    proof {
        assert(s@.subrange(p as int, j as int) =~= body.take(k as int));
    }
    if neg {
        if acc == 0 {
            return None;
        }
        if acc > 0x8000000000000000 {
            return None;
        }
        let v: i64 = (-(acc as i128)) as i64;
        Some((v, j))
    } else {
        if acc > 0x7FFFFFFFFFFFFFFF {
            return None;
        }
        Some((acc as i64, j))
    }
}

} // verus!
