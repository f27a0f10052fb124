//! Helpers for moving between byte vectors and strings.
//!
//! The token wire format is plain ASCII, so the codec modules work on
//! `Vec<u8>` throughout and only convert to `String` at the public
//! boundary.

use vstd::prelude::*;

verus! {

/// The characters of a byte sequence, one character per byte.
pub open spec fn chars_of_bytes(s: Seq<u8>) -> Seq<char> {
    s.map(|_i: int, b: u8| b as char)
}

/// The bytes of a character sequence, one byte per character.
/// Faithful only when every character is below 0x100.
pub open spec fn bytes_of_chars(s: Seq<char>) -> Seq<u8> {
    s.map(|_i: int, c: char| c as u8)
}

/// Every byte is in the ASCII range.
pub open spec fn all_ascii(s: Seq<u8>) -> bool {
    forall|i: int| 0 <= i < s.len() ==> s[i] < 0x80
}

/// Converting bytes to characters and back is the identity.
pub proof fn lemma_bytes_chars_roundtrip(s: Seq<u8>)
    ensures
        bytes_of_chars(chars_of_bytes(s)) == s,
{
    assert(bytes_of_chars(chars_of_bytes(s)) =~= s);
}

/// Relies on std's `String::push`: appends the given character to the
/// end of the string.
pub assume_specification[ String::push ](s: &mut String, c: char)
    ensures
        final(s)@ == old(s)@.push(c),
;

/// Builds the string whose characters are the given bytes.
pub fn bytes_to_string(v: &Vec<u8>) -> (r: String)
    ensures
        r@ == chars_of_bytes(v@),
{
    let mut r = String::new();
    let mut i: usize = 0;
    while i < v.len()
        invariant
            i <= v@.len(),
            r@ == chars_of_bytes(v@.take(i as int)),
        decreases v@.len() - i,
    {
        r.push(v[i] as char);
        i = i + 1;
        proof {
            assert(chars_of_bytes(v@.take(i as int)) =~= chars_of_bytes(
                v@.take(i - 1),
            ).push(v@[i - 1] as char));
        }
    }
    proof {
        assert(v@.take(v@.len() as int) =~= v@);
    }
    r
}

/// Copies the bytes of a string into a vector, one byte per character.
/// Faithful only for ASCII strings, which is all the callers pass.
pub fn string_to_bytes(s: &str) -> (r: Vec<u8>)
    requires
        s.is_ascii(),
    ensures
        r@ == bytes_of_chars(s@),
        all_ascii(r@),
{
    proof {
        vstd::string::is_ascii_spec_bytes(s);
    }
    let r = s.as_bytes_vec();
    proof {
        assert(r@ =~= bytes_of_chars(s@));
    }
    r
}

/// The bytes of `v` from `a` (inclusive) to `b` (exclusive), as a fresh
/// vector.
pub fn sub_vec(v: &Vec<u8>, a: usize, b: usize) -> (r: Vec<u8>)
    requires
        a <= b <= v@.len(),
    ensures
        r@ == v@.subrange(a as int, b as int),
{
    let mut r: Vec<u8> = Vec::new();
    let mut i: usize = a;
    while i < b
        invariant
            a <= i <= b <= v@.len(),
            r@ == v@.subrange(a as int, i as int),
        decreases b - i,
    {
        r.push(v[i]);
        i = i + 1;
        proof {
            assert(v@.subrange(a as int, i as int) =~= v@.subrange(a as int, i - 1).push(
                v@[i - 1],
            ));
        }
    }
    r
}

/// Whether two byte vectors hold the same bytes.
pub fn vec_eq(a: &Vec<u8>, b: &Vec<u8>) -> (r: bool)
    ensures
        r == (a@ == b@),
{
    if a.len() != b.len() {
        return false;
    }
    let mut i: usize = 0;
    while i < a.len()
        invariant
            i <= a@.len() == b@.len(),
            forall|k: int| 0 <= k < i ==> a@[k] == b@[k],
        decreases a@.len() - i,
    {
        if a[i] != b[i] {
            return false;
        }
        i = i + 1;
    }
    proof {
        assert(a@ =~= b@);
    }
    true
}

/// Whether every byte of `v` is in the ASCII range.
pub fn check_ascii(v: &Vec<u8>) -> (r: bool)
    ensures
        r == all_ascii(v@),
{
    let mut i: usize = 0;
    while i < v.len()
        invariant
            i <= v@.len(),
            forall|k: int| 0 <= k < i ==> #[trigger] v@[k] < 0x80,
        decreases v@.len() - i,
    {
        if v[i] >= 0x80 {
            return false;
        }
        i = i + 1;
    }
    true
}

/// Whether `v` carries exactly the bytes of `lit` starting at `i`.
pub fn has_at(v: &Vec<u8>, i: usize, lit: &Vec<u8>) -> (r: bool)
    requires
        i <= v@.len(),
    ensures
        r == (i + lit@.len() <= v@.len() && v@.subrange(
            i as int,
            i as int + lit@.len() as int,
        ) == lit@),
{
    if v.len() - i < lit.len() {
        return false;
    }
    let mut k: usize = 0;
    while k < lit.len()
        invariant
            k <= lit@.len(),
            i + lit@.len() <= v@.len() <= usize::MAX,
            forall|m: int| 0 <= m < k ==> v@[i + m] == lit@[m],
        decreases lit@.len() - k,
    {
        proof {
            assert(i + k < v@.len());
        }
        if v[i + k] != lit[k] {
            proof {
                assert(v@.subrange(i as int, i as int + lit@.len() as int)[k as int] != lit@[
                k as int]);
            }
            return false;
        }
        k = k + 1;
    }
    proof {
        assert(v@.subrange(i as int, i as int + lit@.len() as int) =~= lit@);
    }
    true
}

} // verus!
