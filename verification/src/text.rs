//! Decimal rendering of version numbers, and the one UTF-8 trusted item
//! the crate's decoders rely on.

use vstd::prelude::*;
use vstd::utf8::{
    decode_utf8, encode_utf8, encode_utf8_decode_utf8, encode_utf8_valid_utf8,
    is_ascii_chars, is_ascii_chars_encode_utf8, valid_utf8,
};

verus! {

/// The decimal digit character for `d` (meaningful for `d < 10`).
pub open spec fn digit_char(d: nat) -> char {
    ((48 + (d % 10)) as u8) as char
}

/// The decimal digit sequence of `n`, most significant digit first.
pub open spec fn dec_digits(n: nat) -> Seq<char>
    decreases n,
{
    if n < 10 {
        seq![digit_char(n)]
    } else {
        dec_digits(n / 10).push(digit_char(n % 10))
    }
}

/// The ASCII bytes of the decimal digit sequence of `n`.
pub open spec fn dec_bytes(n: nat) -> Seq<u8>
    decreases n,
{
    if n < 10 {
        seq![(48 + n) as u8]
    } else {
        dec_bytes(n / 10).push((48 + n % 10) as u8)
    }
}

/// The reversal of a byte sequence.
pub open spec fn revd(s: Seq<u8>) -> Seq<u8> {
    Seq::new(s.len(), |i: int| s[s.len() - 1 - i])
}

/// The digit characters of `n` are ASCII and correspond byte-for-byte to
/// its digit bytes.
pub proof fn lemma_dec_digits_bytes(n: nat)
    ensures
        dec_digits(n).len() == dec_bytes(n).len(),
        is_ascii_chars(dec_digits(n)),
        forall|i: int|
            0 <= i < dec_bytes(n).len() ==> #[trigger] (dec_digits(n)[i] as u8) == dec_bytes(n)[i]
                && 48 <= dec_bytes(n)[i] < 58,
    decreases n,
{
    if n < 10 {
        assert(dec_digits(n)[0] == digit_char(n));
        assert(digit_char(n) as u8 == (48 + n) as u8);
    } else {
        lemma_dec_digits_bytes(n / 10);
        assert(digit_char(n % 10) as u8 == (48 + n % 10) as u8);
    }
}

/// The UTF-8 encoding of the digit characters of `n` is exactly its digit
/// bytes.
pub proof fn lemma_dec_digits_encode(n: nat)
    ensures
        encode_utf8(dec_digits(n)) =~= dec_bytes(n),
{
    lemma_dec_digits_bytes(n);
    is_ascii_chars_encode_utf8(dec_digits(n));
}

/// Relies on std's `String::from_utf8`: it succeeds exactly on valid UTF-8
/// input and the resulting string's characters encode back to the input
/// bytes unchanged.
#[verifier::external_body]
pub(crate) fn string_from_utf8(v: Vec<u8>) -> (r: Option<String>)
    ensures
        r matches Some(s) ==> encode_utf8(s@) == v@,
        valid_utf8(v@) ==> r is Some,
{
    match String::from_utf8(v) {
        Ok(s) => Some(s),
        Err(_) => None,
    }
}

/// Renders `x` in decimal.
pub fn u32_to_dec_string(x: u32) -> (s: String)
    ensures
        s@ == dec_digits(x as nat),
{
    let mut rev: Vec<u8> = Vec::new();
    rev.push((x % 10) as u8 + 48);
    let mut m: u32 = x / 10;
    proof {
        if x < 10 {
            assert(dec_bytes(x as nat) =~= revd(rev@));
        } else {
            assert(dec_bytes(x as nat) =~= dec_bytes(m as nat) + revd(rev@));
        }
    }
    while m > 0
        invariant
            rev@.len() >= 1,
            dec_bytes(x as nat) =~= (if m > 0 {
                dec_bytes(m as nat) + revd(rev@)
            } else {
                revd(rev@)
            }),
        decreases m,
    {
        let d: u8 = (m % 10) as u8 + 48;
        let ghost old_rev = rev@;
        rev.push(d);
        let ghost old_m = m as nat;
        m = m / 10;
        proof {
            assert(revd(rev@) =~= seq![d] + revd(old_rev));
            if old_m < 10 {
                assert(dec_bytes(old_m) =~= seq![d]);
                assert(dec_bytes(x as nat) =~= revd(rev@));
            } else {
                assert(dec_bytes(old_m) =~= dec_bytes(old_m / 10) + seq![d]);
                assert(dec_bytes(x as nat) =~= dec_bytes(m as nat) + revd(rev@));
            }
        }
    }
    let n = rev.len();
    let mut fwd: Vec<u8> = Vec::new();
    let mut i: usize = n;
    while i > 0
        invariant
            i <= n,
            n == rev@.len(),
            fwd@.len() == n - i,
            forall|j: int| 0 <= j < fwd@.len() ==> #[trigger] fwd@[j] == rev@[n - 1 - j],
        decreases i,
    {
        i -= 1;
        fwd.push(rev[i]);
    }
    proof {
        assert(fwd@ =~= revd(rev@));
        assert(fwd@ =~= dec_bytes(x as nat));
        lemma_dec_digits_encode(x as nat);
        encode_utf8_valid_utf8(dec_digits(x as nat));
        assert(valid_utf8(fwd@));
    }
    let r = string_from_utf8(fwd);
    let s = r.unwrap();
    proof {
        encode_utf8_decode_utf8(s@);
        encode_utf8_decode_utf8(dec_digits(x as nat));
        assert(decode_utf8(encode_utf8(s@)) == decode_utf8(encode_utf8(dec_digits(x as nat))));
    }
    s
}

/// Whether two string slices hold the same characters.
pub fn str_eq(a: &str, b: &str) -> (r: bool)
    ensures
        r == (a@ == b@),
{
    let ab = a.as_bytes();
    let bb = b.as_bytes();
    let r = crate::wire::bytes_eq(ab, bb);
    proof {
        encode_utf8_decode_utf8(a@);
        encode_utf8_decode_utf8(b@);
    }
    r
}

} // verus!
