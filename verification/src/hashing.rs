//! Hashing and rendering primitives.
//!
//! The SHA-256 digest itself is computed by the `sha2` crate and is only
//! named here; hex encoding has an exact character-level specification
//! that the `hex` crate's wrapper is held to.

use sha2::Digest;
use vstd::prelude::*;

verus! {

/// The SHA-256 digest of a byte sequence. The digest is a pure function
/// of its input; its 32-byte length is stated by the wrapper below.
pub uninterp spec fn sha256_of(bytes: Seq<u8>) -> Seq<u8>;

/// Relies on `sha2::Sha256::digest` (the RustCrypto `Digest` trait):
/// SHA-256 of the input, always 32 bytes, a function of the input alone.
#[verifier::external_body]
pub fn sha256(bytes: &[u8]) -> (r: Vec<u8>)
    ensures
        r@ == sha256_of(bytes@),
        r@.len() == 32,
{
    sha2::Sha256::digest(bytes).to_vec()
}

/// The lowercase hex digit for a value below 16.
pub open spec fn hex_digit(d: nat) -> char {
    if d == 0 { '0' } else if d == 1 { '1' } else if d == 2 { '2' } else if d == 3 { '3' }
    else if d == 4 { '4' } else if d == 5 { '5' } else if d == 6 { '6' } else if d == 7 { '7' }
    else if d == 8 { '8' } else if d == 9 { '9' } else if d == 10 { 'a' } else if d == 11 { 'b' }
    else if d == 12 { 'c' } else if d == 13 { 'd' } else if d == 14 { 'e' } else { 'f' }
}

/// Lowercase hex encoding: two digits per byte, high nibble first.
pub open spec fn hex_of(bytes: Seq<u8>) -> Seq<char>
    decreases bytes.len(),
{
    if bytes.len() == 0 {
        Seq::<char>::empty()
    } else {
        seq![
            hex_digit((bytes[0] / 16) as nat),
            hex_digit((bytes[0] % 16) as nat),
        ] + hex_of(bytes.skip(1))
    }
}

/// Relies on `hex::encode`: lowercase hex, exactly two digits per input
/// byte, high nibble first.
#[verifier::external_body]
pub fn hex_encode(bytes: &[u8]) -> (r: String)
    ensures
        r@ == hex_of(bytes@),
{
    hex::encode(bytes)
}

/// Each byte contributes exactly two characters.
pub proof fn lemma_hex_of_len(bytes: Seq<u8>)
    ensures
        hex_of(bytes).len() == 2 * bytes.len(),
    decreases bytes.len(),
{
    if bytes.len() > 0 {
        lemma_hex_of_len(bytes.skip(1));
    }
}

/// Every character of a hex encoding is a lowercase hex digit.
pub proof fn lemma_hex_of_digits(bytes: Seq<u8>)
    ensures
        forall|i: int|
            0 <= i < hex_of(bytes).len() ==> is_hex_digit_char(#[trigger] hex_of(bytes)[i]),
    decreases bytes.len(),
{
    if bytes.len() > 0 {
        lemma_hex_of_digits(bytes.skip(1));
        lemma_hex_of_len(bytes.skip(1));
    }
}

/// A lowercase ASCII hex digit.
pub open spec fn is_hex_digit_char(c: char) -> bool {
    ('0' <= c && c <= '9') || ('a' <= c && c <= 'f')
}

/// A project's short stable identifier: the first six digest bytes of
/// the SHA-256 of its path, hex encoded — twelve hex characters.
pub open spec fn project_hash_spec(path_bytes: Seq<u8>) -> Seq<char> {
    hex_of(sha256_of(path_bytes).take(6))
}

/// The decimal digit character for a value below 10.
pub open spec fn dec_digit(d: nat) -> char {
    if d == 0 { '0' } else if d == 1 { '1' } else if d == 2 { '2' } else if d == 3 { '3' }
    else if d == 4 { '4' } else if d == 5 { '5' } else if d == 6 { '6' } else if d == 7 { '7' }
    else if d == 8 { '8' } else { '9' }
}

/// The decimal rendering of `n`, most significant digit first, no
/// leading zeros (a single `'0'` for zero).
pub open spec fn decimal_of(n: nat) -> Seq<char>
    decreases n,
{
    if n < 10 {
        seq![dec_digit(n)]
    } else {
        decimal_of(n / 10) + seq![dec_digit(n % 10)]
    }
}

fn dec_digit_exec(d: u64) -> (c: char)
    requires
        d < 10,
    ensures
        c == dec_digit(d as nat),
{
    if d == 0 { '0' } else if d == 1 { '1' } else if d == 2 { '2' } else if d == 3 { '3' }
    else if d == 4 { '4' } else if d == 5 { '5' } else if d == 6 { '6' } else if d == 7 { '7' }
    else if d == 8 { '8' } else { '9' }
}

fn push_decimal(n: u64, out: &mut Vec<char>)
    ensures
        final(out)@ == old(out)@ + decimal_of(n as nat),
    decreases n,
{
    if n < 10 {
        out.push(dec_digit_exec(n));
    } else {
        push_decimal(n / 10, out);
        out.push(dec_digit_exec(n % 10));
        proof {
            assert(out@ =~= old(out)@ + decimal_of(n as nat));
        }
    }
}

/// The decimal rendering of `n` as a string.
pub fn decimal_string(n: u64) -> (r: String)
    ensures
        r@ == decimal_of(n as nat),
{
    let mut digits: Vec<char> = Vec::new();
    push_decimal(n, &mut digits);
    proof {
        assert(digits@ =~= decimal_of(n as nat));
    }
    crate::strutil::string_from_chars(&digits)
}

} // verus!
