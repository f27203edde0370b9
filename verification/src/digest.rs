//! The cryptographic digest behind candidate path names, and its hex
//! rendering.

use vstd::prelude::*;

use crate::numbers::dec_digit;

verus! {

/// The SHA-1 digest of the UTF-8 bytes of a character sequence. The digest
/// itself is outside what this crate states; only its determinism and length
/// are relied on.
pub uninterp spec fn sha1_of(s: Seq<char>) -> Seq<u8>;

/// Relies on the sha1 crate's `Sha1` through the `Digest` trait: the digest
/// is a function of the input bytes alone, and a SHA-1 digest is 20 bytes.
#[verifier::external_body]
pub fn sha1_digest(s: &str) -> (r: Vec<u8>)
    ensures
        r@ == sha1_of(s@),
        r@.len() == 20,
{
    let digest = <sha1::Sha1 as sha1::Digest>::digest(s.as_bytes());
    digest.to_vec()
}

/// The lowercase hex character for one value below sixteen.
pub open spec fn hex_digit(d: int) -> char {
    if d < 10 {
        dec_digit(d)
    } else if d == 10 {
        'a'
    } else if d == 11 {
        'b'
    } else if d == 12 {
        'c'
    } else if d == 13 {
        'd'
    } else if d == 14 {
        'e'
    } else {
        'f'
    }
}

/// Lowercase hex of a byte string: two characters per byte, high nibble
/// first.
pub open spec fn hex_chars(bytes: Seq<u8>) -> Seq<char> {
    Seq::new(
        2 * bytes.len(),
        |i: int|
            if i % 2 == 0 {
                hex_digit(bytes[i / 2] as int / 16)
            } else {
                hex_digit(bytes[i / 2] as int % 16)
            },
    )
}

/// Relies on hex::encode: lowercase hex, two digits per byte, high nibble
/// first.
#[verifier::external_body]
pub fn hex_lower(bytes: &Vec<u8>) -> (r: String)
    ensures
        r@ == hex_chars(bytes@),
{
    hex::encode(bytes)
}

} // verus!
