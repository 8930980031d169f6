use sha2::Digest;
use vstd::prelude::*;

verus! {

/// The SHA-256 digest of a byte sequence, as sha2 computes it.
///
/// The digest is a pure function of the input bytes; its value is not stated
/// here, only named, so everything proved about hashes holds for whatever
/// SHA-256 actually returns.
pub uninterp spec fn sha256_of(s: Seq<u8>) -> Seq<u8>;

/// Relies on sha2::Sha256: the digest depends on the input bytes alone and is
/// always 32 bytes long.
#[verifier::external_body]
pub fn sha256(data: &[u8]) -> (r: Vec<u8>)
    ensures
        r@ == sha256_of(data@),
        r@.len() == 32,
{
    let mut hasher = sha2::Sha256::new();
    hasher.update(data);
    hasher.finalize().to_vec()
}

/// The lowercase hexadecimal digit for a nibble.
pub open spec fn hex_digit_char(d: u8) -> char
    recommends
        d < 16,
{
    if d == 0 { '0' }
    else if d == 1 { '1' }
    else if d == 2 { '2' }
    else if d == 3 { '3' }
    else if d == 4 { '4' }
    else if d == 5 { '5' }
    else if d == 6 { '6' }
    else if d == 7 { '7' }
    else if d == 8 { '8' }
    else if d == 9 { '9' }
    else if d == 10 { 'a' }
    else if d == 11 { 'b' }
    else if d == 12 { 'c' }
    else if d == 13 { 'd' }
    else if d == 14 { 'e' }
    else { 'f' }
}

/// Lowercase hexadecimal rendering of bytes: two digits per byte, high nibble
/// first.
pub open spec fn spec_hex_of(s: Seq<u8>) -> Seq<char> {
    Seq::new(
        2 * s.len(),
        |i: int|
            if i % 2 == 0 {
                hex_digit_char(s[i / 2] >> 4)
            } else {
                hex_digit_char(s[i / 2] & 0xf)
            },
    )
}

/// Relies on hex::encode: lowercase hexadecimal, two digits per byte, high
/// nibble first.
#[verifier::external_body]
pub fn hex_encode(data: &[u8]) -> (r: String)
    ensures
        r@ == spec_hex_of(data@),
{
    hex::encode(data)
}

} // verus!
