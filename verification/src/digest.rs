//! Content hashing: SHA-256 through the `sha2` crate, rendered in lowercase
//! hex through the `hex` crate. The digest itself is trusted; everything said
//! about the hex rendering is an exact statement that the callers build on.

use sha2::Digest;
use vstd::prelude::*;

verus! {

/// The SHA-256 digest of a byte sequence. The digest is a fixed function of
/// the input alone; its definition is left to the `sha2` crate.
pub uninterp spec fn sha256_of(data: Seq<u8>) -> Seq<u8>;

/// Relies on sha2's `Sha256::digest`: the digest depends on the input bytes
/// alone and is always 32 bytes long.
#[verifier::external_body]
pub(crate) fn sha256(data: &Vec<u8>) -> (r: Vec<u8>)
    ensures
        r@ == sha256_of(data@),
        r@.len() == 32,
{
    sha2::Sha256::digest(data.as_slice()).to_vec()
}

/// The lowercase hex character (as a byte) for a nibble value.
pub open spec fn hex_digit(n: u8) -> u8 {
    if n < 10 {
        (48 + n) as u8  // '0'..'9'
    } else {
        (87 + n) as u8  // 'a'..'f'
    }
}

/// Lowercase hex rendering of a byte sequence, high nibble first.
pub open spec fn hex_of(data: Seq<u8>) -> Seq<u8>
    decreases data.len(),
{
    if data.len() == 0 {
        seq![]
    } else {
        seq![hex_digit(data.first() / 16), hex_digit(data.first() % 16)] + hex_of(
            data.drop_first(),
        )
    }
}

/// A lowercase hex character: a digit or `a` through `f`.
pub open spec fn is_hex_char(b: u8) -> bool {
    (48 <= b <= 57) || (97 <= b <= 102)
}

pub open spec fn all_hex_chars(s: Seq<u8>) -> bool {
    forall|i: int| 0 <= i < s.len() ==> is_hex_char(#[trigger] s[i])
}

/// Hex renderings are twice as long as their input and hold only lowercase
/// hex characters (in particular no whitespace and no line feeds).
pub proof fn lemma_hex_of(data: Seq<u8>)
    ensures
        hex_of(data).len() == 2 * data.len(),
        all_hex_chars(hex_of(data)),
    decreases data.len(),
{
    if data.len() > 0 {
        lemma_hex_of(data.drop_first());
    }
}

/// Relies on hex::encode: two lowercase hex digits for each input byte, high
/// nibble first, in input order.
#[verifier::external_body]
pub(crate) fn hex_lower(data: &Vec<u8>) -> (r: Vec<u8>)
    ensures
        r@ == hex_of(data@),
{
    hex::encode(data.as_slice()).into_bytes()
}

/// The lowercase hex rendering of the SHA-256 digest of `data`: the object
/// identifier ("oid") this system uses for file contents.
pub fn sha256_hex(data: &Vec<u8>) -> (r: Vec<u8>)
    ensures
        r@ == hex_of(sha256_of(data@)),
        r@.len() == 64,
        all_hex_chars(r@),
{
    let h = sha256(data);
    let r = hex_lower(&h);
    proof {
        lemma_hex_of(h@);
    }
    r
}

} // verus!
