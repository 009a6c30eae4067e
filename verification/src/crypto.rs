//! Hashing and signature checking through outside crates.
//!
//! The node hashes with 256-bit BLAKE2b and signs finality votes with
//! Ed25519. Both computations are functions of their arguments alone,
//! so their results carry names that the rest of the library reasons
//! with; nothing here states what the functions compute on given
//! bytes.

use vstd::prelude::*;

use ed25519_dalek::Verifier;

verus! {

/// The 32-byte BLAKE2b digest of a byte string.
pub uninterp spec fn blake2b_256_of(data: Seq<u8>) -> Seq<u8>;

/// Whether an Ed25519 signature over a message verifies under a
/// public key.
pub uninterp spec fn ed25519_verifies(public: Seq<u8>, msg: Seq<u8>, sig: Seq<u8>) -> bool;

/// Relies on blake2_rfc::blake2b::blake2b: the unkeyed 256-bit digest
/// depends on the input bytes alone and is 32 bytes long.
#[verifier::external_body]
pub fn blake2b_256(data: &[u8]) -> (r: Vec<u8>)
    ensures
        r@ == blake2b_256_of(data@),
        r@.len() == 32,
{
    blake2_rfc::blake2b::blake2b(32, &[], data).as_bytes().to_vec()
}

/// Relies on ed25519_dalek::VerifyingKey::verify (through the
/// Verifier trait): acceptance depends on the key, message and
/// signature bytes alone. A key that does not decompress verifies
/// nothing.
#[verifier::external_body]
pub fn ed25519_verify(public: &[u8], msg: &[u8], sig: &[u8]) -> (r: bool)
    requires
        public@.len() == 32,
        sig@.len() == 64,
    ensures
        r == ed25519_verifies(public@, msg@, sig@),
{
    let pk: [u8; 32] = match public.try_into() {
        Ok(a) => a,
        Err(_) => return false,
    };
    let sg: [u8; 64] = match sig.try_into() {
        Ok(a) => a,
        Err(_) => return false,
    };
    let vk = match ed25519_dalek::VerifyingKey::from_bytes(&pk) {
        Ok(v) => v,
        Err(_) => return false,
    };
    vk.verify(msg, &ed25519_dalek::Signature::from_bytes(&sg)).is_ok()
}

/// Which byte values are hexadecimal digits.
pub open spec fn is_hex_digit(c: u8) -> bool {
    (48 <= c <= 57) || (97 <= c <= 102) || (65 <= c <= 70)
}

/// The value of one hexadecimal digit.
pub open spec fn hex_digit_value(c: u8) -> nat {
    if 48 <= c <= 57 {
        (c - 48) as nat
    } else if 97 <= c <= 102 {
        (c - 97 + 10) as nat
    } else if 65 <= c <= 70 {
        (c - 65 + 10) as nat
    } else {
        0
    }
}

/// Whether `s` is a well-formed hexadecimal string: even length, every
/// byte a digit.
pub open spec fn is_hex_string(s: Seq<u8>) -> bool {
    s.len() % 2 == 0 && forall|i: int| 0 <= i < s.len() ==> is_hex_digit(#[trigger] s[i])
}

/// The bytes a well-formed hexadecimal string denotes.
pub open spec fn hex_bytes_of(s: Seq<u8>) -> Seq<u8> {
    Seq::new(s.len() / 2, |i: int| (hex_digit_value(s[2 * i]) * 16 + hex_digit_value(
        s[2 * i + 1],
    )) as u8)
}

/// Relies on hex::decode: a string of hexadecimal digit pairs decodes
/// to the denoted bytes; an odd length or a byte outside the digits is
/// refused.
#[verifier::external_body]
pub fn hex_decode(s: &[u8]) -> (r: Option<Vec<u8>>)
    ensures
        match r {
            Some(v) => is_hex_string(s@) && v@ == hex_bytes_of(s@),
            None => !is_hex_string(s@),
        },
{
    hex::decode(s).ok()
}

/// Relies on std::time::SystemTime: milliseconds since the Unix
/// epoch, or `None` on a clock that reads before it.
#[verifier::external_body]
pub fn timestamp_now() -> (r: Option<u64>)
{
    std::time::SystemTime::now().duration_since(std::time::UNIX_EPOCH).ok().map(
        |d| d.as_millis() as u64,
    )
}

} // verus!
