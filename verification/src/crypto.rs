//! Hashing primitives for the request signer.  The digests themselves
//! come from outside crates and are named, not restated: the
//! uninterpreted functions below stand for their results, and the
//! signing logic is verified against those names.

use vstd::prelude::*;

use crate::text::hex_of;
use hmac::Mac;
use sha2::Digest;

verus! {

/// The SHA-256 digest of a byte sequence.
pub uninterp spec fn spec_sha256(data: Seq<u8>) -> Seq<u8>;

/// The HMAC-SHA-256 of a message under a key of any length.
pub uninterp spec fn spec_hmac_sha256(key: Seq<u8>, data: Seq<u8>) -> Seq<u8>;

/// Relies on sha2's `Sha256` through `Digest::digest`: the digest is a
/// function of the input bytes alone and is 32 bytes long.
#[verifier::external_body]
pub(crate) fn sha256(data: &[u8]) -> (r: Vec<u8>)
    ensures
        r@ == spec_sha256(data@),
        r@.len() == 32,
{
    sha2::Sha256::digest(data).to_vec()
}

/// Relies on the hmac crate's `Hmac<Sha256>`: the tag is a function of
/// key and message alone and is 32 bytes long.  `Mac::new_from_slice`
/// accepts keys of any length for an HMAC, so its error path is dead.
#[verifier::external_body]
fn hmac_sha256_digest(key: &[u8], data: &[u8]) -> (r: Vec<u8>)
    ensures
        r@ == spec_hmac_sha256(key@, data@),
        r@.len() == 32,
{
    let mut mac = hmac::Hmac::<sha2::Sha256>::new_from_slice(key).unwrap();
    mac.update(data);
    mac.finalize().into_bytes().to_vec()
}

/// The keyed hash at the heart of the signer: HMAC-SHA-256 of the
/// message under the key.
pub fn hmac_sha256(key: &[u8], data: &[u8]) -> (r: Vec<u8>)
    ensures
        r@ == spec_hmac_sha256(key@, data@),
        r@.len() == 32,
{
    hmac_sha256_digest(key, data)
}

/// Relies on `hex::encode`: each byte becomes two lower-case hex
/// digits, high nibble first.
#[verifier::external_body]
pub(crate) fn hex_encode(b: &[u8]) -> (r: String)
    ensures
        r@ == hex_of(b@),
{
    hex::encode(b)
}

/// The lower-case hex form of a digest of a byte sequence, in one step.
pub fn sha256_hex(data: &[u8]) -> (r: String)
    ensures
        r@ == hex_of(spec_sha256(data@)),
{
    let digest = sha256(data);
    hex_encode(digest.as_slice())
}

} // verus!
