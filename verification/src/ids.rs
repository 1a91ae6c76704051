//! Identifier derivation.
//!
//! An event identifier is the SHA-256 digest of the origin transaction
//! reference concatenated with the big-endian encoding of the submission
//! timestamp: deterministic for a given submission, and effectively
//! collision-free across distinct submissions.

use vstd::prelude::*;
use crate::bytes::{copy_bytes, encode_u64_be, u64_be_bytes};
use sha2::Digest;

verus! {

/// The SHA-256 digest of a byte sequence, by name: the digest is a
/// function of the input bytes alone, and nothing shorter than the
/// algorithm itself states which bytes come out.
pub uninterp spec fn sha256_of(input: Seq<u8>) -> Seq<u8>;

/// Relies on sha2::Sha256::digest: the 32-byte SHA-256 digest of the
/// input, a function of the input bytes alone.
#[verifier::external_body]
fn sha256(input: &Vec<u8>) -> (r: Vec<u8>)
    ensures
        r@ == sha256_of(input@),
        r@.len() == 32,
{
    let digest = sha2::Sha256::digest(input.as_slice());
    digest.as_slice().to_vec()
}

/// The identifier derived from a submission: the digest of the origin
/// transaction reference followed by the big-endian timestamp bytes.
pub open spec fn id_of(tx_hash: Seq<u8>, timestamp: u64) -> Seq<u8> {
    sha256_of(tx_hash + u64_be_bytes(timestamp))
}

/// Derives the deterministic identifier for a submission.
pub fn derive_id(tx_hash: &Vec<u8>, timestamp: u64) -> (r: Vec<u8>)
    ensures
        r@ == id_of(tx_hash@, timestamp),
        r@.len() == 32,
{
    let mut payload = copy_bytes(tx_hash);
    let mut ts_bytes = encode_u64_be(timestamp);
    payload.append(&mut ts_bytes);
    proof {
        assert(payload@ =~= tx_hash@ + u64_be_bytes(timestamp));
    }
    sha256(&payload)
}

} // verus!
