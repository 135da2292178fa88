//! The content-hash primitive. Every identity in this crate (block hash,
//! transaction id, address, signature payload) is a SHA-256 digest of a
//! deterministic byte encoding produced by verified code.

use vstd::prelude::*;
use sha2::Digest;

verus! {

/// The SHA-256 digest of a byte string, left abstract: no contract in this
/// crate states what the digest of a given input is, only that it is a pure
/// function of the input.
pub uninterp spec fn sha256_of(data: Seq<u8>) -> Seq<u8>;

/// Relies on sha2's `Sha256` via the one-shot `Digest::digest`: the digest
/// depends on the input bytes alone and is always 32 bytes long.
#[verifier::external_body]
pub fn sha256(data: &Vec<u8>) -> (r: Vec<u8>)
    ensures
        r@ == sha256_of(data@),
        r@.len() == 32,
{
    sha2::Sha256::digest(data.as_slice()).to_vec()
}

} // verus!
