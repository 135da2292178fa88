//! Addresses: the digest of a serialized public key.

use vstd::prelude::*;
use crate::digest::{sha256, sha256_of};

verus! {

/// The address a serialized public key pays to.
pub fn pubkey_to_address(pubkey: &Vec<u8>) -> (r: Vec<u8>)
    ensures
        r@ == sha256_of(pubkey@),
        r@.len() == 32,
{
    sha256(pubkey)
}

} // verus!
