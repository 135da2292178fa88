//! The wallet's master seed: thirty-two bytes from which every key is
//! derived.

use vstd::prelude::*;
use crate::digest::{sha256, sha256_of};
use crate::encode::clone_bytes;

verus! {

pub struct MasterSeed {
    pub bytes: Vec<u8>,
}

impl MasterSeed {
    /// Draws a fresh seed: thirty-two random bytes, whitened through the
    /// digest. Nothing is assumed of the value beyond its length.
    pub fn generate() -> (r: MasterSeed)
        ensures
            r.bytes@.len() == 32,
    {
        let raw = random_bytes(32);
        MasterSeed { bytes: sha256(&raw) }
    }

    pub fn from_bytes(bytes: Vec<u8>) -> (r: MasterSeed)
        requires
            bytes@.len() == 32,
        ensures
            r.bytes@ == bytes@,
    {
        MasterSeed { bytes }
    }

    pub fn as_bytes(&self) -> (r: &Vec<u8>)
        ensures
            r@ == self.bytes@,
    {
        &self.bytes
    }

    pub fn duplicate(&self) -> (r: MasterSeed)
        ensures
            r.bytes@ == self.bytes@,
    {
        MasterSeed { bytes: clone_bytes(&self.bytes) }
    }
}

/// Relies on rand's ThreadRng via RngCore::fill_bytes: a buffer of the
/// requested length filled with bytes of which nothing is assumed.
#[verifier::external_body]
pub fn random_bytes(n: usize) -> (r: Vec<u8>)
    ensures
        r@.len() == n,
{
    let mut buf = vec![0u8; n];
    rand::RngCore::fill_bytes(&mut rand::thread_rng(), &mut buf);
    buf
}

} // verus!
