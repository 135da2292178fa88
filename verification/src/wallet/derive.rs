//! Deterministic key derivation: a secret key is the digest of the seed,
//! the role's domain and a counter, accepted only if the curve admits it.

use vstd::prelude::*;
use crate::chain::sign::{valid_secret_key, secret_key_ok};
use crate::digest::{sha256, sha256_of};
use crate::encode::{u64_le, encode_u64_le, clone_bytes};
use crate::wallet::role::{Role, spec_domain, utf8_of, utf8_bytes};
use crate::wallet::seed::MasterSeed;

verus! {

pub struct DerivedKey {
    pub role: Role,
    pub index: u64,
    /// The 32-byte secret scalar.
    pub secret: Vec<u8>,
}

/// The bytes hashed into a derived secret: seed, domain, then counter.
pub open spec fn derive_preimage(seed: Seq<u8>, domain: Seq<char>, index: u64) -> Seq<u8> {
    seed + utf8_of(domain) + u64_le(index)
}

/// The secret a seed, role and counter determine.
pub open spec fn derived_secret(seed: Seq<u8>, domain: Seq<char>, index: u64) -> Seq<u8> {
    sha256_of(derive_preimage(seed, domain, index))
}

/// Derives the key of `role` at `index`, or refuses the rare digest that
/// the curve rejects as a scalar.
pub fn derive_key(seed: &MasterSeed, role: &Role, index: u64) -> (r: Option<DerivedKey>)
    ensures
        match r {
            Some(dk) => {
                &&& dk.secret@ == derived_secret(seed.bytes@, spec_domain(*role), index)
                &&& valid_secret_key(dk.secret@)
                &&& spec_domain(dk.role) == spec_domain(*role)
                &&& dk.index == index
            },
            None => !valid_secret_key(derived_secret(seed.bytes@, spec_domain(*role), index)),
        },
{
    let domain = role.as_domain();
    let mut preimage = clone_bytes(&seed.bytes);
    let mut part = utf8_bytes(domain.as_str());
    preimage.append(&mut part);
    let mut part = encode_u64_le(index);
    preimage.append(&mut part);
    proof {
        assert(preimage@ =~= derive_preimage(seed.bytes@, spec_domain(*role), index));
    }
    let secret = sha256(&preimage);
    if !secret_key_ok(&secret) {
        return None;
    }
    Some(DerivedKey { role: role.clone(), index, secret })
}

} // verus!
