//! A multisig policy: at least `threshold` of the named signers must
//! sign, no earlier than the optional timelock.

use vstd::prelude::*;
use crate::encode::bytes_eq;
use crate::wallet::role::Role;

verus! {

pub struct MultisigPolicy {
    pub role: Role,
    /// How many signers must sign.
    pub threshold: u8,
    /// The serialized public keys allowed to sign.
    pub signers: Vec<Vec<u8>>,
    /// Earliest Unix timestamp at which the policy can be satisfied.
    pub timelock: Option<u64>,
}

impl MultisigPolicy {
    /// A policy is sound when its quorum is positive and achievable.
    pub fn validate(&self) -> (r: bool)
        ensures
            r == (self.threshold > 0 && self.threshold as int <= self.signers@.len()),
    {
        self.threshold > 0 && self.threshold as usize <= self.signers.len()
    }

    /// Whether a public key is one of the policy's signers.
    pub fn is_signer(&self, pk: &Vec<u8>) -> (r: bool)
        ensures
            r == exists|i: int| 0 <= i < self.signers@.len() && #[trigger] self.signers@[i]@ == pk@,
    {
        let n = self.signers.len();
        let mut i: usize = 0;
        while i < n
            invariant
                0 <= i <= n,
                n == self.signers@.len(),
                forall|j: int| 0 <= j < i ==> #[trigger] self.signers@[j]@ != pk@,
            decreases n - i,
        {
            if bytes_eq(&self.signers[i], pk) {
                return true;
            }
            i = i + 1;
        }
        false
    }
}

} // verus!
