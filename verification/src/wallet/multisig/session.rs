//! A signing session: signatures over one payload hash collected from a
//! policy's signers, one per public key.

use vstd::prelude::*;
use crate::chain::sign::{ecdsa_check, ecdsa_valid};
use crate::digest::{sha256, sha256_of};
use crate::encode::clone_bytes;
use crate::keyed_map::KeyedMap;
use crate::wallet::multisig::policy::MultisigPolicy;

verus! {

pub struct MultisigSession {
    pub policy: MultisigPolicy,
    /// The digest every signature must cover.
    pub payload_hash: Vec<u8>,
    /// Collected signatures, keyed by the signer's serialized public key.
    pub signatures: KeyedMap<Vec<u8>>,
}

/// How many collected signatures verify over `msg` under their own key.
pub open spec fn valid_sig_count(s: Seq<(Seq<u8>, Seq<u8>)>, msg: Seq<u8>) -> int
    decreases s.len(),
{
    if s.len() == 0 {
        0
    } else {
        valid_sig_count(s.drop_last(), msg) + if ecdsa_valid(msg, s.last().1, s.last().0) {
            1int
        } else {
            0int
        }
    }
}

impl MultisigSession {
    pub open spec fn wf(self) -> bool {
        &&& self.signatures.wf()
        &&& self.payload_hash@.len() == 32
    }

    /// Opens a session over a payload.
    pub fn new(policy: MultisigPolicy, payload: &Vec<u8>) -> (r: MultisigSession)
        ensures
            r.wf(),
            r.policy == policy,
            r.payload_hash@ == sha256_of(payload@),
            r.signatures@ == Map::<Seq<u8>, Seq<u8>>::empty(),
            r.signatures.kv() == Seq::<(Seq<u8>, Seq<u8>)>::empty(),
    {
        MultisigSession {
            policy,
            payload_hash: sha256(payload),
            signatures: KeyedMap::new(),
        }
    }

    /// Accepts a signature from a policy signer, keeping at most one per
    /// key; a stranger's signature is refused.
    pub fn add_signature(&mut self, pubkey: &Vec<u8>, sig: Vec<u8>) -> (r: bool)
        requires
            old(self).wf(),
        ensures
            final(self).wf(),
            final(self).policy == old(self).policy,
            final(self).payload_hash@ == old(self).payload_hash@,
            r == exists|i: int|
                0 <= i < old(self).policy.signers@.len()
                    && #[trigger] old(self).policy.signers@[i]@ == pubkey@,
            r ==> final(self).signatures@ == old(self).signatures@.insert(pubkey@, sig@),
            !r ==> final(self).signatures@ == old(self).signatures@,
    {
        if !self.policy.is_signer(pubkey) {
            return false;
        }
        self.signatures.insert(clone_bytes(pubkey), sig);
        true
    }

    /// Whether the session has reached quorum at time `now`: the
    /// timelock, if any, has passed and enough signatures are collected.
    pub fn is_satisfied(&self, now: u64) -> (r: bool)
        ensures
            r == ((match self.policy.timelock {
                Some(tl) => now >= tl,
                None => true,
            }) && self.signatures.kv().len() >= self.policy.threshold as int),
    {
        match self.policy.timelock {
            Some(tl) => {
                if now < tl {
                    return false;
                }
            },
            None => {},
        }
        self.signatures.len() >= self.policy.threshold as usize
    }

    /// Counts the collected signatures that verify over the session's
    /// payload and compares against the quorum.
    pub fn verify(&self) -> (r: bool)
        requires
            self.wf(),
        ensures
            r == (valid_sig_count(self.signatures.kv(), self.payload_hash@)
                >= self.policy.threshold as int),
    {
        let n = self.signatures.len();
        let mut valid: usize = 0;
        let mut i: usize = 0;
        while i < n
            invariant
                0 <= i <= n,
                self.wf(),
                n == self.signatures.kv().len(),
                valid <= i,
                valid == valid_sig_count(self.signatures.kv().take(i as int), self.payload_hash@),
            decreases n - i,
        {
            let pk = self.signatures.key_at(i);
            let sig = self.signatures.val_at(i);
            let ok = ecdsa_check(&self.payload_hash, sig, pk);
            proof {
                assert(self.signatures.kv().take(i + 1).drop_last() =~= self.signatures.kv().take(
                    i as int,
                ));
                assert(self.signatures.kv().take(i + 1).last() == self.signatures.kv()[i as int]);
            }
            if ok {
                valid = valid + 1;
            }
            i = i + 1;
        }
        proof {
            assert(self.signatures.kv().take(n as int) =~= self.signatures.kv());
        }
        valid >= self.policy.threshold as usize
    }
}

} // verus!
