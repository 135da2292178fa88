//! The wallet proper: an unlockable seed, a per-role derivation counter,
//! and the keys generated so far, addressable by role and address.

use vstd::prelude::*;
use crate::chain::sign::{valid_secret_key, derive_pubkey, pubkey_of};
use crate::digest::{sha256, sha256_of};
use crate::encode::clone_bytes;
use crate::keyed_map::KeyedMap;
use crate::wallet::derive::{DerivedKey, derive_key, derived_secret};
use crate::wallet::role::{Role, spec_domain, utf8_of, utf8_bytes};
use crate::wallet::seed::MasterSeed;

verus! {

#[derive(Clone, Copy)]
pub struct NextIndex {
    pub next: u64,
}

impl View for NextIndex {
    type V = NextIndex;

    open spec fn view(&self) -> NextIndex {
        *self
    }
}

pub struct DerivedKeyView {
    pub domain: Seq<char>,
    pub index: u64,
    pub secret: Seq<u8>,
}

impl View for DerivedKey {
    type V = DerivedKeyView;

    open spec fn view(&self) -> DerivedKeyView {
        DerivedKeyView { domain: spec_domain(self.role), index: self.index, secret: self.secret@ }
    }
}

pub struct Wallet {
    /// The unlocked seed; `None` while the wallet is locked.
    pub seed: Option<MasterSeed>,
    /// The next derivation counter of each role, keyed by domain bytes.
    pub next_index: KeyedMap<NextIndex>,
    /// Generated keys, keyed by domain bytes followed by the address.
    pub keys: KeyedMap<DerivedKey>,
}

/// The key under which a role's address is filed.
pub open spec fn key_slot(domain: Seq<char>, address: Seq<u8>) -> Seq<u8> {
    utf8_of(domain) + address
}

impl Wallet {
    pub open spec fn wf(self) -> bool {
        &&& self.next_index.wf()
        &&& self.keys.wf()
    }

    pub fn new() -> (r: Wallet)
        ensures
            r.wf(),
            r.seed is None,
            r.next_index@ == Map::<Seq<u8>, NextIndex>::empty(),
            r.keys@ == Map::<Seq<u8>, DerivedKeyView>::empty(),
    {
        Wallet { seed: None, next_index: KeyedMap::new(), keys: KeyedMap::new() }
    }

    pub fn unlock(&mut self, seed: MasterSeed)
        ensures
            final(self).seed == Some(seed),
            final(self).next_index == old(self).next_index,
            final(self).keys == old(self).keys,
    {
        self.seed = Some(seed);
    }

    /// Locks the wallet: the seed and every derived secret are dropped.
    pub fn lock(&mut self)
        requires
            old(self).wf(),
        ensures
            final(self).wf(),
            final(self).seed is None,
            final(self).keys@ == Map::<Seq<u8>, DerivedKeyView>::empty(),
            final(self).next_index == old(self).next_index,
    {
        self.seed = None;
        self.keys = KeyedMap::new();
    }

    /// Derives the next address of `role`: hashes the derived key's
    /// public key, advances the role's counter and files the key under
    /// the new address. Refused while locked, at counter exhaustion, or
    /// for the rare rejected scalar.
    pub fn generate_address(&mut self, role: Role) -> (r: Option<Vec<u8>>)
        requires
            old(self).wf(),
        ensures
            final(self).wf(),
            old(self).seed is None ==> r is None && *final(self) == *old(self),
            match r {
                Some(addr) => {
                    &&& old(self).seed is Some
                    &&& ({
                        let seed = old(self).seed->0;
                        let dom = spec_domain(role);
                        let idx = if old(self).next_index@.dom().contains(utf8_of(dom)) {
                            old(self).next_index@[utf8_of(dom)].next
                        } else {
                            0
                        };
                        let secret = derived_secret(seed.bytes@, dom, idx);
                        &&& valid_secret_key(secret)
                        &&& addr@ == sha256_of(pubkey_of(secret))
                        &&& final(self).next_index@ == old(self).next_index@.insert(
                            utf8_of(dom),
                            NextIndex { next: (idx + 1) as u64 },
                        )
                        &&& final(self).keys@ == old(self).keys@.insert(
                            key_slot(dom, addr@),
                            DerivedKeyView { domain: dom, index: idx, secret },
                        )
                        &&& final(self).seed == old(self).seed
                    })
                },
                None => true,
            },
    {
        let seed = match &self.seed {
            Some(s) => s,
            None => {
                return None;
            },
        };
        let domain = role.as_domain();
        let dbytes = utf8_bytes(domain.as_str());
        let index = match self.next_index.get(&dbytes) {
            Some(entry) => entry.next,
            None => 0,
        };
        if index == u64::MAX {
            return None;
        }
        let dk = match derive_key(seed, &role, index) {
            Some(k) => k,
            None => {
                return None;
            },
        };
        let pk = derive_pubkey(&dk.secret);
        let addr = sha256(&pk);
        self.next_index.insert(clone_bytes(&dbytes), NextIndex { next: index + 1 });
        let mut slot = dbytes;
        let mut part = clone_bytes(&addr);
        slot.append(&mut part);
        proof {
            assert(slot@ =~= key_slot(spec_domain(role), addr@));
        }
        self.keys.insert(slot, dk);
        Some(addr)
    }

    /// Looks up the key filed for `role` under `address`.
    pub fn get_key(&self, role: &Role, address: &Vec<u8>) -> (r: Option<&DerivedKey>)
        requires
            self.wf(),
        ensures
            match r {
                Some(dk) => self.keys@.dom().contains(key_slot(spec_domain(*role), address@))
                    && dk@ == self.keys@[key_slot(spec_domain(*role), address@)],
                None => !self.keys@.dom().contains(key_slot(spec_domain(*role), address@)),
            },
    {
        let domain = role.as_domain();
        let mut slot = utf8_bytes(domain.as_str());
        let mut part = clone_bytes(address);
        slot.append(&mut part);
        proof {
            assert(slot@ =~= key_slot(spec_domain(*role), address@));
        }
        self.keys.get(&slot)
    }
}

} // verus!
