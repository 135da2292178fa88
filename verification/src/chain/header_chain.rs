//! A headers-only chain: proof-of-work and parent checks without
//! transaction state, as used while syncing headers ahead of blocks.

use vstd::prelude::*;
use crate::chain::hash::{hash_header, hash_of_header};
use crate::chain::header::BlockHeader;
use crate::keyed_map::KeyedMap;
use crate::pow::verify::{verify_pow, pow_ok};
use crate::encode::clone_bytes;

verus! {

pub struct HeaderChain {
    pub headers: KeyedMap<BlockHeader>,
    pub tip: Vec<u8>,
}

impl HeaderChain {
    pub open spec fn wf(self) -> bool {
        &&& self.headers.wf()
        &&& self.headers@.dom().contains(self.tip@)
    }

    /// Starts a header chain from a genesis header, which becomes the tip.
    pub fn new(genesis: BlockHeader) -> (r: HeaderChain)
        ensures
            r.wf(),
            r.headers@ == Map::<Seq<u8>, crate::chain::header::HeaderView>::empty().insert(
                hash_of_header(genesis@),
                genesis@,
            ),
            r.tip@ == hash_of_header(genesis@),
    {
        let hash = hash_header(&genesis);
        let mut headers: KeyedMap<BlockHeader> = KeyedMap::new();
        headers.insert(clone_bytes(&hash), genesis);
        HeaderChain { headers, tip: hash }
    }

    /// Accepts a header whose proof of work holds and whose parent is
    /// known; an accepted header becomes the new tip. Anything else is
    /// refused and changes nothing.
    pub fn add(&mut self, header: BlockHeader) -> (r: bool)
        requires
            old(self).wf(),
        ensures
            final(self).wf(),
            r == (pow_ok(header@) && old(self).headers@.dom().contains(header@.prev_hash)),
            r ==> final(self).headers@ == old(self).headers@.insert(
                hash_of_header(header@),
                header@,
            ) && final(self).tip@ == hash_of_header(header@),
            !r ==> final(self).headers@ == old(self).headers@ && final(self).tip@ == old(
                self,
            ).tip@,
    {
        if !verify_pow(&header) {
            return false;
        }
        if !self.headers.contains_key(&header.prev_hash) {
            return false;
        }
        let hash = hash_header(&header);
        self.headers.insert(clone_bytes(&hash), header);
        self.tip = hash;
        true
    }
}

} // verus!
