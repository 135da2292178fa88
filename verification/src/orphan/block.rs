//! Orphan blocks: blocks whose parent is not yet known, kept until the
//! parent arrives or they expire. The pool is bounded; when full, the
//! oldest entry makes room.

use vstd::prelude::*;
use crate::chain::block::{Block, BlockView};
use crate::chain::hash::{hash_header, hash_of_header};
use crate::chain::state::ChainState;
use crate::keyed_map::KeyedMap;

verus! {

pub const MAX_ORPHAN_BLOCKS: usize = 2048;

/// Time to live in seconds.
pub const ORPHAN_BLOCK_TTL: u64 = 600;

pub struct OrphanBlock {
    pub block: Block,
    /// Clock reading when the block entered the pool.
    pub added: u64,
}

#[verifier::ext_equal]
pub struct OrphanBlockView {
    pub block: BlockView,
    pub added: u64,
}

impl View for OrphanBlock {
    type V = OrphanBlockView;

    open spec fn view(&self) -> OrphanBlockView {
        OrphanBlockView { block: self.block@, added: self.added }
    }
}

pub struct OrphanBlockPool {
    /// Orphans keyed by block hash, oldest entry first.
    pub blocks: KeyedMap<OrphanBlock>,
}

pub open spec fn block_expired(added: u64, now: u64) -> bool {
    now > added + ORPHAN_BLOCK_TTL
}

impl OrphanBlockPool {
    /// Well-formed: distinct keys, each entry filed under its block's hash.
    pub open spec fn wf(self) -> bool {
        &&& self.blocks.wf()
        &&& forall|k: Seq<u8>|
            self.blocks@.dom().contains(k) ==> hash_of_header(
                (#[trigger] self.blocks@[k]).block.header,
            ) == k
    }

    pub fn new() -> (r: OrphanBlockPool)
        ensures
            r.wf(),
            r.blocks@ == Map::<Seq<u8>, OrphanBlockView>::empty(),
    {
        OrphanBlockPool { blocks: KeyedMap::new() }
    }

    /// Buffers a block at time `now`: a hash already pooled is ignored,
    /// and a full pool evicts its oldest entry first.
    pub fn add(&mut self, block: Block, now: u64)
        requires
            old(self).wf(),
        ensures
            final(self).wf(),
            ({
                let h = hash_of_header(block@.header);
                let entry = OrphanBlockView { block: block@, added: now };
                if old(self).blocks@.dom().contains(h) {
                    final(self).blocks@ == old(self).blocks@
                } else if old(self).blocks.kv().len() < MAX_ORPHAN_BLOCKS {
                    final(self).blocks@ == old(self).blocks@.insert(h, entry)
                } else {
                    final(self).blocks@ == old(self).blocks@.remove(
                        old(self).blocks.kv()[0].0,
                    ).insert(h, entry)
                }
            }),
    {
        let hash = hash_header(&block.header);
        if self.blocks.contains_key(&hash) {
            return ;
        }
        if self.blocks.len() >= MAX_ORPHAN_BLOCKS {
            let oldest = crate::encode::clone_bytes(self.blocks.key_at(0));
            self.blocks.remove(&oldest);
        }
        self.blocks.insert(hash, OrphanBlock { block, added: now });
    }

    /// Hands back every pooled block whose parent the chain now knows,
    /// dropping it and everything expired from the pool. Unready, live
    /// orphans stay untouched.
    #[verifier::rlimit(100)]
    pub fn try_promote(&mut self, chain: &ChainState, now: u64) -> (r: Vec<Block>)
        requires
            old(self).wf(),
        ensures
            final(self).wf(),
            final(self).blocks@ == Map::<Seq<u8>, OrphanBlockView>::new(
                |k: Seq<u8>|
                    old(self).blocks@.dom().contains(k) && !block_expired(
                        old(self).blocks@[k].added,
                        now,
                    ) && !chain.blocks@.dom().contains(old(self).blocks@[k].block.header.prev_hash),
                |k: Seq<u8>| old(self).blocks@[k],
            ),
            forall|k: Seq<u8>|
                old(self).blocks@.dom().contains(k) && !block_expired(
                    #[trigger] old(self).blocks@[k].added,
                    now,
                ) && chain.blocks@.dom().contains(old(self).blocks@[k].block.header.prev_hash)
                    ==> exists|i: int| 0 <= i < r@.len() && r@[i]@ == old(self).blocks@[k].block,
            forall|i: int|
                0 <= i < r@.len() ==> ({
                    let k = hash_of_header((#[trigger] r@[i]@).header);
                    &&& old(self).blocks@.dom().contains(k)
                    &&& old(self).blocks@[k].block == r@[i]@
                    &&& !block_expired(old(self).blocks@[k].added, now)
                    &&& chain.blocks@.dom().contains(r@[i]@.header.prev_hash)
                }),
    {
        let ghost pool0 = self.blocks@;
        let n = self.blocks.len();
        let mut kept: KeyedMap<OrphanBlock> = KeyedMap::new();
        let mut promoted: Vec<Block> = Vec::new();
        let mut i: usize = 0;
        while i < n
            invariant
                0 <= i <= n,
                pool0 == self.blocks@,
                self.blocks.wf(),
                forall|k: Seq<u8>|
                    pool0.dom().contains(k) ==> hash_of_header(
                        (#[trigger] pool0[k]).block.header,
                    ) == k,
                n == self.blocks.kv().len(),
                kept.wf(),
                kept@ == Map::<Seq<u8>, OrphanBlockView>::new(
                    |k: Seq<u8>|
                        exists|a: int|
                            0 <= a < i && (#[trigger] self.blocks.kv()[a]).0 == k && !block_expired(
                                self.blocks.kv()[a].1.added,
                                now,
                            ) && !chain.blocks@.dom().contains(
                                self.blocks.kv()[a].1.block.header.prev_hash,
                            ),
                    |k: Seq<u8>| pool0[k],
                ),
                forall|j: int|
                    0 <= j < promoted@.len() ==> ({
                        let k = hash_of_header((#[trigger] promoted@[j]@).header);
                        &&& pool0.dom().contains(k)
                        &&& pool0[k].block == promoted@[j]@
                        &&& !block_expired(pool0[k].added, now)
                        &&& chain.blocks@.dom().contains(promoted@[j]@.header.prev_hash)
                    }),
                forall|a: int|
                    0 <= a < i && !block_expired((#[trigger] self.blocks.kv()[a]).1.added, now)
                        && chain.blocks@.dom().contains(self.blocks.kv()[a].1.block.header.prev_hash)
                        ==> exists|j: int|
                        0 <= j < promoted@.len() && promoted@[j]@ == self.blocks.kv()[a].1.block,
            decreases n - i,
        {
            let key = crate::encode::clone_bytes(self.blocks.key_at(i));
            let entry = self.blocks.val_at(i);
            proof {
                self.blocks.lemma_entry_in_view(i as int);
                assert(pool0[key@] == self.blocks.kv()[i as int].1);
            }
            let expired = if entry.added < now {
                now - entry.added > ORPHAN_BLOCK_TTL
            } else {
                false
            };
            if expired {
                proof {
                    assert(kept@ =~= Map::<Seq<u8>, OrphanBlockView>::new(
                        |k: Seq<u8>|
                            exists|a: int|
                                0 <= a < i + 1 && (#[trigger] self.blocks.kv()[a]).0 == k
                                    && !block_expired(self.blocks.kv()[a].1.added, now)
                                    && !chain.blocks@.dom().contains(
                                    self.blocks.kv()[a].1.block.header.prev_hash,
                                ),
                        |k: Seq<u8>| pool0[k],
                    ));
                }
            } else if chain.has_block(&entry.block.header.prev_hash) {
                let ghost old_promoted = promoted@;
                promoted.push(entry.block.clone());
                proof {
                    assert(promoted@[old_promoted.len() as int]@ == self.blocks.kv()[i as int].1.block);
                    assert(hash_of_header(self.blocks.kv()[i as int].1.block.header) == key@);
                    assert forall|a: int|
                        0 <= a < i + 1 && !block_expired(
                            (#[trigger] self.blocks.kv()[a]).1.added,
                            now,
                        ) && chain.blocks@.dom().contains(
                            self.blocks.kv()[a].1.block.header.prev_hash,
                        ) implies exists|j: int|
                        0 <= j < promoted@.len() && promoted@[j]@ == self.blocks.kv()[a].1.block by {
                        if a < i {
                            let j = choose|j: int|
                                0 <= j < old_promoted.len() && old_promoted[j]@
                                    == self.blocks.kv()[a].1.block;
                            assert(promoted@[j]@ == self.blocks.kv()[a].1.block);
                        } else {
                            assert(promoted@[old_promoted.len() as int]@ == self.blocks.kv()[a].1.block);
                        }
                    }
                    assert(kept@ =~= Map::<Seq<u8>, OrphanBlockView>::new(
                        |k: Seq<u8>|
                            exists|a: int|
                                0 <= a < i + 1 && (#[trigger] self.blocks.kv()[a]).0 == k
                                    && !block_expired(self.blocks.kv()[a].1.added, now)
                                    && !chain.blocks@.dom().contains(
                                    self.blocks.kv()[a].1.block.header.prev_hash,
                                ),
                        |k: Seq<u8>| pool0[k],
                    ));
                }
            } else {
                let ghost kept0 = kept@;
                kept.insert(key, OrphanBlock { block: entry.block.clone(), added: entry.added });
                proof {
                    assert(kept@ =~= Map::<Seq<u8>, OrphanBlockView>::new(
                        |k: Seq<u8>|
                            exists|a: int|
                                0 <= a < i + 1 && (#[trigger] self.blocks.kv()[a]).0 == k
                                    && !block_expired(self.blocks.kv()[a].1.added, now)
                                    && !chain.blocks@.dom().contains(
                                    self.blocks.kv()[a].1.block.header.prev_hash,
                                ),
                        |k: Seq<u8>| pool0[k],
                    ));
                }
            }
            i = i + 1;
        }
        proof {
            assert forall|k: Seq<u8>|
                pool0.dom().contains(k) && !block_expired(#[trigger] pool0[k].added, now)
                    && chain.blocks@.dom().contains(pool0[k].block.header.prev_hash) implies exists|
                j: int,
            |
                0 <= j < promoted@.len() && promoted@[j]@ == pool0[k].block by {
                self.blocks.lemma_view_has_entry(k);
                let a = choose|a: int| 0 <= a < self.blocks.kv().len() && self.blocks.kv()[a].0 == k;
                self.blocks.lemma_entry_in_view(a);
            }
            assert forall|k: Seq<u8>| #![auto] true implies kept@.dom().contains(k) == (
            pool0.dom().contains(k) && !block_expired(pool0[k].added, now)
                && !chain.blocks@.dom().contains(pool0[k].block.header.prev_hash)) by {
                if kept@.dom().contains(k) {
                    let a = choose|a: int|
                        0 <= a < self.blocks.kv().len() && (#[trigger] self.blocks.kv()[a]).0 == k
                            && !block_expired(self.blocks.kv()[a].1.added, now)
                            && !chain.blocks@.dom().contains(
                            self.blocks.kv()[a].1.block.header.prev_hash,
                        );
                    self.blocks.lemma_entry_in_view(a);
                } else if pool0.dom().contains(k) {
                    self.blocks.lemma_view_has_entry(k);
                    let a = choose|a: int|
                        0 <= a < self.blocks.kv().len() && self.blocks.kv()[a].0 == k;
                    self.blocks.lemma_entry_in_view(a);
                }
            }
            assert(kept@ =~= Map::<Seq<u8>, OrphanBlockView>::new(
                |k: Seq<u8>|
                    pool0.dom().contains(k) && !block_expired(pool0[k].added, now)
                        && !chain.blocks@.dom().contains(pool0[k].block.header.prev_hash),
                |k: Seq<u8>| pool0[k],
            ));
        }
        self.blocks = kept;
        promoted
    }
}

} // verus!
