//! Orphan transactions: transactions with unresolved inputs, kept until
//! the outputs they spend appear in the ledger or they expire.

use vstd::prelude::*;
use crate::chain::tx::{Transaction, TxView};
use crate::chain::txid::txid;
use crate::chain::utxo::UtxoMap;
use crate::keyed_map::KeyedMap;
use crate::mempool::{tx_in_key, tx_resolvable};

verus! {

pub const MAX_ORPHAN_TX: usize = 10000;

/// Time to live in seconds.
pub const ORPHAN_TTL: u64 = 300;

pub struct OrphanTx {
    pub tx: Transaction,
    /// Clock reading when the transaction entered the pool.
    pub added: u64,
}

#[verifier::ext_equal]
pub struct OrphanTxView {
    pub tx: TxView,
    pub added: u64,
}

impl View for OrphanTx {
    type V = OrphanTxView;

    open spec fn view(&self) -> OrphanTxView {
        OrphanTxView { tx: self.tx@, added: self.added }
    }
}

pub struct OrphanTxPool {
    /// Orphans keyed by transaction id, oldest entry first.
    pub txs: KeyedMap<OrphanTx>,
}

pub open spec fn tx_expired(added: u64, now: u64) -> bool {
    now > added + ORPHAN_TTL
}

impl OrphanTxPool {
    /// Well-formed: distinct keys, each entry filed under its own id.
    pub open spec fn wf(self) -> bool {
        &&& self.txs.wf()
        &&& forall|k: Seq<u8>|
            self.txs@.dom().contains(k) ==> crate::chain::txid::txid_of(
                (#[trigger] self.txs@[k]).tx,
            ) == k
    }

    pub fn new() -> (r: OrphanTxPool)
        ensures
            r.wf(),
            r.txs@ == Map::<Seq<u8>, OrphanTxView>::empty(),
    {
        OrphanTxPool { txs: KeyedMap::new() }
    }

    /// Buffers a transaction at time `now`: a known id is ignored, and a
    /// full pool evicts its oldest entry first.
    pub fn add(&mut self, tx: Transaction, now: u64)
        requires
            old(self).wf(),
        ensures
            final(self).wf(),
            ({
                let id = crate::chain::txid::txid_of(tx@);
                let entry = OrphanTxView { tx: tx@, added: now };
                if old(self).txs@.dom().contains(id) {
                    final(self).txs@ == old(self).txs@
                } else if old(self).txs.kv().len() < MAX_ORPHAN_TX {
                    final(self).txs@ == old(self).txs@.insert(id, entry)
                } else {
                    final(self).txs@ == old(self).txs@.remove(old(self).txs.kv()[0].0).insert(
                        id,
                        entry,
                    )
                }
            }),
    {
        let id = txid(&tx);
        if self.txs.contains_key(&id) {
            return ;
        }
        if self.txs.len() >= MAX_ORPHAN_TX {
            let oldest = crate::encode::clone_bytes(self.txs.key_at(0));
            self.txs.remove(&oldest);
        }
        self.txs.insert(id, OrphanTx { tx, added: now });
    }

    /// Hands back every pooled transaction whose inputs all resolve in
    /// the ledger, dropping it and everything expired from the pool.
    #[verifier::rlimit(100)]
    pub fn try_promote(&mut self, utxos: &UtxoMap, now: u64) -> (r: Vec<Transaction>)
        requires
            old(self).wf(),
        ensures
            final(self).wf(),
            final(self).txs@ == Map::<Seq<u8>, OrphanTxView>::new(
                |k: Seq<u8>|
                    old(self).txs@.dom().contains(k) && !tx_expired(old(self).txs@[k].added, now)
                        && !tx_resolvable(utxos@, old(self).txs@[k].tx),
                |k: Seq<u8>| old(self).txs@[k],
            ),
            forall|k: Seq<u8>|
                old(self).txs@.dom().contains(k) && !tx_expired(
                    #[trigger] old(self).txs@[k].added,
                    now,
                ) && tx_resolvable(utxos@, old(self).txs@[k].tx) ==> exists|i: int|
                    0 <= i < r@.len() && r@[i]@ == old(self).txs@[k].tx,
            forall|i: int|
                0 <= i < r@.len() ==> ({
                    let k = crate::chain::txid::txid_of(#[trigger] r@[i]@);
                    &&& old(self).txs@.dom().contains(k)
                    &&& old(self).txs@[k].tx == r@[i]@
                    &&& !tx_expired(old(self).txs@[k].added, now)
                    &&& tx_resolvable(utxos@, r@[i]@)
                }),
    {
        let ghost pool0 = self.txs@;
        let n = self.txs.len();
        let mut kept: KeyedMap<OrphanTx> = KeyedMap::new();
        let mut promoted: Vec<Transaction> = Vec::new();
        let mut i: usize = 0;
        while i < n
            invariant
                0 <= i <= n,
                pool0 == self.txs@,
                self.txs.wf(),
                forall|k: Seq<u8>|
                    pool0.dom().contains(k) ==> crate::chain::txid::txid_of(
                        (#[trigger] pool0[k]).tx,
                    ) == k,
                n == self.txs.kv().len(),
                kept.wf(),
                kept@ == Map::<Seq<u8>, OrphanTxView>::new(
                    |k: Seq<u8>|
                        exists|a: int|
                            0 <= a < i && (#[trigger] self.txs.kv()[a]).0 == k && !tx_expired(
                                self.txs.kv()[a].1.added,
                                now,
                            ) && !tx_resolvable(utxos@, self.txs.kv()[a].1.tx),
                    |k: Seq<u8>| pool0[k],
                ),
                forall|j: int|
                    0 <= j < promoted@.len() ==> ({
                        let k = crate::chain::txid::txid_of(#[trigger] promoted@[j]@);
                        &&& pool0.dom().contains(k)
                        &&& pool0[k].tx == promoted@[j]@
                        &&& !tx_expired(pool0[k].added, now)
                        &&& tx_resolvable(utxos@, promoted@[j]@)
                    }),
                forall|a: int|
                    0 <= a < i && !tx_expired((#[trigger] self.txs.kv()[a]).1.added, now)
                        && tx_resolvable(utxos@, self.txs.kv()[a].1.tx) ==> exists|j: int|
                        0 <= j < promoted@.len() && promoted@[j]@ == self.txs.kv()[a].1.tx,
            decreases n - i,
        {
            let key = crate::encode::clone_bytes(self.txs.key_at(i));
            let entry = self.txs.val_at(i);
            proof {
                self.txs.lemma_entry_in_view(i as int);
                assert(pool0[key@] == self.txs.kv()[i as int].1);
            }
            let expired = if entry.added < now {
                now - entry.added > ORPHAN_TTL
            } else {
                false
            };
            if expired {
                proof {
                    assert(kept@ =~= Map::<Seq<u8>, OrphanTxView>::new(
                        |k: Seq<u8>|
                            exists|a: int|
                                0 <= a < i + 1 && (#[trigger] self.txs.kv()[a]).0 == k
                                    && !tx_expired(self.txs.kv()[a].1.added, now) && !tx_resolvable(
                                    utxos@,
                                    self.txs.kv()[a].1.tx,
                                ),
                        |k: Seq<u8>| pool0[k],
                    ));
                }
            } else if inputs_resolve(&entry.tx, utxos) {
                let ghost old_promoted = promoted@;
                promoted.push(entry.tx.clone());
                proof {
                    assert(promoted@[old_promoted.len() as int]@ == self.txs.kv()[i as int].1.tx);
                    assert(crate::chain::txid::txid_of(self.txs.kv()[i as int].1.tx) == key@);
                    assert forall|a: int|
                        0 <= a < i + 1 && !tx_expired((#[trigger] self.txs.kv()[a]).1.added, now)
                            && tx_resolvable(utxos@, self.txs.kv()[a].1.tx) implies exists|j: int|
                        0 <= j < promoted@.len() && promoted@[j]@ == self.txs.kv()[a].1.tx by {
                        if a < i {
                            let j = choose|j: int|
                                0 <= j < old_promoted.len() && old_promoted[j]@
                                    == self.txs.kv()[a].1.tx;
                            assert(promoted@[j]@ == self.txs.kv()[a].1.tx);
                        } else {
                            assert(promoted@[old_promoted.len() as int]@ == self.txs.kv()[a].1.tx);
                        }
                    }
                    assert(kept@ =~= Map::<Seq<u8>, OrphanTxView>::new(
                        |k: Seq<u8>|
                            exists|a: int|
                                0 <= a < i + 1 && (#[trigger] self.txs.kv()[a]).0 == k
                                    && !tx_expired(self.txs.kv()[a].1.added, now) && !tx_resolvable(
                                    utxos@,
                                    self.txs.kv()[a].1.tx,
                                ),
                        |k: Seq<u8>| pool0[k],
                    ));
                }
            } else {
                kept.insert(key, OrphanTx { tx: entry.tx.clone(), added: entry.added });
                proof {
                    assert(kept@ =~= Map::<Seq<u8>, OrphanTxView>::new(
                        |k: Seq<u8>|
                            exists|a: int|
                                0 <= a < i + 1 && (#[trigger] self.txs.kv()[a]).0 == k
                                    && !tx_expired(self.txs.kv()[a].1.added, now) && !tx_resolvable(
                                    utxos@,
                                    self.txs.kv()[a].1.tx,
                                ),
                        |k: Seq<u8>| pool0[k],
                    ));
                }
            }
            i = i + 1;
        }
        proof {
            assert forall|k: Seq<u8>|
                pool0.dom().contains(k) && !tx_expired(#[trigger] pool0[k].added, now)
                    && tx_resolvable(utxos@, pool0[k].tx) implies exists|j: int|
                0 <= j < promoted@.len() && promoted@[j]@ == pool0[k].tx by {
                self.txs.lemma_view_has_entry(k);
                let a = choose|a: int| 0 <= a < self.txs.kv().len() && self.txs.kv()[a].0 == k;
                self.txs.lemma_entry_in_view(a);
            }
            assert forall|k: Seq<u8>| #![auto] true implies kept@.dom().contains(k) == (
            pool0.dom().contains(k) && !tx_expired(pool0[k].added, now) && !tx_resolvable(
                utxos@,
                pool0[k].tx,
            )) by {
                if kept@.dom().contains(k) {
                    let a = choose|a: int|
                        0 <= a < self.txs.kv().len() && (#[trigger] self.txs.kv()[a]).0 == k
                            && !tx_expired(self.txs.kv()[a].1.added, now) && !tx_resolvable(
                            utxos@,
                            self.txs.kv()[a].1.tx,
                        );
                    self.txs.lemma_entry_in_view(a);
                } else if pool0.dom().contains(k) {
                    self.txs.lemma_view_has_entry(k);
                    let a = choose|a: int|
                        0 <= a < self.txs.kv().len() && self.txs.kv()[a].0 == k;
                    self.txs.lemma_entry_in_view(a);
                }
            }
            assert(kept@ =~= Map::<Seq<u8>, OrphanTxView>::new(
                |k: Seq<u8>|
                    pool0.dom().contains(k) && !tx_expired(pool0[k].added, now) && !tx_resolvable(
                        utxos@,
                        pool0[k].tx,
                    ),
                |k: Seq<u8>| pool0[k],
            ));
        }
        self.txs = kept;
        promoted
    }
}

/// Whether every input of the transaction resolves in the ledger.
pub fn inputs_resolve(tx: &Transaction, utxos: &UtxoMap) -> (r: bool)
    ensures
        r == tx_resolvable(utxos@, tx@),
{
    let n = tx.inputs.len();
    let mut i: usize = 0;
    while i < n
        invariant
            0 <= i <= n,
            n == tx@.inputs.len(),
            forall|j: int| 0 <= j < i ==> utxos@.dom().contains(#[trigger] tx_in_key(tx@, j)),
        decreases n - i,
    {
        let key = crate::chain::utxo::make_utxo_key(&tx.inputs[i].prev_txid, tx.inputs[i].vout);
        proof {
            assert(tx@.inputs[i as int] == tx.inputs@[i as int]@);
            assert(key@ == tx_in_key(tx@, i as int));
        }
        if !utxos.contains_key(&key) {
            proof {
                assert(!tx_resolvable(utxos@, tx@));
            }
            return false;
        }
        i = i + 1;
    }
    true
}

} // verus!
