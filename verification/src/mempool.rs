//! The mempool: transactions waiting to be mined, keyed by transaction
//! id and ranked by the fee they pay against the current ledger.

use vstd::prelude::*;
use crate::chain::tx::{Transaction, TxView};
use crate::chain::txid::{txid, txid_of};
use crate::chain::utxo::{UtxoMap, utxo_key, UtxoView};
use crate::encode::clone_bytes;
use crate::keyed_map::KeyedMap;

verus! {

pub struct MempoolTx {
    pub tx: Transaction,
    pub fee: u64,
}

#[verifier::ext_equal]
pub struct MempoolTxView {
    pub tx: TxView,
    pub fee: u64,
}

impl View for MempoolTx {
    type V = MempoolTxView;

    open spec fn view(&self) -> MempoolTxView {
        MempoolTxView { tx: self.tx@, fee: self.fee }
    }
}

impl Clone for MempoolTx {
    fn clone(&self) -> (r: Self)
        ensures
            r@ == self@,
    {
        MempoolTx { tx: self.tx.clone(), fee: self.fee }
    }
}

/// The key an input of a standalone transaction points at.
pub open spec fn tx_in_key(t: TxView, i: int) -> Seq<u8> {
    utxo_key(t.inputs[i].prev_txid, t.inputs[i].vout)
}

pub open spec fn tx_resolvable(u: Map<Seq<u8>, UtxoView>, t: TxView) -> bool {
    forall|i: int| 0 <= i < t.inputs.len() ==> u.dom().contains(#[trigger] tx_in_key(t, i))
}

pub open spec fn tx_input_total(u: Map<Seq<u8>, UtxoView>, t: TxView, i: int) -> int
    decreases i,
{
    if i <= 0 {
        0
    } else {
        tx_input_total(u, t, i - 1) + u[tx_in_key(t, i - 1)].value
    }
}

pub open spec fn tx_output_total(t: TxView, i: int) -> int
    decreases i,
{
    if i <= 0 {
        0
    } else {
        tx_output_total(t, i - 1) + t.outputs[i - 1].value
    }
}

/// The fee a transaction pays against the ledger `u`: the surplus of its
/// resolved inputs over its outputs, capped at the largest representable
/// fee. Unresolved inputs or a deficit mean no fee at all.
pub open spec fn spec_fee(u: Map<Seq<u8>, UtxoView>, t: TxView) -> Option<u64> {
    let in_total = tx_input_total(u, t, t.inputs.len() as int);
    let out_total = tx_output_total(t, t.outputs.len() as int);
    if tx_resolvable(u, t) && in_total >= out_total {
        if in_total - out_total > u64::MAX {
            Some(u64::MAX)
        } else {
            Some((in_total - out_total) as u64)
        }
    } else {
        None
    }
}

/// Computes a transaction's fee against the ledger, or refuses it.
pub fn calc_fee(tx: &Transaction, utxos: &UtxoMap) -> (r: Option<u64>)
    requires
        utxos.wf(),
    ensures
        r == spec_fee(utxos@, tx@),
{
    let ghost t = tx@;
    let ghost u = utxos@;
    let n = tx.inputs.len();
    let mut in_sum: u128 = 0;
    let mut i: usize = 0;
    while i < n
        invariant
            0 <= i <= n,
            t == tx@,
            u == utxos@,
            utxos.wf(),
            n == t.inputs.len(),
            in_sum == tx_input_total(u, t, i as int),
            in_sum <= (i as int) * 0xffff_ffff_ffff_ffffu64,
            forall|j: int| 0 <= j < i ==> u.dom().contains(#[trigger] tx_in_key(t, j)),
        decreases n - i,
    {
        let key = crate::chain::utxo::make_utxo_key(&tx.inputs[i].prev_txid, tx.inputs[i].vout);
        proof {
            assert(t.inputs[i as int] == tx.inputs@[i as int]@);
            assert(key@ == tx_in_key(t, i as int));
        }
        let v = match utxos.get(&key) {
            Some(rec) => rec.value,
            None => {
                proof {
                    assert(!tx_resolvable(u, t));
                }
                return None;
            },
        };
        proof {
            assert((i as int + 1) * 0xffff_ffff_ffff_ffffu64 == (i as int)
                * 0xffff_ffff_ffff_ffffu64 + 0xffff_ffff_ffff_ffffu64) by (nonlinear_arith);
        }
        in_sum = in_sum + (v as u128);
        i = i + 1;
    }
    let m = tx.outputs.len();
    let mut out_sum: u128 = 0;
    let mut k: usize = 0;
    while k < m
        invariant
            0 <= k <= m,
            t == tx@,
            m == t.outputs.len(),
            out_sum == tx_output_total(t, k as int),
            out_sum <= (k as int) * 0xffff_ffff_ffff_ffffu64,
        decreases m - k,
    {
        proof {
            assert(t.outputs[k as int] == tx.outputs@[k as int]@);
            assert((k as int + 1) * 0xffff_ffff_ffff_ffffu64 == (k as int)
                * 0xffff_ffff_ffff_ffffu64 + 0xffff_ffff_ffff_ffffu64) by (nonlinear_arith);
        }
        out_sum = out_sum + (tx.outputs[k].value as u128);
        k = k + 1;
    }
    if in_sum < out_sum {
        return None;
    }
    let diff = in_sum - out_sum;
    if diff > u64::MAX as u128 {
        Some(u64::MAX)
    } else {
        Some(diff as u64)
    }
}

pub struct Mempool {
    pub txs: KeyedMap<MempoolTx>,
}

impl Mempool {
    /// Well-formed: distinct keys, and every entry keyed by the id of
    /// the transaction it holds.
    pub open spec fn wf(self) -> bool {
        &&& self.txs.wf()
        &&& forall|k: Seq<u8>|
            self.txs@.dom().contains(k) ==> txid_of(#[trigger] self.txs@[k].tx) == k
    }

    pub fn new() -> (r: Mempool)
        ensures
            r.wf(),
            r.txs@ == Map::<Seq<u8>, MempoolTxView>::empty(),
    {
        Mempool { txs: KeyedMap::new() }
    }

    /// Admits a transaction that is not already present and pays a
    /// well-defined fee against the ledger; anything else is refused and
    /// the pool is unchanged.
    pub fn add(&mut self, tx: Transaction, utxos: &UtxoMap) -> (r: bool)
        requires
            old(self).wf(),
            utxos.wf(),
        ensures
            final(self).wf(),
            r == (!old(self).txs@.dom().contains(txid_of(tx@)) && spec_fee(utxos@, tx@) is Some),
            r ==> final(self).txs@ == old(self).txs@.insert(
                txid_of(tx@),
                MempoolTxView { tx: tx@, fee: spec_fee(utxos@, tx@)->Some_0 },
            ),
            !r ==> final(self).txs@ == old(self).txs@,
    {
        let id = txid(&tx);
        if self.txs.contains_key(&id) {
            return false;
        }
        let fee = match calc_fee(&tx, utxos) {
            Some(f) => f,
            None => {
                return false;
            },
        };
        self.txs.insert(id, MempoolTx { tx, fee });
        true
    }

    /// Drops a transaction, normally because a block just included it.
    pub fn remove(&mut self, tx: &Transaction)
        requires
            old(self).wf(),
        ensures
            final(self).wf(),
            final(self).txs@ == old(self).txs@.remove(txid_of(tx@)),
    {
        let id = txid(tx);
        self.txs.remove(&id);
    }

    /// The fees of all pooled transactions, in storage order.
    pub fn fee_list(&self) -> (r: Vec<u64>)
        ensures
            r@ == self.txs.kv().map_values(|p: (Seq<u8>, MempoolTxView)| p.1.fee),
    {
        let ghost fees = self.txs.kv().map_values(|p: (Seq<u8>, MempoolTxView)| p.1.fee);
        let n = self.txs.len();
        let mut r: Vec<u64> = Vec::new();
        let mut i: usize = 0;
        while i < n
            invariant
                0 <= i <= n,
                n == self.txs.kv().len(),
                fees == self.txs.kv().map_values(|p: (Seq<u8>, MempoolTxView)| p.1.fee),
                r@ == fees.take(i as int),
            decreases n - i,
        {
            r.push(self.txs.val_at(i).fee);
            proof {
                assert(r@ =~= fees.take(i + 1));
            }
            i = i + 1;
        }
        proof {
            assert(fees.take(n as int) =~= fees);
        }
        r
    }

    /// Picks at most `max` transactions for a block, most generous fee
    /// first. Every returned transaction sits in the pool under its own
    /// id, no id repeats, and fees never increase along the result.
    pub fn select_for_block(&self, max: usize) -> (r: Vec<Transaction>)
        requires
            self.wf(),
        ensures
            r@.len() == (if max <= self.txs.kv().len() {
                max as int
            } else {
                self.txs.kv().len() as int
            }),
            forall|i: int|
                0 <= i < r@.len() ==> self.txs@.dom().contains(txid_of(#[trigger] r@[i]@))
                    && self.txs@[txid_of(r@[i]@)].tx == r@[i]@,
            forall|i: int, j: int|
                0 <= i < j < r@.len() ==> self.txs@[txid_of(#[trigger] r@[i]@)].fee >= self.txs@[
                    txid_of(#[trigger] r@[j]@)].fee,
            forall|i: int, j: int|
                0 <= i < j < r@.len() ==> txid_of(#[trigger] r@[i]@) != txid_of(
                    #[trigger] r@[j]@,
                ),
    {
        let n = self.txs.len();
        let mut list: Vec<MempoolTx> = Vec::new();
        let mut i: usize = 0;
        while i < n
            invariant
                0 <= i <= n,
                self.wf(),
                n == self.txs.kv().len(),
                list@.len() == i,
                forall|a: int|
                    0 <= a < i ==> #[trigger] list@[a]@ == self.txs.kv()[a].1 && txid_of(
                        list@[a]@.tx,
                    ) == self.txs.kv()[a].0,
                forall|a: int|
                    0 <= a < i ==> self.txs@.dom().contains(txid_of(#[trigger] list@[a]@.tx))
                        && self.txs@[txid_of(list@[a]@.tx)] == list@[a]@,
                forall|a: int, b: int|
                    0 <= a < b < i ==> txid_of(#[trigger] list@[a]@.tx) != txid_of(
                        #[trigger] list@[b]@.tx,
                    ),
            decreases n - i,
        {
            let entry = self.txs.val_at(i).clone();
            proof {
                self.txs.lemma_entry_in_view(i as int);
                assert(entry@ == self.txs.kv()[i as int].1);
                assert(self.txs@[self.txs.kv()[i as int].0] == entry@);
                assert(txid_of(entry@.tx) == self.txs.kv()[i as int].0);
                assert forall|a: int| 0 <= a < i implies txid_of(#[trigger] list@[a]@.tx)
                    != txid_of(entry@.tx) by {
                    assert(txid_of(list@[a]@.tx) == self.txs.kv()[a].0);
                }
            }
            list.push(entry);
            i = i + 1;
        }
        let mut s: usize = 0;
        while s < n
            invariant
                0 <= s <= n,
                self.wf(),
                n == self.txs.kv().len(),
                list@.len() == n,
                forall|a: int|
                    0 <= a < n ==> self.txs@.dom().contains(txid_of(#[trigger] list@[a]@.tx))
                        && self.txs@[txid_of(list@[a]@.tx)] == list@[a]@,
                forall|a: int, b: int|
                    0 <= a < b < n ==> txid_of(#[trigger] list@[a]@.tx) != txid_of(
                        #[trigger] list@[b]@.tx,
                    ),
                forall|a: int, b: int| 0 <= a < b < s ==> #[trigger] list@[a]@.fee >= #[trigger] list@[b]@.fee,
                forall|a: int, b: int|
                    0 <= a < s && s <= b < n ==> #[trigger] list@[a]@.fee >= #[trigger] list@[b]@.fee,
            decreases n - s,
        {
            let mut best: usize = s;
            let mut j: usize = s + 1;
            while j < n
                invariant
                    s < n,
                    s <= best < n,
                    s + 1 <= j <= n,
                    list@.len() == n,
                    forall|b: int| s <= b < j ==> list@[best as int]@.fee >= #[trigger] list@[b]@.fee,
                decreases n - j,
            {
                if list[j].fee > list[best].fee {
                    best = j;
                }
                j = j + 1;
            }
            if best != s {
                let ghost pre = list@;
                let tmp = list[s].clone();
                let picked = list[best].clone();
                list.set(s, picked);
                list.set(best, tmp);
                proof {
                    assert(list@[s as int]@ == pre[best as int]@);
                    assert(list@[best as int]@ == pre[s as int]@);
                    assert(forall|a: int|
                        0 <= a < n && a != s && a != best ==> #[trigger] list@[a] == pre[a]);
                    assert forall|a: int, b: int| 0 <= a < b < n implies txid_of(
                        #[trigger] list@[a]@.tx,
                    ) != txid_of(#[trigger] list@[b]@.tx) by {
                        let a2: int = if a == s {
                            best as int
                        } else if a == best {
                            s as int
                        } else {
                            a
                        };
                        let b2: int = if b == s {
                            best as int
                        } else if b == best {
                            s as int
                        } else {
                            b
                        };
                        assert(list@[a]@ == pre[a2]@);
                        assert(list@[b]@ == pre[b2]@);
                    }
                }
            }
            s = s + 1;
        }
        let count = if max < n {
            max
        } else {
            n
        };
        let mut r: Vec<Transaction> = Vec::new();
        let mut k: usize = 0;
        while k < count
            invariant
                0 <= k <= count,
                count <= n,
                self.wf(),
                n == self.txs.kv().len(),
                list@.len() == n,
                r@.len() == k,
                forall|a: int|
                    0 <= a < n ==> self.txs@.dom().contains(txid_of(#[trigger] list@[a]@.tx))
                        && self.txs@[txid_of(list@[a]@.tx)] == list@[a]@,
                forall|a: int, b: int|
                    0 <= a < b < n ==> txid_of(#[trigger] list@[a]@.tx) != txid_of(
                        #[trigger] list@[b]@.tx,
                    ),
                forall|a: int, b: int| 0 <= a < b < n ==> #[trigger] list@[a]@.fee >= #[trigger] list@[b]@.fee,
                forall|a: int| 0 <= a < k ==> #[trigger] r@[a]@ == list@[a]@.tx,
            decreases count - k,
        {
            r.push(list[k].tx.clone());
            k = k + 1;
        }
        proof {
            assert forall|i2: int, j2: int| 0 <= i2 < j2 < r@.len() implies self.txs@[txid_of(
                #[trigger] r@[i2]@,
            )].fee >= self.txs@[txid_of(#[trigger] r@[j2]@)].fee by {
                assert(r@[i2]@ == list@[i2]@.tx);
                assert(r@[j2]@ == list@[j2]@.tx);
                assert(self.txs@[txid_of(list@[i2]@.tx)].fee == list@[i2]@.fee);
                assert(self.txs@[txid_of(list@[j2]@.tx)].fee == list@[j2]@.fee);
            }
        }
        r
    }
}

} // verus!
