//! Percentile-based fee estimation: pooled and recently mined fees are
//! sorted, and the 25th, 50th and 75th percentiles become the low,
//! medium and high recommendations, floored at one.

use vstd::prelude::*;
use vstd::seq_lib::lemma_sorted_unique;
use vstd::relations::{sorted_by, total_ordering};
use crate::mempool::{Mempool, MempoolTxView};

verus! {

pub struct FeeEstimate {
    pub low: u64,
    pub medium: u64,
    pub high: u64,
}

pub struct FeeEstimator {
    /// The fee lists of recent blocks, oldest first.
    pub history: Vec<Vec<u64>>,
    /// How many blocks of history to keep.
    pub max_blocks: usize,
}

pub open spec fn history_views(h: Seq<Vec<u64>>) -> Seq<Seq<u64>> {
    h.map_values(|v: Vec<u64>| v@)
}

/// All fees of a history, in block order.
pub open spec fn flatten_fees(h: Seq<Seq<u64>>) -> Seq<u64>
    decreases h.len(),
{
    if h.len() == 0 {
        Seq::empty()
    } else {
        flatten_fees(h.drop_last()) + h.last()
    }
}

pub open spec fn fee_leq() -> spec_fn(u64, u64) -> bool {
    |a: u64, b: u64| a <= b
}

/// The samples an estimate draws on: the mempool's fees followed by the
/// recorded history.
pub open spec fn sample_seq(pool: Seq<(Seq<u8>, MempoolTxView)>, h: Seq<Seq<u64>>) -> Seq<u64> {
    pool.map_values(|p: (Seq<u8>, MempoolTxView)| p.1.fee) + flatten_fees(h)
}

pub open spec fn floor_one(x: u64) -> u64 {
    if x < 1 {
        1
    } else {
        x
    }
}

impl FeeEstimator {
    pub fn new(max_blocks: usize) -> (r: FeeEstimator)
        ensures
            r.history@.len() == 0,
            r.max_blocks == max_blocks,
    {
        FeeEstimator { history: Vec::new(), max_blocks }
    }

    /// Records a mined block's fees, dropping the oldest block once the
    /// history exceeds its bound.
    pub fn record_block(&mut self, fees: Vec<u64>)
        ensures
            final(self).max_blocks == old(self).max_blocks,
            ({
                let pushed = history_views(old(self).history@).push(fees@);
                history_views(final(self).history@) == if pushed.len() > old(self).max_blocks {
                    pushed.subrange(1, pushed.len() as int)
                } else {
                    pushed
                }
            }),
    {
        let ghost pushed = history_views(self.history@).push(fees@);
        self.history.push(fees);
        proof {
            assert(history_views(self.history@) =~= pushed);
        }
        if self.history.len() > self.max_blocks {
            self.history.remove(0);
            proof {
                assert(history_views(self.history@) =~= pushed.subrange(1, pushed.len() as int));
            }
        }
    }

    /// Estimates fees from the mempool and the recorded history: with no
    /// samples at all, every tier is one; otherwise the tiers are the
    /// 25th, 50th and 75th percentiles of the sorted samples, floored at
    /// one.
    pub fn estimate(&self, mempool: &Mempool) -> (r: FeeEstimate)
        ensures
            ({
                let samples = sample_seq(mempool.txs.kv(), history_views(self.history@));
                if samples.len() == 0 {
                    r.low == 1 && r.medium == 1 && r.high == 1
                } else {
                    let sorted = samples.sort_by(fee_leq());
                    &&& r.low == floor_one(sorted[samples.len() as int * 25 / 100])
                    &&& r.medium == floor_one(sorted[samples.len() as int * 50 / 100])
                    &&& r.high == floor_one(sorted[samples.len() as int * 75 / 100])
                }
            }),
    {
        let ghost hviews = history_views(self.history@);
        let ghost samples_spec = sample_seq(mempool.txs.kv(), hviews);
        let mut samples: Vec<u64> = mempool.fee_list();
        let nh = self.history.len();
        let mut i: usize = 0;
        while i < nh
            invariant
                0 <= i <= nh,
                nh == self.history@.len(),
                hviews == history_views(self.history@),
                samples@ == mempool.txs.kv().map_values(|p: (Seq<u8>, MempoolTxView)| p.1.fee)
                    + flatten_fees(hviews.take(i as int)),
            decreases nh - i,
        {
            let block = &self.history[i];
            let nb = block.len();
            let mut j: usize = 0;
            while j < nb
                invariant
                    0 <= j <= nb,
                    0 <= i < nh,
                    nh == self.history@.len(),
                    hviews == history_views(self.history@),
                    nb == self.history@[i as int]@.len(),
                    block@ == self.history@[i as int]@,
                    samples@ == mempool.txs.kv().map_values(
                        |p: (Seq<u8>, MempoolTxView)| p.1.fee,
                    ) + flatten_fees(hviews.take(i as int)) + block@.take(j as int),
                decreases nb - j,
            {
                samples.push(block[j]);
                proof {
                    assert(block@.take(j + 1) =~= block@.take(j as int).push(block@[j as int]));
                    assert(samples@ =~= mempool.txs.kv().map_values(
                        |p: (Seq<u8>, MempoolTxView)| p.1.fee,
                    ) + flatten_fees(hviews.take(i as int)) + block@.take(j + 1));
                }
                j = j + 1;
            }
            proof {
                assert(block@.take(nb as int) =~= block@);
                assert(hviews.take(i + 1).drop_last() =~= hviews.take(i as int));
                assert(hviews.take(i + 1).last() == hviews[i as int]);
                assert(flatten_fees(hviews.take(i + 1)) =~= flatten_fees(hviews.take(i as int))
                    + block@);
                assert(samples@ =~= mempool.txs.kv().map_values(
                    |p: (Seq<u8>, MempoolTxView)| p.1.fee,
                ) + flatten_fees(hviews.take(i + 1)));
            }
            i = i + 1;
        }
        proof {
            assert(hviews.take(nh as int) =~= hviews);
            assert(samples@ =~= samples_spec);
        }
        if samples.len() == 0 {
            return FeeEstimate { low: 1, medium: 1, high: 1 };
        }
        sort_fees(&mut samples);
        proof {
            assert(total_ordering(fee_leq()));
            samples_spec.lemma_sort_by_ensures(fee_leq());
            lemma_sorted_unique(samples@, samples_spec.sort_by(fee_leq()), fee_leq());
            assert(samples@ =~= samples_spec.sort_by(fee_leq()));
        }
        let len = samples.len();
        let i25 = (((len as u128) * 25 / 100) as usize);
        let i50 = (((len as u128) * 50 / 100) as usize);
        let i75 = (((len as u128) * 75 / 100) as usize);
        proof {
            assert((len as u128) * 25 / 100 < len && (len as u128) * 50 / 100 < len && (len
                as u128) * 75 / 100 < len) by (nonlinear_arith)
                requires
                    len >= 1,
            ;
        }
        let p25 = samples[i25];
        let p50 = samples[i50];
        let p75 = samples[i75];
        FeeEstimate {
            low: if p25 < 1 {
                1
            } else {
                p25
            },
            medium: if p50 < 1 {
                1
            } else {
                p50
            },
            high: if p75 < 1 {
                1
            } else {
                p75
            },
        }
    }
}

/// Sorts fees ascending in place.
fn sort_fees(v: &mut Vec<u64>)
    ensures
        sorted_by(final(v)@, fee_leq()),
        final(v)@.to_multiset() == old(v)@.to_multiset(),
        final(v)@.len() == old(v)@.len(),
{
    let n = v.len();
    let mut s: usize = 0;
    while s < n
        invariant
            0 <= s <= n,
            v@.len() == n,
            v@.to_multiset() == old(v)@.to_multiset(),
            forall|a: int, b: int| 0 <= a < b < s ==> v@[a] <= v@[b],
            forall|a: int, b: int| 0 <= a < s && s <= b < n ==> v@[a] <= v@[b],
        decreases n - s,
    {
        let mut best: usize = s;
        let mut j: usize = s + 1;
        while j < n
            invariant
                s < n,
                s <= best < n,
                s + 1 <= j <= n,
                v@.len() == n,
                forall|b: int| s <= b < j ==> v@[best as int] <= #[trigger] v@[b],
            decreases n - j,
        {
            if v[j] < v[best] {
                best = j;
            }
            j = j + 1;
        }
        if best != s {
            let ghost pre = v@;
            let tmp = v[s];
            let picked = v[best];
            v.set(s, picked);
            v.set(best, tmp);
            proof {
                let mid = pre.update(s as int, pre[best as int]);
                assert(v@ =~= mid.update(best as int, pre[s as int]));
                vstd::seq_lib::to_multiset_update(pre, s as int, pre[best as int]);
                vstd::seq_lib::to_multiset_update(mid, best as int, pre[s as int]);
                assert(mid[best as int] == pre[best as int]);
                pre.to_multiset_ensures();
                mid.to_multiset_ensures();
                assert(pre.to_multiset().contains(pre[s as int]));
                assert(pre.to_multiset().contains(pre[best as int]));
                assert(v@.to_multiset() =~= pre.to_multiset());
            }
        }
        s = s + 1;
    }
    proof {
        assert(sorted_by(v@, fee_leq()));
    }
}

} // verus!
