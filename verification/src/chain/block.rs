//! A block: header plus ordered transaction list, and the merkle
//! accumulator that commits the header to that list.

use vstd::prelude::*;
use crate::chain::header::{BlockHeader, HeaderView};
use crate::chain::tx::{Transaction, TxView, tx_bytes, encode_tx};
use crate::digest::{sha256, sha256_of};

verus! {

pub struct Block {
    pub header: BlockHeader,
    pub transactions: Vec<Transaction>,
}

#[verifier::ext_equal]
pub struct BlockView {
    pub header: HeaderView,
    pub transactions: Seq<TxView>,
}

impl View for Block {
    type V = BlockView;

    open spec fn view(&self) -> BlockView {
        BlockView {
            header: self.header@,
            transactions: self.transactions@.map_values(|t: Transaction| t@),
        }
    }
}

impl Clone for Block {
    fn clone(&self) -> (r: Self)
        ensures
            r@ == self@,
    {
        let n = self.transactions.len();
        let mut txs: Vec<Transaction> = Vec::new();
        let mut i: usize = 0;
        while i < n
            invariant
                0 <= i <= n,
                n == self.transactions@.len(),
                txs@.len() == i,
                forall|j: int| 0 <= j < i ==> txs@[j]@ == self.transactions@[j]@,
            decreases n - i,
        {
            txs.push(self.transactions[i].clone());
            i = i + 1;
        }
        let r = Block { header: self.header.clone(), transactions: txs };
        proof {
            assert(r@.transactions =~= self@.transactions);
        }
        r
    }
}

/// The byte string the merkle root digests: the concatenation of every
/// transaction's canonical encoding, in block order.
pub open spec fn merkle_input(s: Seq<TxView>) -> Seq<u8>
    decreases s.len(),
{
    if s.len() == 0 {
        Seq::empty()
    } else {
        merkle_input(s.drop_last()) + tx_bytes(s.last())
    }
}

pub open spec fn merkle_root_of(s: Seq<TxView>) -> Seq<u8> {
    sha256_of(merkle_input(s))
}

/// An accumulating content hash over the transaction list: it changes
/// whenever any transaction's content or position changes, but supports no
/// compact partial proofs.
pub fn merkle_root(txs: &Vec<Transaction>) -> (r: Vec<u8>)
    ensures
        r@ == merkle_root_of(txs@.map_values(|t: Transaction| t@)),
        r@.len() == 32,
{
    let ghost views = txs@.map_values(|t: Transaction| t@);
    let n = txs.len();
    let mut acc: Vec<u8> = Vec::new();
    let mut i: usize = 0;
    proof {
        assert(views.take(0) =~= Seq::<TxView>::empty());
        assert(acc@ =~= merkle_input(views.take(0)));
    }
    while i < n
        invariant
            0 <= i <= n,
            n == txs@.len(),
            views == txs@.map_values(|t: Transaction| t@),
            acc@ == merkle_input(views.take(i as int)),
        decreases n - i,
    {
        let mut part = encode_tx(&txs[i]);
        acc.append(&mut part);
        proof {
            assert(views.take(i + 1).drop_last() =~= views.take(i as int));
            assert(views.take(i + 1).last() == views[i as int]);
        }
        i = i + 1;
    }
    proof {
        assert(views.take(n as int) =~= views);
    }
    sha256(&acc)
}

} // verus!
