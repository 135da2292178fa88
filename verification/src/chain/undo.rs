//! Per-block undo information: the full records of every output the block
//! consumed and every output it created, enough to invert the block's
//! effect on the ledger exactly.

use vstd::prelude::*;
use crate::chain::utxo::{UTXO, UtxoView, utxo_key_of};
use crate::keyed_map::map_of;

verus! {

pub struct BlockUndo {
    /// Records the block consumed, as they stood before the block.
    pub spent: Vec<UTXO>,
    /// Records the block created, coinbase outputs included.
    pub created: Vec<UTXO>,
}

#[verifier::ext_equal]
pub struct BlockUndoView {
    pub spent: Seq<UtxoView>,
    pub created: Seq<UtxoView>,
}

impl View for BlockUndo {
    type V = BlockUndoView;

    open spec fn view(&self) -> BlockUndoView {
        BlockUndoView {
            spent: self.spent@.map_values(|u: UTXO| u@),
            created: self.created@.map_values(|u: UTXO| u@),
        }
    }
}

impl BlockUndo {
    pub fn new() -> (r: BlockUndo)
        ensures
            r@.spent == Seq::<UtxoView>::empty(),
            r@.created == Seq::<UtxoView>::empty(),
    {
        let r = BlockUndo { spent: Vec::new(), created: Vec::new() };
        proof {
            assert(r@.spent =~= Seq::<UtxoView>::empty());
            assert(r@.created =~= Seq::<UtxoView>::empty());
        }
        r
    }
}

/// A record list read as key-value pairs, keyed by output reference.
pub open spec fn utxo_pairs(s: Seq<UtxoView>) -> Seq<(Seq<u8>, UtxoView)> {
    s.map_values(|u: UtxoView| (utxo_key_of(u), u))
}

/// The ledger fragment denoted by a record list.
pub open spec fn utxo_list_map(s: Seq<UtxoView>) -> Map<Seq<u8>, UtxoView> {
    map_of(utxo_pairs(s))
}

} // verus!
