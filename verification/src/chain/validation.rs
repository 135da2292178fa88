//! The structural check a genesis block must pass before it is installed.

use vstd::prelude::*;
use crate::chain::block::{Block, BlockView};
use crate::chain::tx::is_coinbase_tx;
use crate::encode::{zero_hash, is_zero_hash};

verus! {

/// A genesis block has the zero parent reference and exactly one
/// transaction, which must be the coinbase.
pub open spec fn genesis_ok(b: BlockView) -> bool {
    &&& b.header.prev_hash == zero_hash()
    &&& b.transactions.len() == 1
    &&& is_coinbase_tx(b.transactions[0])
    &&& b.transactions[0].outputs.len() < 0x1_0000_0000
}

pub fn validate_genesis(block: &Block) -> (r: bool)
    ensures
        r == genesis_ok(block@),
{
    if !is_zero_hash(&block.header.prev_hash) {
        return false;
    }
    if block.transactions.len() != 1 {
        return false;
    }
    if !block.transactions[0].is_coinbase() {
        return false;
    }
    if block.transactions[0].outputs.len() as u64 >= 0x1_0000_0000u64 {
        return false;
    }
    true
}

} // verus!
