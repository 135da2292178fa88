//! Assembling a candidate block on the current tip.

use vstd::prelude::*;
use crate::chain::BLOCK_REWARD;
use crate::chain::block::Block;
use crate::chain::state::ChainState;
use crate::chain::tx::is_coinbase_tx;
use crate::pow::miner::mine_block;
use crate::pow::verify::pow_ok;

verus! {

/// Builds and mines a block on the chain's current tip, paying the
/// subsidy to `miner_address`; gives up after `max_tries` nonces. Any
/// block returned carries valid proof of work and extends the tip.
pub fn build_block(chain: &ChainState, miner_address: Vec<u8>, max_tries: u64) -> (r: Option<
    Block,
>)
    requires
        chain.wf(),
    ensures
        match r {
            Some(b) => {
                &&& pow_ok(b@.header)
                &&& b@.header.prev_hash == chain.tip@
                &&& b@.transactions.len() == 1
                &&& is_coinbase_tx(b@.transactions[0])
                &&& b@.transactions[0].outputs[0].value == BLOCK_REWARD
            },
            None => true,
        },
{
    let height = match chain.blocks.get(&chain.tip) {
        Some(meta) => meta.height,
        None => {
            proof {
                assert(false);
            }
            0
        },
    };
    if height == u64::MAX {
        return None;
    }
    mine_block(&chain.tip, height + 1, miner_address, 0x1f00ffff, max_tries)
}

} // verus!
