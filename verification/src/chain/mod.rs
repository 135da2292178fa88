//! The consensus core: block and transaction model, content hashing, the
//! UTXO ledger with its undo log, and the chain state machine.

use vstd::prelude::*;

pub mod block;
pub mod builder;
pub mod hash;
pub mod header_chain;
pub mod sign;
pub mod state;
pub mod header;
pub mod tx;
pub mod txid;
pub mod undo;
pub mod utxo;
pub mod validation;

use crate::chain::block::{Block, BlockView, merkle_root, merkle_root_of};
use crate::chain::hash::{hash_header, hash_of_header};
use crate::chain::header::{BlockHeader, HeaderView};
use crate::chain::tx::{Transaction, TxView, TxInputView, TxOutputView};
use crate::chain::validation::genesis_ok;
use crate::encode::zero_hash;

verus! {

/// The fixed subsidy a block's coinbase may claim on top of fees.
pub const BLOCK_REWARD: u64 = 50;

/// The address the genesis coinbase pays to ("genesis" in ASCII).
pub open spec fn genesis_address() -> Seq<u8> {
    seq![103u8, 101u8, 110u8, 101u8, 115u8, 105u8, 115u8]
}

/// The note carried in the genesis coinbase ("Egg Core Genesis 2025-01-01").
pub open spec fn genesis_note() -> Seq<u8> {
    seq![
        69u8, 103u8, 103u8, 32u8, 67u8, 111u8, 114u8, 101u8, 32u8, 71u8, 101u8, 110u8, 101u8,
        115u8, 105u8, 115u8, 32u8, 50u8, 48u8, 50u8, 53u8, 45u8, 48u8, 49u8, 45u8, 48u8, 49u8,
    ]
}

pub open spec fn genesis_tx() -> TxView {
    TxView {
        inputs: seq![
            TxInputView {
                prev_txid: zero_hash(),
                vout: 0,
                signature: Seq::empty(),
                pubkey: Seq::empty(),
            },
        ],
        outputs: seq![TxOutputView { value: 0, to_address: genesis_address() }],
        data: genesis_note(),
    }
}

pub open spec fn genesis_block_view() -> BlockView {
    BlockView {
        header: HeaderView {
            version: 1,
            prev_hash: zero_hash(),
            merkle_root: merkle_root_of(seq![genesis_tx()]),
            timestamp: 1735689600,
            bits: 0x1f00ffff,
            nonce: 0,
        },
        transactions: seq![genesis_tx()],
    }
}

/// Builds the network's genesis block: height zero, zero parent, a single
/// zero-value coinbase, and an easy difficulty floor.
pub fn genesis_block() -> (r: Block)
    ensures
        r@ == genesis_block_view(),
        genesis_ok(r@),
{
    let to = vec![103u8, 101u8, 110u8, 101u8, 115u8, 105u8, 115u8];
    let note = vec![
        69u8, 103u8, 103u8, 32u8, 67u8, 111u8, 114u8, 101u8, 32u8, 71u8, 101u8, 110u8, 101u8,
        115u8, 105u8, 115u8, 32u8, 50u8, 48u8, 50u8, 53u8, 45u8, 48u8, 49u8, 45u8, 48u8, 49u8,
    ];
    let coinbase = Transaction::coinbase(to, 0, note);
    proof {
        assert(coinbase@.inputs[0] =~~= genesis_tx().inputs[0]);
        assert(coinbase@.inputs =~~= genesis_tx().inputs);
        assert(coinbase@.outputs[0] =~~= genesis_tx().outputs[0]);
        assert(coinbase@.outputs =~~= genesis_tx().outputs);
        assert(coinbase@ =~~= genesis_tx());
    }
    let mut txs: Vec<Transaction> = Vec::new();
    txs.push(coinbase);
    let root = merkle_root(&txs);
    proof {
        assert(txs@.map_values(|t: Transaction| t@) =~= seq![genesis_tx()]);
    }
    let header = BlockHeader {
        version: 1,
        prev_hash: crate::encode::make_zero_hash(),
        merkle_root: root,
        timestamp: 1735689600,
        bits: 0x1f00ffff,
        nonce: 0,
    };
    let r = Block { header, transactions: txs };
    proof {
        assert(r@ =~~= genesis_block_view());
    }
    r
}

/// The identity of the genesis block.
pub fn genesis_hash() -> (r: Vec<u8>)
    ensures
        r@ == hash_of_header(genesis_block_view().header),
        r@.len() == 32,
{
    let genesis = genesis_block();
    hash_header(&genesis.header)
}

} // verus!
