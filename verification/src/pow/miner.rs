//! Local mining: brute-force the nonce until the header hash meets its own
//! target, within a caller-given budget of attempts.

use vstd::prelude::*;
use crate::chain::BLOCK_REWARD;
use crate::chain::block::{Block, merkle_root, merkle_root_of};
use crate::chain::header::BlockHeader;
use crate::chain::tx::{Transaction, is_coinbase_tx};
use crate::encode::clone_bytes;
use crate::pow::verify::{verify_pow, pow_ok};

verus! {

/// Relies on std::time::SystemTime: seconds since the Unix epoch, or zero
/// if the clock reads before it. Nothing is assumed of the value.
#[verifier::external_body]
pub fn current_time() -> u64 {
    match std::time::SystemTime::now().duration_since(std::time::UNIX_EPOCH) {
        Ok(d) => d.as_secs(),
        Err(_) => 0,
    }
}

/// Mines a block of the given difficulty on `prev_hash`, paying the subsidy
/// to `miner_address`: tries nonces from zero and gives up after
/// `max_tries` attempts. The height enters the coinbase data so that no
/// two blocks of one chain share a coinbase. Any block returned carries
/// valid proof of work, the requested parent and bits, and a single
/// well-formed coinbase.
pub fn mine_block(
    prev_hash: &Vec<u8>,
    height: u64,
    miner_address: Vec<u8>,
    bits: u32,
    max_tries: u64,
) -> (r: Option<Block>)
    ensures
        match r {
            Some(b) => {
                &&& pow_ok(b@.header)
                &&& b@.header.prev_hash == prev_hash@
                &&& b@.header.bits == bits
                &&& b@.header.version == 1
                &&& b@.header.merkle_root == merkle_root_of(b@.transactions)
                &&& b@.transactions.len() == 1
                &&& is_coinbase_tx(b@.transactions[0])
                &&& b@.transactions[0].outputs.len() == 1
                &&& b@.transactions[0].outputs[0].value == BLOCK_REWARD
                &&& b@.transactions[0].outputs[0].to_address == miner_address@
            },
            None => true,
        },
{
    let mut note = vec![
        69u8, 103u8, 103u8, 32u8, 67u8, 111u8, 114u8, 101u8, 32u8, 98u8, 108u8, 111u8, 99u8, 107u8,
        32u8, 114u8, 101u8, 119u8, 97u8, 114u8, 100u8,
    ];
    let mut tag = crate::encode::encode_u64_le(height);
    note.append(&mut tag);
    let coinbase = Transaction::coinbase(miner_address, BLOCK_REWARD, note);
    let mut txs: Vec<Transaction> = Vec::new();
    txs.push(coinbase);
    let merkle = merkle_root(&txs);
    let mut header = BlockHeader {
        version: 1,
        prev_hash: clone_bytes(prev_hash),
        merkle_root: merkle,
        timestamp: current_time(),
        bits,
        nonce: 0,
    };
    let mut tries: u64 = 0;
    while tries < max_tries
        invariant
            header@.prev_hash == prev_hash@,
            header@.bits == bits,
            header@.version == 1,
            header@.merkle_root == merkle_root_of(txs@.map_values(|t: Transaction| t@)),
            txs@.len() == 1,
            is_coinbase_tx(txs@.map_values(|t: Transaction| t@)[0]),
            txs@[0]@.outputs.len() == 1,
            txs@[0]@.outputs[0].value == BLOCK_REWARD,
            txs@[0]@.outputs[0].to_address == miner_address@,
        decreases max_tries - tries,
    {
        if verify_pow(&header) {
            let b = Block { header, transactions: txs };
            return Some(b);
        }
        if header.nonce == u64::MAX {
            return None;
        }
        header.nonce = header.nonce + 1;
        tries = tries + 1;
    }
    None
}

} // verus!
