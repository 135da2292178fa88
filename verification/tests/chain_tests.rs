use egg_node::chain::block::{Block, merkle_root};
use egg_node::chain::header_chain::HeaderChain;
use egg_node::chain::genesis_block;
use egg_node::chain::genesis_hash;
use egg_node::chain::hash::hash_header;
use egg_node::chain::header::BlockHeader;
use egg_node::chain::sign::{public_key_for, sign_tx};
use egg_node::chain::state::ChainState;
use egg_node::chain::tx::{Transaction, TxInput, TxOutput};
use egg_node::chain::txid::txid;
use egg_node::chain::utxo::make_utxo_key;
use egg_node::chain::validation::validate_genesis;
use egg_node::pow::miner::mine_block;
use egg_node::pow::verify::verify_pow;

const TRIES: u64 = 50_000_000;

fn init_chain() -> ChainState {
    ChainState::load_or_init(genesis_block(), Vec::new()).expect("genesis must load")
}

/// Mines a block with an explicit transaction list on `prev`.
fn mine_with_txs(prev: &Vec<u8>, txs: Vec<Transaction>, bits: u32) -> Block {
    let root = merkle_root(&txs);
    let mut header = BlockHeader {
        version: 1,
        prev_hash: prev.clone(),
        merkle_root: root,
        timestamp: 1,
        bits,
        nonce: 0,
    };
    loop {
        if verify_pow(&header) {
            return Block { header, transactions: txs };
        }
        header.nonce += 1;
    }
}

#[test]
fn genesis_validates_and_loads() {
    let g = genesis_block();
    assert!(validate_genesis(&g));
    let chain = init_chain();
    assert_eq!(chain.tip, genesis_hash());
    assert!(chain.has_block(&genesis_hash()));
    // The ledger holds exactly the genesis coinbase output.
    assert_eq!(chain.utxos.len(), 1);
}

#[test]
fn linear_chain_moves_tip() {
    let mut chain = init_chain();
    let addr = vec![1u8; 32];
    let b1 = mine_block(&chain.tip.clone(), 1, addr.clone(), 0x1f00ffff, TRIES).unwrap();
    let h1 = hash_header(&b1.header);
    assert!(chain.add_block(b1));
    assert_eq!(chain.tip, h1);
    let b2 = mine_block(&h1, 2, addr, 0x1f00ffff, TRIES).unwrap();
    let h2 = hash_header(&b2.header);
    assert!(chain.add_block(b2));
    assert_eq!(chain.tip, h2);
    assert_eq!(chain.utxos.len(), 3);
}

#[test]
fn unknown_parent_is_rejected_without_mutation() {
    let mut chain = init_chain();
    let fake_parent = vec![9u8; 32];
    let orphan = mine_block(&fake_parent, 1, vec![1u8; 32], 0x1f00ffff, TRIES).unwrap();
    let tip_before = chain.tip.clone();
    let utxos_before = chain.utxos.len();
    assert!(!chain.add_block(orphan));
    assert_eq!(chain.tip, tip_before);
    assert_eq!(chain.utxos.len(), utxos_before);
}

#[test]
fn duplicate_block_is_rejected_without_mutation() {
    let mut chain = init_chain();
    let b1 = mine_block(&chain.tip.clone(), 1, vec![1u8; 32], 0x1f00ffff, TRIES).unwrap();
    let b1_again = b1.clone();
    assert!(chain.add_block(b1));
    let tip_before = chain.tip.clone();
    let utxos_before = chain.utxos.len();
    assert!(!chain.add_block(b1_again));
    assert_eq!(chain.tip, tip_before);
    assert_eq!(chain.utxos.len(), utxos_before);
}

#[test]
fn fork_choice_prefers_more_work() {
    // Genesis at easy bits; A carries more work than A-prime.
    let mut chain = init_chain();
    let g = chain.tip.clone();
    let a = mine_block(&g, 1, vec![1u8; 32], 0x1f00aaaa, TRIES).unwrap();
    let a_hash = hash_header(&a.header);
    let a_coinbase = txid(&a.transactions[0]);
    let a_prime = mine_block(&g, 1, vec![2u8; 32], 0x1f00ffff, TRIES).unwrap();
    let ap_coinbase = txid(&a_prime.transactions[0]);
    assert!(chain.add_block(a));
    assert_eq!(chain.tip, a_hash);
    // The weaker sibling is stored but does not move the tip.
    assert!(chain.add_block(a_prime));
    assert_eq!(chain.tip, a_hash);
    // The ledger reflects genesis plus A's coinbase, not A-prime's.
    assert!(chain.utxos.get(&make_utxo_key(&a_coinbase, 0)).is_some());
    assert!(chain.utxos.get(&make_utxo_key(&ap_coinbase, 0)).is_none());
    assert_eq!(chain.utxos.len(), 2);
}

#[test]
fn reorg_switches_ledger_to_heavier_branch() {
    let mut chain = init_chain();
    let g = chain.tip.clone();
    // Weak block A wins first; stronger sibling B then takes over.
    let a = mine_block(&g, 1, vec![1u8; 32], 0x1f00ffff, TRIES).unwrap();
    let a_hash = hash_header(&a.header);
    let a_coinbase = txid(&a.transactions[0]);
    let b = mine_block(&g, 1, vec![2u8; 32], 0x1f00aaaa, TRIES).unwrap();
    let b_hash = hash_header(&b.header);
    let b_coinbase = txid(&b.transactions[0]);
    assert!(chain.add_block(a));
    assert_eq!(chain.tip, a_hash);
    assert!(chain.add_block(b));
    assert_eq!(chain.tip, b_hash);
    // After the reorg the ledger equals the replay of genesis then B.
    assert!(chain.utxos.get(&make_utxo_key(&b_coinbase, 0)).is_some());
    assert!(chain.utxos.get(&make_utxo_key(&a_coinbase, 0)).is_none());
    assert_eq!(chain.utxos.len(), 2);
    // Extending the losing branch overtakes once its work exceeds B's.
    let c = mine_block(&a_hash, 2, vec![3u8; 32], 0x1f00ffff, TRIES).unwrap();
    let c_hash = hash_header(&c.header);
    assert!(chain.add_block(c));
    assert_eq!(chain.tip, c_hash);
    assert!(chain.utxos.get(&make_utxo_key(&a_coinbase, 0)).is_some());
    assert!(chain.utxos.get(&make_utxo_key(&b_coinbase, 0)).is_none());
    assert_eq!(chain.utxos.len(), 3);
}

fn spending_tx(prev_txid: &Vec<u8>, vout: u32, value: u64, sk: &Vec<u8>, to: Vec<u8>) -> Transaction {
    let pk = public_key_for(sk).expect("valid key");
    let mut tx = Transaction {
        inputs: vec![TxInput {
            prev_txid: prev_txid.clone(),
            vout,
            signature: Vec::new(),
            pubkey: pk,
        }],
        outputs: vec![TxOutput { value, to_address: to }],
        data: Vec::new(),
    };
    let sig = sign_tx(&tx, sk).expect("valid key");
    tx.inputs[0].signature = sig;
    tx
}

#[test]
fn spend_and_double_spend() {
    let sk = vec![7u8; 32];
    let pk = public_key_for(&sk).expect("valid key");
    let addr = egg_node::wallet::address::pubkey_to_address(&pk);
    let mut chain = init_chain();
    // Block A pays the subsidy to our key.
    let a = mine_block(&chain.tip.clone(), 1, addr.clone(), 0x1f00ffff, TRIES).unwrap();
    let a_hash = hash_header(&a.header);
    let a_coinbase = txid(&a.transactions[0]);
    assert!(chain.add_block(a));
    // Block B spends that output.
    let spend = spending_tx(&a_coinbase, 0, 50, &sk, vec![4u8; 32]);
    let cb = Transaction::coinbase(vec![5u8; 32], 50, Vec::new());
    let b = mine_with_txs(&a_hash, vec![cb, spend.clone()], 0x1f00ffff);
    let b_hash = hash_header(&b.header);
    assert!(chain.add_block(b));
    assert_eq!(chain.tip, b_hash);
    // A block on the new tip spending the same output again is refused
    // and changes nothing.
    let respend = spending_tx(&a_coinbase, 0, 50, &sk, vec![6u8; 32]);
    let cb2 = Transaction::coinbase(vec![5u8; 32], 50, vec![2u8]);
    let c = mine_with_txs(&b_hash, vec![cb2, respend], 0x1f00ffff);
    let tip_before = chain.tip.clone();
    let utxos_before = chain.utxos.len();
    assert!(!chain.add_block(c));
    assert_eq!(chain.tip, tip_before);
    assert_eq!(chain.utxos.len(), utxos_before);
}

#[test]
fn overspending_and_bad_signatures_are_rejected() {
    let sk = vec![7u8; 32];
    let pk = public_key_for(&sk).expect("valid key");
    let addr = egg_node::wallet::address::pubkey_to_address(&pk);
    let mut chain = init_chain();
    let a = mine_block(&chain.tip.clone(), 1, addr.clone(), 0x1f00ffff, TRIES).unwrap();
    let a_hash = hash_header(&a.header);
    let a_coinbase = txid(&a.transactions[0]);
    assert!(chain.add_block(a));
    // Paying out more than the input holds is refused.
    let overspend = spending_tx(&a_coinbase, 0, 51, &sk, vec![4u8; 32]);
    let cb = Transaction::coinbase(vec![5u8; 32], 50, Vec::new());
    let b = mine_with_txs(&a_hash, vec![cb, overspend], 0x1f00ffff);
    assert!(!chain.add_block(b));
    // A tampered signature is refused.
    let mut bad = spending_tx(&a_coinbase, 0, 50, &sk, vec![4u8; 32]);
    if let Some(byte) = bad.inputs[0].signature.last_mut() {
        *byte ^= 1;
    }
    let cb2 = Transaction::coinbase(vec![5u8; 32], 50, Vec::new());
    let b2 = mine_with_txs(&a_hash, vec![cb2, bad], 0x1f00ffff);
    assert!(!chain.add_block(b2));
    // A key that does not own the spent address is refused.
    let other_sk = vec![8u8; 32];
    let stolen = spending_tx(&a_coinbase, 0, 50, &other_sk, vec![4u8; 32]);
    let cb3 = Transaction::coinbase(vec![5u8; 32], 50, Vec::new());
    let b3 = mine_with_txs(&a_hash, vec![cb3, stolen], 0x1f00ffff);
    assert!(!chain.add_block(b3));
    assert_eq!(chain.utxos.len(), 2);
}

#[test]
fn blocks_without_proper_coinbase_are_rejected() {
    let mut chain = init_chain();
    let tip = chain.tip.clone();
    // No transactions at all.
    let empty = mine_with_txs(&tip, Vec::new(), 0x1f00ffff);
    assert!(!chain.add_block(empty));
    // First transaction not a coinbase.
    let not_cb = Transaction {
        inputs: vec![TxInput {
            prev_txid: vec![1u8; 32],
            vout: 0,
            signature: Vec::new(),
            pubkey: Vec::new(),
        }],
        outputs: Vec::new(),
        data: Vec::new(),
    };
    let b = mine_with_txs(&tip, vec![not_cb], 0x1f00ffff);
    assert!(!chain.add_block(b));
    // Two coinbases.
    let cb1 = Transaction::coinbase(vec![1u8; 32], 50, Vec::new());
    let cb2 = Transaction::coinbase(vec![2u8; 32], 50, Vec::new());
    let b2 = mine_with_txs(&tip, vec![cb1, cb2], 0x1f00ffff);
    assert!(!chain.add_block(b2));
    assert_eq!(chain.tip, tip);
}

#[test]
fn load_or_init_replays_stored_blocks() {
    // Build a two-block chain, then reload it from its stored blocks.
    let mut chain = init_chain();
    let b1 = mine_block(&chain.tip.clone(), 1, vec![1u8; 32], 0x1f00ffff, TRIES).unwrap();
    let b1_copy = b1.clone();
    let h1 = hash_header(&b1.header);
    assert!(chain.add_block(b1));
    let reloaded = ChainState::load_or_init(genesis_block(), vec![b1_copy]).unwrap();
    assert_eq!(reloaded.tip, h1);
    assert_eq!(reloaded.utxos.len(), chain.utxos.len());
    // A genesis that fails its structural check is refused.
    let mut bad_genesis = genesis_block();
    bad_genesis.header.prev_hash = vec![1u8; 32];
    assert!(ChainState::load_or_init(bad_genesis, Vec::new()).is_none());
}

#[test]
fn build_block_extends_the_tip() {
    let mut chain = init_chain();
    let tip = chain.tip.clone();
    let b = egg_node::chain::builder::build_block(&chain, vec![1u8; 32], TRIES).unwrap();
    assert_eq!(b.header.prev_hash, tip);
    let h = hash_header(&b.header);
    assert!(chain.add_block(b));
    assert_eq!(chain.tip, h);
}

#[test]
fn header_chain_accepts_only_known_parents_with_pow() {
    let g = genesis_block();
    let mut hc = HeaderChain::new(g.header.clone());
    let ghash = hash_header(&g.header);
    assert_eq!(hc.tip, ghash);
    // A header whose parent is unknown is refused.
    let strange = mine_block(&vec![9u8; 32], 1, vec![1u8; 32], 0x1f00ffff, TRIES).unwrap();
    assert!(!hc.add(strange.header));
    // A mined child of the tip is accepted and becomes the tip.
    let child = mine_block(&ghash, 1, vec![1u8; 32], 0x1f00ffff, TRIES).unwrap();
    let child_hash = hash_header(&child.header);
    assert!(hc.add(child.header));
    assert_eq!(hc.tip, child_hash);
}
