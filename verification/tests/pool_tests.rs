use egg_node::chain::genesis_block;
use egg_node::chain::state::ChainState;
use egg_node::chain::tx::{Transaction, TxInput, TxOutput};
use egg_node::chain::txid::txid;
use egg_node::chain::utxo::{UTXO, UtxoMap, make_utxo_key};
use egg_node::config::NodeConfig;
use egg_node::fee::estimator::FeeEstimator;
use egg_node::keyed_map::KeyedMap;
use egg_node::mempool::{Mempool, calc_fee};
use egg_node::net::ban::BanManager;
use egg_node::net::rate::RateLimiter;
use egg_node::orphan::block::OrphanBlockPool;
use egg_node::orphan::tx::OrphanTxPool;
use egg_node::pow::miner::mine_block;

fn simple_tx(prev_txid: Vec<u8>, vout: u32, value: u64) -> Transaction {
    Transaction {
        inputs: vec![TxInput { prev_txid, vout, signature: Vec::new(), pubkey: Vec::new() }],
        outputs: vec![TxOutput { value, to_address: vec![1u8; 32] }],
        data: Vec::new(),
    }
}

fn ledger_with(entries: &[(Vec<u8>, u32, u64)]) -> UtxoMap {
    let mut m: UtxoMap = KeyedMap::new();
    for (txid_bytes, vout, value) in entries {
        let key = make_utxo_key(txid_bytes, *vout);
        m.insert(
            key,
            UTXO {
                txid: txid_bytes.clone(),
                vout: *vout,
                value: *value,
                address: vec![0u8; 32],
                height: 1,
            },
        );
    }
    m
}

#[test]
fn fee_is_input_surplus() {
    let ledger = ledger_with(&[(vec![1u8; 32], 0, 100)]);
    let tx = simple_tx(vec![1u8; 32], 0, 60);
    assert_eq!(calc_fee(&tx, &ledger), Some(40));
    // Unknown inputs give no fee.
    let stranger = simple_tx(vec![2u8; 32], 0, 10);
    assert_eq!(calc_fee(&stranger, &ledger), None);
    // A deficit gives no fee.
    let deficit = simple_tx(vec![1u8; 32], 0, 101);
    assert_eq!(calc_fee(&deficit, &ledger), None);
}

#[test]
fn mempool_orders_by_fee() {
    let ledger = ledger_with(&[
        (vec![1u8; 32], 0, 100),
        (vec![2u8; 32], 0, 100),
        (vec![3u8; 32], 0, 100),
    ]);
    let mut pool = Mempool::new();
    let t1 = simple_tx(vec![1u8; 32], 0, 90);  // fee 10
    let t2 = simple_tx(vec![2u8; 32], 0, 50);  // fee 50
    let t3 = simple_tx(vec![3u8; 32], 0, 70);  // fee 30
    assert!(pool.add(t1.clone(), &ledger));
    // A duplicate is refused.
    assert!(!pool.add(t1.clone(), &ledger));
    assert!(pool.add(t2.clone(), &ledger));
    assert!(pool.add(t3.clone(), &ledger));
    let mut fees = pool.fee_list();
    fees.sort();
    assert_eq!(fees, vec![10, 30, 50]);
    let picked = pool.select_for_block(2);
    assert_eq!(picked.len(), 2);
    assert_eq!(txid(&picked[0]), txid(&t2));
    assert_eq!(txid(&picked[1]), txid(&t3));
    pool.remove(&t2);
    let picked = pool.select_for_block(5);
    assert_eq!(picked.len(), 2);
    assert_eq!(txid(&picked[0]), txid(&t3));
}

#[test]
fn fee_estimator_takes_percentiles() {
    let pool = Mempool::new();
    let mut est = FeeEstimator::new(2);
    // No samples at all: every tier floors at one.
    let empty = est.estimate(&pool);
    assert_eq!((empty.low, empty.medium, empty.high), (1, 1, 1));
    est.record_block(vec![5, 1]);
    est.record_block(vec![9, 3]);
    // Samples sort to [1, 3, 5, 9]; indices 1, 2 and 3.
    let e = est.estimate(&pool);
    assert_eq!((e.low, e.medium, e.high), (3, 5, 9));
    // The history window drops the oldest block.
    est.record_block(vec![100, 100]);
    let e2 = est.estimate(&pool);
    assert_eq!((e2.low, e2.medium, e2.high), (9, 100, 100));
}

#[test]
fn ban_manager_bans_at_threshold_and_expires() {
    let mut bans = BanManager::new();
    assert!(!bans.is_banned("peer", 0));
    // Ninety-nine points is not enough.
    assert!(!bans.add_score("peer", 99, 10));
    assert!(!bans.is_banned("peer", 10));
    // The decayed 98 plus 2 reaches the threshold of 100.
    assert!(bans.add_score("peer", 2, 11));
    assert!(bans.is_banned("peer", 12));
    assert!(bans.is_banned("peer", 11 + 3599));
    // The ban lapses after an hour and the score resets.
    assert!(!bans.is_banned("peer", 11 + 3600));
    assert!(!bans.add_score("peer", 99, 20));
}

#[test]
fn rate_limiter_caps_messages_per_window() {
    let mut rate = RateLimiter::new();
    for _ in 0..50 {
        assert!(rate.allow("peer", 100));
    }
    assert!(!rate.allow("peer", 100));
    // A fresh window opens once more than a second has passed.
    assert!(rate.allow("peer", 102));
    // Another peer is counted separately.
    assert!(rate.allow("other", 100));
}

#[test]
fn orphan_block_pool_promotes_when_parent_arrives() {
    let chain = ChainState::load_or_init(genesis_block(), Vec::new()).unwrap();
    let tip = chain.tip.clone();
    let mut pool = OrphanBlockPool::new();
    let child = mine_block(&tip, 1, vec![1u8; 32], 0x1f00ffff, 50_000_000).unwrap();
    let stranger = mine_block(&vec![9u8; 32], 1, vec![2u8; 32], 0x1f00ffff, 50_000_000).unwrap();
    pool.add(child.clone(), 1000);
    pool.add(stranger, 1000);
    // The child's parent is known; the stranger stays pooled.
    let promoted = pool.try_promote(&chain, 1001);
    assert_eq!(promoted.len(), 1);
    assert_eq!(promoted[0].header.prev_hash, tip);
    assert_eq!(pool.blocks.len(), 1);
    // The stranger expires after its time to live.
    let promoted = pool.try_promote(&chain, 1000 + 601);
    assert_eq!(promoted.len(), 0);
    assert_eq!(pool.blocks.len(), 0);
}

#[test]
fn orphan_tx_pool_promotes_when_inputs_resolve() {
    let mut pool = OrphanTxPool::new();
    let ready = simple_tx(vec![1u8; 32], 0, 10);
    let waiting = simple_tx(vec![2u8; 32], 0, 10);
    pool.add(ready.clone(), 500);
    pool.add(waiting, 500);
    // Adding the same transaction twice changes nothing.
    pool.add(ready.clone(), 700);
    assert_eq!(pool.txs.len(), 2);
    let ledger = ledger_with(&[(vec![1u8; 32], 0, 100)]);
    let promoted = pool.try_promote(&ledger, 501);
    assert_eq!(promoted.len(), 1);
    assert_eq!(txid(&promoted[0]), txid(&ready));
    assert_eq!(pool.txs.len(), 1);
}

#[test]
fn node_config_defaults() {
    let cfg = NodeConfig::default();
    assert_eq!(cfg.bind_addr, "0.0.0.0:8333");
    assert!(cfg.peers.is_empty());
}

#[test]
fn config_load_copies_the_command_line() {
    let cli = egg_node::cli::Cli {
        command: egg_node::cli::Command::Start {
            network: String::from("testnet"),
            datadir: String::from("/tmp/data"),
            p2p_port: 1111,
            rpc_port: 2222,
            role: String::from("full"),
        },
    };
    let cfg = egg_node::config::load(&cli);
    assert_eq!(cfg.network, "testnet");
    assert_eq!(cfg.datadir, "/tmp/data");
    assert_eq!(cfg.p2p_port, 1111);
    assert_eq!(cfg.rpc_port, 2222);
    assert_eq!(cfg.role, "full");
}
