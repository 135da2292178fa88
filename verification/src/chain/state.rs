//! The chain state machine: block acceptance, the UTXO ledger, fork choice
//! by total work, and reorganization via undo logs. The central invariant,
//! kept by every operation, is that the ledger always equals the replay of
//! the canonical chain from genesis to the tip.

use vstd::prelude::*;
use crate::chain::block::{Block, BlockView};
use crate::chain::hash::{hash_header, hash_of_header};
use crate::chain::sign::ecdsa_valid;
use crate::chain::tx::{TxView, is_coinbase_tx};
use crate::chain::txid::{txid, txid_of, sighash, sighash_of};
use crate::chain::undo::{BlockUndo, BlockUndoView, utxo_pairs, utxo_list_map};
use crate::chain::utxo::{UTXO, UtxoView, UtxoMap, utxo_key, utxo_key_of, make_utxo_key,
    clone_utxo_map, lemma_utxo_key_injective};
use crate::chain::validation::{genesis_ok, validate_genesis};
use crate::digest::{sha256, sha256_of};
use crate::encode::{zero_hash, make_zero_hash, clone_bytes, bytes_eq};
use crate::keyed_map::{KeyedMap, distinct_keys, lemma_map_of_dom, lemma_map_of_index};
use crate::pow::verify::{verify_pow, pow_ok};
use crate::pow::work::work_of_bits;
use crate::pow::work::work_from_bits;

verus! {

// ---------------------------------------------------------------------------
// Blocks as stored: the block, its position, and its undo log.
// ---------------------------------------------------------------------------
pub struct BlockMeta {
    pub block: Block,
    pub parent: Vec<u8>,
    pub height: u64,
    pub total_work: u128,
    pub undo: BlockUndo,
}

#[verifier::ext_equal]
pub struct BlockMetaView {
    pub block: BlockView,
    pub parent: Seq<u8>,
    pub height: u64,
    pub total_work: u128,
    pub undo: BlockUndoView,
}

impl View for BlockMeta {
    type V = BlockMetaView;

    open spec fn view(&self) -> BlockMetaView {
        BlockMetaView {
            block: self.block@,
            parent: self.parent@,
            height: self.height,
            total_work: self.total_work,
            undo: self.undo@,
        }
    }
}

pub type BlockMap = KeyedMap<BlockMeta>;

/// The ledger as a mathematical map from output reference keys to records.
pub type Ledger = Map<Seq<u8>, UtxoView>;

// ---------------------------------------------------------------------------
// Input and output references of a block.
// ---------------------------------------------------------------------------
/// `(t, i)` ranges over the inputs of the non-coinbase transactions.
pub open spec fn is_input_idx(b: BlockView, t: int, i: int) -> bool {
    1 <= t < b.transactions.len() && 0 <= i < b.transactions[t].inputs.len()
}

pub open spec fn in_key(b: BlockView, t: int, i: int) -> Seq<u8> {
    utxo_key(b.transactions[t].inputs[i].prev_txid, b.transactions[t].inputs[i].vout)
}

/// All keys the block's non-coinbase inputs consume.
pub open spec fn in_key_set(b: BlockView) -> Set<Seq<u8>> {
    Set::new(|k: Seq<u8>| exists|t: int, i: int| is_input_idx(b, t, i) && in_key(b, t, i) == k)
}

/// `(t, i)` ranges over the outputs of every transaction, coinbase included.
pub open spec fn is_output_idx(b: BlockView, t: int, i: int) -> bool {
    0 <= t < b.transactions.len() && 0 <= i < b.transactions[t].outputs.len()
}

pub open spec fn out_key(b: BlockView, t: int, i: int) -> Seq<u8> {
    utxo_key(txid_of(b.transactions[t]), i as u32)
}

/// The record an output turns into once the block sits at height `h`.
pub open spec fn out_record(b: BlockView, h: u64, t: int, i: int) -> UtxoView {
    UtxoView {
        txid: txid_of(b.transactions[t]),
        vout: i as u32,
        value: b.transactions[t].outputs[i].value,
        address: b.transactions[t].outputs[i].to_address,
        height: h,
    }
}

/// The records one transaction creates, in output order.
pub open spec fn created_list_tx(b: BlockView, h: u64, t: int) -> Seq<UtxoView> {
    Seq::new(b.transactions[t].outputs.len(), |i: int| out_record(b, h, t, i))
}

/// The records the first `t` transactions create, in block order.
pub open spec fn created_upto(b: BlockView, h: u64, t: int) -> Seq<UtxoView>
    decreases t,
{
    if t <= 0 {
        Seq::empty()
    } else {
        created_upto(b, h, t - 1) + created_list_tx(b, h, t - 1)
    }
}

/// Every record the block creates, coinbase outputs included.
pub open spec fn created_list(b: BlockView, h: u64) -> Seq<UtxoView> {
    created_upto(b, h, b.transactions.len() as int)
}

/// The records one transaction's inputs consume, as the ledger `u` holds
/// them.
pub open spec fn spent_list_tx(u: Ledger, b: BlockView, t: int) -> Seq<UtxoView> {
    Seq::new(b.transactions[t].inputs.len(), |i: int| u[in_key(b, t, i)])
}

pub open spec fn spent_upto(u: Ledger, b: BlockView, t: int) -> Seq<UtxoView>
    decreases t,
{
    if t <= 1 {
        Seq::empty()
    } else {
        spent_upto(u, b, t - 1) + spent_list_tx(u, b, t - 1)
    }
}

/// Every record the block's non-coinbase inputs consume, in block order.
pub open spec fn spent_list(u: Ledger, b: BlockView) -> Seq<UtxoView> {
    spent_upto(u, b, b.transactions.len() as int)
}

// ---------------------------------------------------------------------------
// Block validity against a ledger.
// ---------------------------------------------------------------------------
/// At least one transaction, the first a coinbase, and no other.
pub open spec fn shape_ok(b: BlockView) -> bool {
    &&& b.transactions.len() >= 1
    &&& is_coinbase_tx(b.transactions[0])
    &&& forall|t: int| 1 <= t < b.transactions.len() ==> !is_coinbase_tx(#[trigger] b.transactions[t])
}

pub open spec fn inputs_present(u: Ledger, b: BlockView) -> bool {
    forall|t: int, i: int| is_input_idx(b, t, i) ==> u.dom().contains(#[trigger] in_key(b, t, i))
}

pub open spec fn inputs_distinct(b: BlockView) -> bool {
    forall|t1: int, i1: int, t2: int, i2: int|
        is_input_idx(b, t1, i1) && is_input_idx(b, t2, i2) && (t1 != t2 || i1 != i2) ==> #[trigger] in_key(
            b,
            t1,
            i1,
        ) != #[trigger] in_key(b, t2, i2)
}

pub open spec fn outputs_distinct(b: BlockView) -> bool {
    forall|t1: int, i1: int, t2: int, i2: int|
        is_output_idx(b, t1, i1) && is_output_idx(b, t2, i2) && (t1 != t2 || i1 != i2)
            ==> #[trigger] out_key(b, t1, i1) != #[trigger] out_key(b, t2, i2)
}

/// No created output may collide with a key the ledger already holds:
/// without this, rolling the block back could not restore the ledger.
pub open spec fn outputs_fresh(u: Ledger, b: BlockView) -> bool {
    forall|t: int, i: int| is_output_idx(b, t, i) ==> !u.dom().contains(#[trigger] out_key(b, t, i))
}

pub open spec fn in_sum_upto(u: Ledger, b: BlockView, t: int, i: int) -> int
    decreases i,
{
    if i <= 0 {
        0
    } else {
        in_sum_upto(u, b, t, i - 1) + u[in_key(b, t, i - 1)].value
    }
}

pub open spec fn tx_in_sum(u: Ledger, b: BlockView, t: int) -> int {
    in_sum_upto(u, b, t, b.transactions[t].inputs.len() as int)
}

pub open spec fn out_sum_upto(b: BlockView, t: int, i: int) -> int
    decreases i,
{
    if i <= 0 {
        0
    } else {
        out_sum_upto(b, t, i - 1) + b.transactions[t].outputs[i - 1].value
    }
}

pub open spec fn tx_out_sum(b: BlockView, t: int) -> int {
    out_sum_upto(b, t, b.transactions[t].outputs.len() as int)
}

/// Each non-coinbase transaction pays out at most what it consumes; the
/// difference is its fee.
pub open spec fn balances_ok(u: Ledger, b: BlockView) -> bool {
    forall|t: int|
        1 <= t < b.transactions.len() ==> #[trigger] tx_in_sum(u, b, t) >= tx_out_sum(b, t)
}

/// Each non-coinbase input's public key hashes to the address of the
/// record it spends, and its signature verifies over the transaction's
/// signing hash.
pub open spec fn sigs_ok(u: Ledger, b: BlockView) -> bool {
    forall|t: int, i: int|
        is_input_idx(b, t, i) ==> {
            &&& sha256_of(b.transactions[t].inputs[i].pubkey) == u[#[trigger] in_key(b, t, i)].address
            &&& ecdsa_valid(
                sighash_of(b.transactions[t]),
                b.transactions[t].inputs[i].signature,
                b.transactions[t].inputs[i].pubkey,
            )
        }
}

/// Every transaction's output count fits the 32-bit output index of an
/// output reference; outputs beyond that could never be spent.
pub open spec fn outputs_bounded(b: BlockView) -> bool {
    forall|t: int|
        0 <= t < b.transactions.len() ==> (#[trigger] b.transactions[t].outputs.len())
            <= 0x1_0000_0000
}

/// Full transaction-level validity of a block against the ledger of its
/// parent.
pub open spec fn txs_valid(u: Ledger, b: BlockView) -> bool {
    &&& outputs_bounded(b)
    &&& inputs_present(u, b)
    &&& inputs_distinct(b)
    &&& outputs_distinct(b)
    &&& outputs_fresh(u, b)
    &&& balances_ok(u, b)
    &&& sigs_ok(u, b)
}

// ---------------------------------------------------------------------------
// The effect of a block on the ledger, and the undo log that inverts it.
// ---------------------------------------------------------------------------
/// Applying a block: its inputs' keys leave the ledger, its created
/// records enter it.
pub open spec fn apply_block(u: Ledger, b: BlockView, h: u64) -> Ledger {
    u.remove_keys(in_key_set(b)).union_prefer_right(utxo_list_map(created_list(b, h)))
}

/// The set of keys of a record list.
pub open spec fn keys_of_list(s: Seq<UtxoView>) -> Set<Seq<u8>> {
    Set::new(|k: Seq<u8>| exists|p: int| 0 <= p < s.len() && utxo_key_of(#[trigger] s[p]) == k)
}

/// What a correct undo log of a block holds, relative to the parent
/// ledger `u` the block was applied to.
pub open spec fn undo_ok(u: Ledger, b: BlockView, h: u64, undo: BlockUndoView) -> bool {
    &&& undo.created == created_list(b, h)
    &&& distinct_keys(utxo_pairs(undo.created))
    &&& forall|p: int|
        0 <= p < undo.created.len() ==> !u.dom().contains(utxo_key_of(#[trigger] undo.created[p]))
    &&& undo.spent == spent_list(u, b)
    &&& distinct_keys(utxo_pairs(undo.spent))
    &&& forall|p: int|
        0 <= p < undo.spent.len() ==> u.dom().contains(utxo_key_of(#[trigger] undo.spent[p]))
            && u[utxo_key_of(undo.spent[p])] == undo.spent[p]
    &&& keys_of_list(undo.spent) == in_key_set(b)
}

/// Every record sits under the key its own reference denotes.
pub open spec fn ledger_keyed(u: Ledger) -> bool {
    forall|k: Seq<u8>| u.dom().contains(k) ==> utxo_key_of(#[trigger] u[k]) == k
}

// ---------------------------------------------------------------------------
// Replaying a chain from genesis.
// ---------------------------------------------------------------------------
pub open spec fn sat_add(a: u128, b: u128) -> u128 {
    if a + b > u128::MAX {
        u128::MAX
    } else {
        (a + b) as u128
    }
}

/// The ledger obtained by replaying the chain from genesis to `h`.
pub open spec fn replay(m: Map<Seq<u8>, BlockMetaView>, h: Seq<u8>) -> Ledger
    decreases (if m.dom().contains(h) {
        m[h].height as int
    } else {
        0
    }),
{
    if !m.dom().contains(h) {
        Map::empty()
    } else {
        let meta = m[h];
        if meta.height == 0 {
            apply_block(Map::empty(), meta.block, 0)
        } else if m.dom().contains(meta.parent) && m[meta.parent].height < meta.height {
            apply_block(replay(m, meta.parent), meta.block, meta.height)
        } else {
            Map::empty()
        }
    }
}

// ---------------------------------------------------------------------------
// Well-formedness of the block map and the whole state.
// ---------------------------------------------------------------------------
/// What holds of one stored block. Genesis carries height zero, zero
/// work and the zero parent; every other block hangs off a stored parent
/// one height below, was fully validated against that parent's replayed
/// ledger, and carries the matching undo log.
pub open spec fn meta_ok(m: Map<Seq<u8>, BlockMetaView>, g: Seq<u8>, h: Seq<u8>) -> bool {
    let meta = m[h];
    &&& h == hash_of_header(meta.block.header)
    &&& (h == g <==> meta.height == 0)
    &&& (h != g ==> {
        &&& m.dom().contains(meta.parent)
        &&& meta.parent == meta.block.header.prev_hash
        &&& meta.parent != h
        &&& m[meta.parent].height + 1 == meta.height
        &&& meta.total_work == sat_add(
            m[meta.parent].total_work,
            work_of_bits(meta.block.header.bits),
        )
        &&& shape_ok(meta.block)
        &&& pow_ok(meta.block.header)
        &&& txs_valid(replay(m, meta.parent), meta.block)
        &&& undo_ok(replay(m, meta.parent), meta.block, meta.height, meta.undo)
    })
}

pub open spec fn blocks_wf(m: Map<Seq<u8>, BlockMetaView>, g: Seq<u8>) -> bool {
    &&& m.dom().contains(g)
    &&& m[g].height == 0
    &&& m[g].total_work == 0
    &&& m[g].parent == zero_hash()
    &&& genesis_ok(m[g].block)
    &&& undo_ok(Map::empty(), m[g].block, 0, m[g].undo)
    &&& forall|h: Seq<u8>| m.dom().contains(h) ==> #[trigger] meta_ok(m, g, h)
}

/// Fork choice: strictly more total work wins; equal work is broken by
/// greater height.
pub open spec fn better(c: BlockMetaView, t: BlockMetaView) -> bool {
    ||| c.total_work > t.total_work
    ||| (c.total_work == t.total_work && c.height > t.height)
}

pub struct ChainState {
    /// Every accepted block, keyed by its hash; append-only.
    pub blocks: BlockMap,
    /// The hash of the block with the most cumulative work.
    pub tip: Vec<u8>,
    /// The live UTXO ledger of the chain ending at `tip`.
    pub utxos: UtxoMap,
    /// The hash of the genesis block.
    pub genesis: Vec<u8>,
}

impl ChainState {
    /// The state invariant. Its last clause is the reorg-correctness
    /// property: the ledger always equals the replay of genesis to tip.
    pub open spec fn wf(self) -> bool {
        &&& self.blocks.wf()
        &&& self.utxos.wf()
        &&& blocks_wf(self.blocks@, self.genesis@)
        &&& self.blocks@.dom().contains(self.tip@)
        &&& self.utxos@ == replay(self.blocks@, self.tip@)
    }

    /// Exactly when a candidate block is accepted: valid proof of work, a
    /// well-shaped coinbase, a known parent below the height limit, a hash
    /// not seen before, and transactions valid against the parent's
    /// replayed ledger.
    pub open spec fn spec_add_ok(self, b: BlockView) -> bool {
        &&& pow_ok(b.header)
        &&& shape_ok(b)
        &&& self.blocks@.dom().contains(b.header.prev_hash)
        &&& self.blocks@[b.header.prev_hash].height < u64::MAX
        &&& !self.blocks@.dom().contains(hash_of_header(b.header))
        &&& txs_valid(replay(self.blocks@, b.header.prev_hash), b)
    }

    /// The stored form of an accepted block.
    pub open spec fn new_meta(self, b: BlockView) -> BlockMetaView {
        let p = self.blocks@[b.header.prev_hash];
        let h = (p.height + 1) as u64;
        BlockMetaView {
            block: b,
            parent: b.header.prev_hash,
            height: h,
            total_work: sat_add(p.total_work, work_of_bits(b.header.bits)),
            undo: BlockUndoView {
                spent: spent_list(replay(self.blocks@, b.header.prev_hash), b),
                created: created_list(b, h),
            },
        }
    }

    pub fn has_block(&self, hash: &Vec<u8>) -> (r: bool)
        ensures
            r == self.blocks@.dom().contains(hash@),
    {
        self.blocks.contains_key(hash)
    }
}

// ---------------------------------------------------------------------------
// Lemmas about record lists read as maps.
// ---------------------------------------------------------------------------
/// The map of a record list covers exactly the keys of its records.
pub proof fn lemma_list_map_dom(s: Seq<UtxoView>)
    ensures
        utxo_list_map(s).dom() == keys_of_list(s),
{
    assert forall|k: Seq<u8>| utxo_list_map(s).dom().contains(k) implies keys_of_list(s).contains(
        k,
    ) by {
        lemma_map_of_dom(utxo_pairs(s), k);
        let p = choose|p: int| 0 <= p < utxo_pairs(s).len() && utxo_pairs(s)[p].0 == k;
        assert(utxo_key_of(s[p]) == k);
    }
    assert forall|k: Seq<u8>| keys_of_list(s).contains(k) implies utxo_list_map(s).dom().contains(
        k,
    ) by {
        let p = choose|p: int| 0 <= p < s.len() && utxo_key_of(s[p]) == k;
        assert(utxo_pairs(s)[p].0 == k);
        lemma_map_of_dom(utxo_pairs(s), k);
    }
    assert(utxo_list_map(s).dom() =~= keys_of_list(s));
}

/// With pairwise distinct keys, the map of a record list holds each
/// record under its own key.
pub proof fn lemma_list_map_at(s: Seq<UtxoView>, p: int)
    requires
        distinct_keys(utxo_pairs(s)),
        0 <= p < s.len(),
    ensures
        utxo_list_map(s).dom().contains(utxo_key_of(s[p])),
        utxo_list_map(s)[utxo_key_of(s[p])] == s[p],
{
    assert(utxo_pairs(s)[p] == (utxo_key_of(s[p]), s[p]));
    lemma_map_of_index(utxo_pairs(s), p);
}

/// Rolling a block back restores the ledger it was applied to: removing
/// every created key and re-inserting every spent record inverts
/// `apply_block` exactly.
pub proof fn lemma_revert_inverts(u: Ledger, b: BlockView, h: u64, undo: BlockUndoView)
    requires
        undo_ok(u, b, h, undo),
    ensures
        apply_block(u, b, h).remove_keys(keys_of_list(undo.created)).union_prefer_right(
            utxo_list_map(undo.spent),
        ) == u,
{
    let applied = apply_block(u, b, h);
    let kc = keys_of_list(undo.created);
    let sm = utxo_list_map(undo.spent);
    let ik = in_key_set(b);
    let c = utxo_list_map(created_list(b, h));
    lemma_list_map_dom(undo.created);
    lemma_list_map_dom(undo.spent);
    assert forall|k: Seq<u8>| ik.contains(k) implies u.dom().contains(k) && sm[k] == u[k] by {
        let p = choose|p: int| 0 <= p < undo.spent.len() && utxo_key_of(undo.spent[p]) == k;
        lemma_list_map_at(undo.spent, p);
    }
    assert forall|k: Seq<u8>| kc.contains(k) implies !u.dom().contains(k) by {
        let p = choose|p: int| 0 <= p < undo.created.len() && utxo_key_of(undo.created[p]) == k;
    }
    assert(applied.remove_keys(kc).union_prefer_right(sm) =~= u);
}

/// Applying a block keeps every record under its own key.
pub proof fn lemma_apply_keyed(u: Ledger, b: BlockView, h: u64)
    requires
        ledger_keyed(u),
        distinct_keys(utxo_pairs(created_list(b, h))),
    ensures
        ledger_keyed(apply_block(u, b, h)),
{
    let applied = apply_block(u, b, h);
    let c = utxo_list_map(created_list(b, h));
    lemma_list_map_dom(created_list(b, h));
    assert forall|k: Seq<u8>| applied.dom().contains(k) implies utxo_key_of(#[trigger] applied[k])
        == k by {
        if c.dom().contains(k) {
            let p = choose|p: int|
                0 <= p < created_list(b, h).len() && utxo_key_of(created_list(b, h)[p]) == k;
            lemma_list_map_at(created_list(b, h), p);
        }
    }
}

// ---------------------------------------------------------------------------
// Lemmas about replaying chains.
// ---------------------------------------------------------------------------
/// Replayed ledgers hold every record under its own key.
pub proof fn lemma_replay_keyed(m: Map<Seq<u8>, BlockMetaView>, g: Seq<u8>, h: Seq<u8>)
    requires
        blocks_wf(m, g),
    ensures
        ledger_keyed(replay(m, h)),
    decreases (if m.dom().contains(h) {
        m[h].height as int
    } else {
        0
    }),
{
    if m.dom().contains(h) {
        let meta = m[h];
        assert(meta_ok(m, g, h));
        if meta.height == 0 {
            assert(h == g);
            lemma_apply_keyed(Map::empty(), meta.block, 0);
        } else if m.dom().contains(meta.parent) && m[meta.parent].height < meta.height {
            lemma_replay_keyed(m, g, meta.parent);
            lemma_apply_keyed(replay(m, meta.parent), meta.block, meta.height);
        }
    }
}

/// Inserting a fresh block leaves the replay of every stored block
/// untouched: replay only walks parent links, and no stored block can
/// reach a hash that was not stored.
pub proof fn lemma_replay_frame(
    m: Map<Seq<u8>, BlockMetaView>,
    g: Seq<u8>,
    hnew: Seq<u8>,
    meta: BlockMetaView,
    h: Seq<u8>,
)
    requires
        blocks_wf(m, g),
        !m.dom().contains(hnew),
        m.dom().contains(h),
    ensures
        replay(m.insert(hnew, meta), h) == replay(m, h),
    decreases m[h].height,
{
    let m2 = m.insert(hnew, meta);
    assert(meta_ok(m, g, h));
    let cur = m[h];
    assert(m2[h] == cur);
    if cur.height == 0 {
    } else {
        assert(m.dom().contains(cur.parent));
        assert(m[cur.parent].height < cur.height);
        lemma_replay_frame(m, g, hnew, meta, cur.parent);
    }
}

/// Inserting a fully validated block on a stored parent keeps the block
/// map well formed, changes no stored replay, and gives the new block the
/// replay obtained by applying it to its parent's ledger.
pub proof fn lemma_insert_block(
    m: Map<Seq<u8>, BlockMetaView>,
    g: Seq<u8>,
    hnew: Seq<u8>,
    meta: BlockMetaView,
)
    requires
        blocks_wf(m, g),
        !m.dom().contains(hnew),
        hnew == hash_of_header(meta.block.header),
        meta.parent == meta.block.header.prev_hash,
        m.dom().contains(meta.parent),
        m[meta.parent].height < u64::MAX,
        meta.height == m[meta.parent].height + 1,
        meta.total_work == sat_add(m[meta.parent].total_work, work_of_bits(meta.block.header.bits)),
        shape_ok(meta.block),
        pow_ok(meta.block.header),
        txs_valid(replay(m, meta.parent), meta.block),
        undo_ok(replay(m, meta.parent), meta.block, meta.height, meta.undo),
    ensures
        blocks_wf(m.insert(hnew, meta), g),
        forall|h: Seq<u8>|
            m.dom().contains(h) ==> replay(m.insert(hnew, meta), h) == #[trigger] replay(m, h),
        replay(m.insert(hnew, meta), hnew) == apply_block(
            replay(m, meta.parent),
            meta.block,
            meta.height,
        ),
{
    let m2 = m.insert(hnew, meta);
    assert forall|h: Seq<u8>| m.dom().contains(h) implies replay(m2, h) == #[trigger] replay(
        m,
        h,
    ) by {
        lemma_replay_frame(m, g, hnew, meta, h);
    }
    lemma_replay_frame(m, g, hnew, meta, meta.parent);
    assert(replay(m2, hnew) == apply_block(replay(m2, meta.parent), meta.block, meta.height));
    assert forall|h: Seq<u8>| m2.dom().contains(h) implies #[trigger] meta_ok(m2, g, h) by {
        if h == hnew {
            assert(replay(m2, meta.parent) == replay(m, meta.parent));
        } else {
            assert(meta_ok(m, g, h));
            let cur = m[h];
            if h != g {
                lemma_replay_frame(m, g, hnew, meta, cur.parent);
            }
        }
    }
}

pub proof fn lemma_keys_push(s: Seq<UtxoView>, r: UtxoView)
    ensures
        keys_of_list(s.push(r)) == keys_of_list(s).insert(utxo_key_of(r)),
{
    let s2 = s.push(r);
    assert forall|k: Seq<u8>| keys_of_list(s2).contains(k) implies keys_of_list(s).insert(
        utxo_key_of(r),
    ).contains(k) by {
        let p = choose|p: int| 0 <= p < s2.len() && utxo_key_of(s2[p]) == k;
        if p < s.len() {
            assert(utxo_key_of(s[p]) == k);
        }
    }
    assert forall|k: Seq<u8>| keys_of_list(s).insert(utxo_key_of(r)).contains(k) implies
        keys_of_list(s2).contains(k) by {
        if keys_of_list(s).contains(k) {
            let p = choose|p: int| 0 <= p < s.len() && utxo_key_of(s[p]) == k;
            assert(utxo_key_of(s2[p]) == k);
        } else {
            assert(utxo_key_of(s2[s.len() as int]) == k);
        }
    }
    assert(keys_of_list(s.push(r)) =~= keys_of_list(s).insert(utxo_key_of(r)));
}

pub proof fn lemma_distinct_push(s: Seq<UtxoView>, r: UtxoView)
    requires
        distinct_keys(utxo_pairs(s)),
        !keys_of_list(s).contains(utxo_key_of(r)),
    ensures
        distinct_keys(utxo_pairs(s.push(r))),
{
    let p2 = utxo_pairs(s.push(r));
    assert(p2.drop_last() =~= utxo_pairs(s));
    assert(p2.last() == (utxo_key_of(r), r));
    assert forall|a: int, c: int| 0 <= a < c < p2.len() implies p2[a].0 != p2[c].0 by {
        assert(p2[a] == utxo_pairs(s)[a]);
        if c == s.len() {
            assert(utxo_pairs(s)[a].0 == utxo_key_of(s[a]));
            assert(keys_of_list(s).contains(utxo_key_of(s[a])));
        } else {
            assert(p2[c] == utxo_pairs(s)[c]);
        }
    }
}

/// Applies a block's recorded effect to the ledger: its spent keys
/// leave, its created records enter.
pub fn apply_undo(utxos: &mut UtxoMap, undo: &BlockUndo)
    requires
        old(utxos).wf(),
    ensures
        final(utxos).wf(),
        final(utxos)@ == old(utxos)@.remove_keys(keys_of_list(undo@.spent)).union_prefer_right(
            utxo_list_map(undo@.created),
        ),
{
    let ghost u0 = utxos@;
    let n = undo.spent.len();
    let mut i: usize = 0;
    proof {
        assert(undo@.spent.take(0) =~= Seq::<UtxoView>::empty());
        assert(keys_of_list(Seq::<UtxoView>::empty()) =~= Set::<Seq<u8>>::empty());
        assert(utxos@ =~= u0.remove_keys(keys_of_list(undo@.spent.take(0))));
    }
    while i < n
        invariant
            0 <= i <= n,
            n == undo@.spent.len(),
            utxos.wf(),
            utxos@ == u0.remove_keys(keys_of_list(undo@.spent.take(i as int))),
        decreases n - i,
    {
        let key = make_utxo_key(&undo.spent[i].txid, undo.spent[i].vout);
        proof {
            assert(undo@.spent[i as int] == undo.spent@[i as int]@);
            assert(key@ == utxo_key_of(undo@.spent[i as int]));
        }
        utxos.remove(&key);
        proof {
            assert(undo@.spent.take(i + 1) =~= undo@.spent.take(i as int).push(
                undo@.spent[i as int],
            ));
            lemma_keys_push(undo@.spent.take(i as int), undo@.spent[i as int]);
            assert(utxos@ =~= u0.remove_keys(keys_of_list(undo@.spent.take(i + 1))));
        }
        i = i + 1;
    }
    proof {
        assert(undo@.spent.take(n as int) =~= undo@.spent);
    }
    let ghost base = u0.remove_keys(keys_of_list(undo@.spent));
    let m = undo.created.len();
    let mut j: usize = 0;
    proof {
        assert(undo@.created.take(0) =~= Seq::<UtxoView>::empty());
        assert(utxo_pairs(Seq::<UtxoView>::empty()) =~= Seq::<(Seq<u8>, UtxoView)>::empty());
        assert(utxos@ =~= base.union_prefer_right(utxo_list_map(undo@.created.take(0))));
    }
    while j < m
        invariant
            0 <= j <= m,
            m == undo@.created.len(),
            utxos.wf(),
            utxos@ == base.union_prefer_right(utxo_list_map(undo@.created.take(j as int))),
        decreases m - j,
    {
        let rec = undo.created[j].clone();
        let key = make_utxo_key(&rec.txid, rec.vout);
        proof {
            assert(undo@.created[j as int] == undo.created@[j as int]@);
            assert(rec@ == undo@.created[j as int]);
            assert(key@ == utxo_key_of(undo@.created[j as int]));
        }
        utxos.insert(key, rec);
        proof {
            assert(utxo_pairs(undo@.created.take(j + 1)).drop_last() =~= utxo_pairs(
                undo@.created.take(j as int),
            ));
            assert(utxo_pairs(undo@.created.take(j + 1)).last() == (
                utxo_key_of(undo@.created[j as int]),
                undo@.created[j as int],
            ));
            assert(utxos@ =~= base.union_prefer_right(utxo_list_map(undo@.created.take(j + 1))));
        }
        j = j + 1;
    }
    proof {
        assert(undo@.created.take(m as int) =~= undo@.created);
    }
}

/// Rolls a block's recorded effect back: its created keys leave, its
/// spent records return.
pub fn revert_undo(utxos: &mut UtxoMap, undo: &BlockUndo)
    requires
        old(utxos).wf(),
    ensures
        final(utxos).wf(),
        final(utxos)@ == old(utxos)@.remove_keys(keys_of_list(undo@.created)).union_prefer_right(
            utxo_list_map(undo@.spent),
        ),
{
    let ghost u0 = utxos@;
    let n = undo.created.len();
    let mut i: usize = 0;
    proof {
        assert(undo@.created.take(0) =~= Seq::<UtxoView>::empty());
        assert(keys_of_list(Seq::<UtxoView>::empty()) =~= Set::<Seq<u8>>::empty());
        assert(utxos@ =~= u0.remove_keys(keys_of_list(undo@.created.take(0))));
    }
    while i < n
        invariant
            0 <= i <= n,
            n == undo@.created.len(),
            utxos.wf(),
            utxos@ == u0.remove_keys(keys_of_list(undo@.created.take(i as int))),
        decreases n - i,
    {
        let key = make_utxo_key(&undo.created[i].txid, undo.created[i].vout);
        proof {
            assert(undo@.created[i as int] == undo.created@[i as int]@);
            assert(key@ == utxo_key_of(undo@.created[i as int]));
        }
        utxos.remove(&key);
        proof {
            assert(undo@.created.take(i + 1) =~= undo@.created.take(i as int).push(
                undo@.created[i as int],
            ));
            lemma_keys_push(undo@.created.take(i as int), undo@.created[i as int]);
            assert(utxos@ =~= u0.remove_keys(keys_of_list(undo@.created.take(i + 1))));
        }
        i = i + 1;
    }
    proof {
        assert(undo@.created.take(n as int) =~= undo@.created);
    }
    let ghost base = u0.remove_keys(keys_of_list(undo@.created));
    let m = undo.spent.len();
    let mut j: usize = 0;
    proof {
        assert(undo@.spent.take(0) =~= Seq::<UtxoView>::empty());
        assert(utxo_pairs(Seq::<UtxoView>::empty()) =~= Seq::<(Seq<u8>, UtxoView)>::empty());
        assert(utxos@ =~= base.union_prefer_right(utxo_list_map(undo@.spent.take(0))));
    }
    while j < m
        invariant
            0 <= j <= m,
            m == undo@.spent.len(),
            utxos.wf(),
            utxos@ == base.union_prefer_right(utxo_list_map(undo@.spent.take(j as int))),
        decreases m - j,
    {
        let rec = undo.spent[j].clone();
        let key = make_utxo_key(&rec.txid, rec.vout);
        proof {
            assert(undo@.spent[j as int] == undo.spent@[j as int]@);
            assert(rec@ == undo@.spent[j as int]);
            assert(key@ == utxo_key_of(undo@.spent[j as int]));
        }
        utxos.insert(key, rec);
        proof {
            assert(utxo_pairs(undo@.spent.take(j + 1)).drop_last() =~= utxo_pairs(
                undo@.spent.take(j as int),
            ));
            assert(utxo_pairs(undo@.spent.take(j + 1)).last() == (
                utxo_key_of(undo@.spent[j as int]),
                undo@.spent[j as int],
            ));
            assert(utxos@ =~= base.union_prefer_right(utxo_list_map(undo@.spent.take(j + 1))));
        }
        j = j + 1;
    }
    proof {
        assert(undo@.spent.take(m as int) =~= undo@.spent);
    }
}

// ---------------------------------------------------------------------------
// Prefix bookkeeping for the validator's sweep over a block.
// ---------------------------------------------------------------------------
pub open spec fn views(s: Seq<UTXO>) -> Seq<UtxoView> {
    s.map_values(|x: UTXO| x@)
}

pub open spec fn idx_lt(t1: int, i1: int, t2: int, i2: int) -> bool {
    t1 < t2 || (t1 == t2 && i1 < i2)
}

/// Keys of the inputs strictly before position `(t, i)`.
pub open spec fn consumed_keys(b: BlockView, t: int, i: int) -> Set<Seq<u8>> {
    Set::new(
        |k: Seq<u8>|
            exists|t1: int, i1: int|
                is_input_idx(b, t1, i1) && idx_lt(t1, i1, t, i) && in_key(b, t1, i1) == k,
    )
}

/// Keys of the outputs strictly before position `(t, i)`.
pub open spec fn out_keys_upto(b: BlockView, t: int, i: int) -> Set<Seq<u8>> {
    Set::new(
        |k: Seq<u8>|
            exists|t1: int, i1: int|
                is_output_idx(b, t1, i1) && idx_lt(t1, i1, t, i) && out_key(b, t1, i1) == k,
    )
}

proof fn lemma_consumed_step(b: BlockView, t: int, i: int)
    requires
        is_input_idx(b, t, i),
    ensures
        consumed_keys(b, t, i + 1) == consumed_keys(b, t, i).insert(in_key(b, t, i)),
{
    assert forall|k: Seq<u8>| consumed_keys(b, t, i + 1).contains(k) implies consumed_keys(
        b,
        t,
        i,
    ).insert(in_key(b, t, i)).contains(k) by {
        let (t1, i1) = choose|t1: int, i1: int|
            is_input_idx(b, t1, i1) && idx_lt(t1, i1, t, i + 1) && in_key(b, t1, i1) == k;
        if idx_lt(t1, i1, t, i) {
            assert(consumed_keys(b, t, i).contains(k));
        } else {
            assert(t1 == t && i1 == i);
        }
    }
    assert forall|k: Seq<u8>| consumed_keys(b, t, i).insert(in_key(b, t, i)).contains(k) implies
        consumed_keys(b, t, i + 1).contains(k) by {
        if consumed_keys(b, t, i).contains(k) {
            let (t1, i1) = choose|t1: int, i1: int|
                is_input_idx(b, t1, i1) && idx_lt(t1, i1, t, i) && in_key(b, t1, i1) == k;
            assert(idx_lt(t1, i1, t, i + 1));
        } else {
            assert(idx_lt(t, i, t, i + 1));
        }
    }
    assert(consumed_keys(b, t, i + 1) =~= consumed_keys(b, t, i).insert(in_key(b, t, i)));
}

proof fn lemma_consumed_tx(b: BlockView, t: int)
    requires
        0 <= t < b.transactions.len(),
    ensures
        consumed_keys(b, t + 1, 0) == consumed_keys(b, t, b.transactions[t].inputs.len() as int),
{
    let n = b.transactions[t].inputs.len() as int;
    assert forall|k: Seq<u8>| consumed_keys(b, t + 1, 0).contains(k) implies consumed_keys(
        b,
        t,
        n,
    ).contains(k) by {
        let (t1, i1) = choose|t1: int, i1: int|
            is_input_idx(b, t1, i1) && idx_lt(t1, i1, t + 1, 0) && in_key(b, t1, i1) == k;
        assert(idx_lt(t1, i1, t, n));
    }
    assert forall|k: Seq<u8>| consumed_keys(b, t, n).contains(k) implies consumed_keys(
        b,
        t + 1,
        0,
    ).contains(k) by {
        let (t1, i1) = choose|t1: int, i1: int|
            is_input_idx(b, t1, i1) && idx_lt(t1, i1, t, n) && in_key(b, t1, i1) == k;
        assert(idx_lt(t1, i1, t + 1, 0));
    }
    assert(consumed_keys(b, t + 1, 0) =~= consumed_keys(b, t, n));
}

proof fn lemma_consumed_full(b: BlockView)
    ensures
        consumed_keys(b, b.transactions.len() as int, 0) == in_key_set(b),
{
    let len = b.transactions.len() as int;
    assert forall|k: Seq<u8>| in_key_set(b).contains(k) implies consumed_keys(b, len, 0).contains(
        k,
    ) by {
        let (t1, i1) = choose|t1: int, i1: int|
            is_input_idx(b, t1, i1) && in_key(b, t1, i1) == k;
        assert(idx_lt(t1, i1, len, 0));
    }
    assert(consumed_keys(b, len, 0) =~= in_key_set(b));
}

proof fn lemma_outkeys_step(b: BlockView, t: int, i: int)
    requires
        is_output_idx(b, t, i),
    ensures
        out_keys_upto(b, t, i + 1) == out_keys_upto(b, t, i).insert(out_key(b, t, i)),
{
    assert forall|k: Seq<u8>| out_keys_upto(b, t, i + 1).contains(k) implies out_keys_upto(
        b,
        t,
        i,
    ).insert(out_key(b, t, i)).contains(k) by {
        let (t1, i1) = choose|t1: int, i1: int|
            is_output_idx(b, t1, i1) && idx_lt(t1, i1, t, i + 1) && out_key(b, t1, i1) == k;
        if idx_lt(t1, i1, t, i) {
            assert(out_keys_upto(b, t, i).contains(k));
        } else {
            assert(t1 == t && i1 == i);
        }
    }
    assert forall|k: Seq<u8>| out_keys_upto(b, t, i).insert(out_key(b, t, i)).contains(k) implies
        out_keys_upto(b, t, i + 1).contains(k) by {
        if out_keys_upto(b, t, i).contains(k) {
            let (t1, i1) = choose|t1: int, i1: int|
                is_output_idx(b, t1, i1) && idx_lt(t1, i1, t, i) && out_key(b, t1, i1) == k;
            assert(idx_lt(t1, i1, t, i + 1));
        } else {
            assert(idx_lt(t, i, t, i + 1));
        }
    }
    assert(out_keys_upto(b, t, i + 1) =~= out_keys_upto(b, t, i).insert(out_key(b, t, i)));
}

proof fn lemma_outkeys_tx(b: BlockView, t: int)
    requires
        0 <= t < b.transactions.len(),
    ensures
        out_keys_upto(b, t + 1, 0) == out_keys_upto(b, t, b.transactions[t].outputs.len() as int),
{
    let n = b.transactions[t].outputs.len() as int;
    assert forall|k: Seq<u8>| out_keys_upto(b, t + 1, 0).contains(k) implies out_keys_upto(
        b,
        t,
        n,
    ).contains(k) by {
        let (t1, i1) = choose|t1: int, i1: int|
            is_output_idx(b, t1, i1) && idx_lt(t1, i1, t + 1, 0) && out_key(b, t1, i1) == k;
        assert(idx_lt(t1, i1, t, n));
    }
    assert forall|k: Seq<u8>| out_keys_upto(b, t, n).contains(k) implies out_keys_upto(
        b,
        t + 1,
        0,
    ).contains(k) by {
        let (t1, i1) = choose|t1: int, i1: int|
            is_output_idx(b, t1, i1) && idx_lt(t1, i1, t, n) && out_key(b, t1, i1) == k;
        assert(idx_lt(t1, i1, t + 1, 0));
    }
    assert(out_keys_upto(b, t + 1, 0) =~= out_keys_upto(b, t, n));
}

/// A structurally valid genesis block is transaction-valid against the
/// empty ledger: it has no real inputs, and its coinbase outputs cannot
/// collide with anything.
pub proof fn lemma_genesis_valid(b: BlockView)
    requires
        genesis_ok(b),
    ensures
        shape_ok(b),
        txs_valid(Map::<Seq<u8>, UtxoView>::empty(), b),
{
    let u = Map::<Seq<u8>, UtxoView>::empty();
    assert forall|t1: int, i1: int, t2: int, i2: int|
        is_output_idx(b, t1, i1) && is_output_idx(b, t2, i2) && (t1 != t2 || i1 != i2) implies #[trigger] out_key(
        b,
        t1,
        i1,
    ) != #[trigger] out_key(b, t2, i2) by {
        assert(t1 == 0 && t2 == 0);
        lemma_utxo_key_injective(
            txid_of(b.transactions[0]),
            i1 as u32,
            txid_of(b.transactions[0]),
            i2 as u32,
        );
    }
}

/// Validates a block's transactions against the ledger of its parent and
/// builds the undo log in the same sweep: inputs must resolve without
/// duplication, addresses and signatures must match, values must balance,
/// and created outputs must collide with nothing. On any violation the
/// block is refused and nothing is recorded.
#[verifier::rlimit(60)]
pub fn check_block_txs(parent_utxos: &UtxoMap, block: &Block, height: u64) -> (r: Option<
    BlockUndo,
>)
    requires
        parent_utxos.wf(),
        ledger_keyed(parent_utxos@),
        shape_ok(block@),
    ensures
        match r {
            Some(undo) => txs_valid(parent_utxos@, block@) && undo_ok(
                parent_utxos@,
                block@,
                height,
                undo@,
            ),
            None => !txs_valid(parent_utxos@, block@),
        },
{
    let ghost bv = block@;
    let ghost u = parent_utxos@;
    let mut working = clone_utxo_map(parent_utxos);
    let mut seen: UtxoMap = KeyedMap::new();
    let mut spent: Vec<UTXO> = Vec::new();
    let mut created: Vec<UTXO> = Vec::new();
    let ntx = block.transactions.len();
    let mut t: usize = 0;
    proof {
        assert(consumed_keys(bv, 0, 0) =~= Set::<Seq<u8>>::empty());
        assert(out_keys_upto(bv, 0, 0) =~= Set::<Seq<u8>>::empty());
        assert(working@ =~= u.remove_keys(consumed_keys(bv, 0, 0)));
        assert(views(spent@) =~= Seq::<UtxoView>::empty());
        assert(views(created@) =~= Seq::<UtxoView>::empty());
        assert(keys_of_list(views(spent@)) =~= consumed_keys(bv, 0, 0));
        assert(keys_of_list(views(created@)) =~= Set::<Seq<u8>>::empty());
        assert(utxo_pairs(views(spent@)) =~= Seq::<(Seq<u8>, UtxoView)>::empty());
        assert(utxo_pairs(views(created@)) =~= Seq::<(Seq<u8>, UtxoView)>::empty());
    }
    while t < ntx
        invariant
            0 <= t <= ntx,
            bv == block@,
            u == parent_utxos@,
            parent_utxos.wf(),
            ledger_keyed(u),
            shape_ok(bv),
            ntx == bv.transactions.len(),
            working.wf(),
            seen.wf(),
            working@ == u.remove_keys(consumed_keys(bv, t as int, 0)),
            views(spent@) == spent_upto(u, bv, t as int),
            views(created@) == created_upto(bv, height, t as int),
            seen@.dom() == out_keys_upto(bv, t as int, 0),
            keys_of_list(views(created@)) == seen@.dom(),
            keys_of_list(views(spent@)) == consumed_keys(bv, t as int, 0),
            distinct_keys(utxo_pairs(views(created@))),
            distinct_keys(utxo_pairs(views(spent@))),
            forall|p: int|
                0 <= p < views(spent@).len() ==> u.dom().contains(
                    utxo_key_of(#[trigger] views(spent@)[p]),
                ) && u[utxo_key_of(views(spent@)[p])] == views(spent@)[p],
            forall|p: int|
                0 <= p < views(created@).len() ==> !u.dom().contains(
                    utxo_key_of(#[trigger] views(created@)[p]),
                ),
            forall|t1: int, i1: int|
                is_input_idx(bv, t1, i1) && idx_lt(t1, i1, t as int, 0) ==> u.dom().contains(
                    #[trigger] in_key(bv, t1, i1),
                ) && sha256_of(bv.transactions[t1].inputs[i1].pubkey) == u[in_key(
                    bv,
                    t1,
                    i1,
                )].address && ecdsa_valid(
                    sighash_of(bv.transactions[t1]),
                    bv.transactions[t1].inputs[i1].signature,
                    bv.transactions[t1].inputs[i1].pubkey,
                ),
            forall|t1: int|
                1 <= t1 < t ==> #[trigger] tx_in_sum(u, bv, t1) >= tx_out_sum(bv, t1),
            forall|t1: int|
                0 <= t1 < t ==> (#[trigger] bv.transactions[t1].outputs.len()) <= 0x1_0000_0000,
            forall|t1: int, i1: int, t2: int, i2: int|
                is_input_idx(bv, t1, i1) && is_input_idx(bv, t2, i2) && idx_lt(t1, i1, t as int, 0)
                    && idx_lt(t2, i2, t as int, 0) && (t1 != t2 || i1 != i2) ==> #[trigger] in_key(
                    bv,
                    t1,
                    i1,
                ) != #[trigger] in_key(bv, t2, i2),
            forall|t1: int, i1: int|
                is_output_idx(bv, t1, i1) && idx_lt(t1, i1, t as int, 0) ==> !u.dom().contains(
                    #[trigger] out_key(bv, t1, i1),
                ),
            forall|t1: int, i1: int, t2: int, i2: int|
                is_output_idx(bv, t1, i1) && is_output_idx(bv, t2, i2) && idx_lt(
                    t1,
                    i1,
                    t as int,
                    0,
                ) && idx_lt(t2, i2, t as int, 0) && (t1 != t2 || i1 != i2) ==> #[trigger] out_key(
                    bv,
                    t1,
                    i1,
                ) != #[trigger] out_key(bv, t2, i2),
        decreases ntx - t,
    {
        let tx = &block.transactions[t];
        proof {
            assert(bv.transactions[t as int] == block.transactions@[t as int]@);
        }
        let tid = txid(tx);
        let mut in_sum: u128 = 0;
        if t >= 1 {
            let shash = sighash(tx);
            let nin = tx.inputs.len();
            let mut i: usize = 0;
            proof {
                assert(spent_list_tx(u, bv, t as int).take(0) =~= Seq::<UtxoView>::empty());
                assert(views(spent@) + spent_list_tx(u, bv, t as int).take(0) =~= views(spent@));
            }
            while i < nin
                invariant
                    0 <= i <= nin,
                    1 <= t < ntx,
                    bv == block@,
                    u == parent_utxos@,
                    parent_utxos.wf(),
                    ledger_keyed(u),
                    shape_ok(bv),
                    ntx == bv.transactions.len(),
                    nin == bv.transactions[t as int].inputs.len(),
                    tx@ == bv.transactions[t as int],
                    working.wf(),
                    shash@ == sighash_of(bv.transactions[t as int]),
                    shash@.len() == 32,
                    working@ == u.remove_keys(consumed_keys(bv, t as int, i as int)),
                    views(spent@) == spent_upto(u, bv, t as int) + spent_list_tx(
                        u,
                        bv,
                        t as int,
                    ).take(i as int),
                    keys_of_list(views(spent@)) == consumed_keys(bv, t as int, i as int),
                    distinct_keys(utxo_pairs(views(spent@))),
                    forall|p: int|
                        0 <= p < views(spent@).len() ==> u.dom().contains(
                            utxo_key_of(#[trigger] views(spent@)[p]),
                        ) && u[utxo_key_of(views(spent@)[p])] == views(spent@)[p],
                    in_sum == in_sum_upto(u, bv, t as int, i as int),
                    in_sum <= (i as int) * 0xffff_ffff_ffff_ffffu64,
                    forall|t1: int, i1: int|
                        is_input_idx(bv, t1, i1) && idx_lt(t1, i1, t as int, i as int)
                            ==> u.dom().contains(#[trigger] in_key(bv, t1, i1)) && sha256_of(
                            bv.transactions[t1].inputs[i1].pubkey,
                        ) == u[in_key(bv, t1, i1)].address && ecdsa_valid(
                            sighash_of(bv.transactions[t1]),
                            bv.transactions[t1].inputs[i1].signature,
                            bv.transactions[t1].inputs[i1].pubkey,
                        ),
                    forall|t1: int|
                        1 <= t1 < t ==> #[trigger] tx_in_sum(u, bv, t1) >= tx_out_sum(bv, t1),
                    forall|t1: int, i1: int, t2: int, i2: int|
                        is_input_idx(bv, t1, i1) && is_input_idx(bv, t2, i2) && idx_lt(
                            t1,
                            i1,
                            t as int,
                            i as int,
                        ) && idx_lt(t2, i2, t as int, i as int) && (t1 != t2 || i1 != i2)
                            ==> #[trigger] in_key(bv, t1, i1) != #[trigger] in_key(bv, t2, i2),
                decreases nin - i,
            {
                let inp = &tx.inputs[i];
                let key = make_utxo_key(&inp.prev_txid, inp.vout);
                proof {
                    assert(bv.transactions[t as int].inputs[i as int] == tx.inputs@[i as int]@);
                    assert(key@ == in_key(bv, t as int, i as int));
                    assert(is_input_idx(bv, t as int, i as int));
                }
                let rec = match working.get(&key) {
                    Some(rc) => rc.clone(),
                    None => {
                        proof {
                            if u.dom().contains(key@) {
                                assert(consumed_keys(bv, t as int, i as int).contains(key@));
                                let (t1, i1) = choose|t1: int, i1: int|
                                    is_input_idx(bv, t1, i1) && idx_lt(t1, i1, t as int, i as int)
                                        && in_key(bv, t1, i1) == key@;
                                assert(in_key(bv, t1, i1) == in_key(bv, t as int, i as int));
                                assert(!inputs_distinct(bv));
                            } else {
                                assert(!inputs_present(u, bv));
                            }
                        }
                        return None;
                    },
                };
                proof {
                    assert(u.dom().contains(key@));
                    assert(rec@ == u[key@]);
                }
                let addr = sha256(&inp.pubkey);
                if !bytes_eq(&addr, &rec.address) {
                    proof {
                        assert(sha256_of(bv.transactions[t as int].inputs[i as int].pubkey) != u[
                            in_key(bv, t as int, i as int)].address);
                        assert(!sigs_ok(u, bv));
                    }
                    return None;
                }
                if !crate::chain::sign::ecdsa_check(&shash, &inp.signature, &inp.pubkey) {
                    proof {
                        assert(!ecdsa_valid(
                            sighash_of(bv.transactions[t as int]),
                            bv.transactions[t as int].inputs[i as int].signature,
                            bv.transactions[t as int].inputs[i as int].pubkey,
                        ));
                        assert(!sigs_ok(u, bv));
                    }
                    return None;
                }
                proof {
                    assert(!consumed_keys(bv, t as int, i as int).contains(key@));
                    assert((i as int + 1) * 0xffff_ffff_ffff_ffffu64 == (i as int)
                        * 0xffff_ffff_ffff_ffffu64 + 0xffff_ffff_ffff_ffffu64) by (nonlinear_arith);
                }
                in_sum = in_sum + (rec.value as u128);
                let ghost old_spent = views(spent@);
                spent.push(rec);
                working.remove(&key);
                proof {
                    assert(views(spent@) =~= old_spent.push(u[key@]));
                    assert(spent_list_tx(u, bv, t as int).take(i + 1) =~= spent_list_tx(
                        u,
                        bv,
                        t as int,
                    ).take(i as int).push(u[in_key(bv, t as int, i as int)]));
                    assert(views(spent@) =~= spent_upto(u, bv, t as int) + spent_list_tx(
                        u,
                        bv,
                        t as int,
                    ).take(i + 1));
                    lemma_consumed_step(bv, t as int, i as int);
                    assert(working@ =~= u.remove_keys(consumed_keys(bv, t as int, i + 1)));
                    assert(utxo_key_of(u[key@]) == key@);
                    lemma_keys_push(old_spent, u[key@]);
                    assert(keys_of_list(views(spent@)) =~= consumed_keys(bv, t as int, i + 1));
                    assert(!keys_of_list(old_spent).contains(utxo_key_of(u[key@])));
                    lemma_distinct_push(old_spent, u[key@]);
                    assert(distinct_keys(utxo_pairs(views(spent@))));
                    assert forall|t1: int, i1: int|
                        is_input_idx(bv, t1, i1) && idx_lt(t1, i1, t as int, i as int) implies #[trigger] in_key(
                        bv,
                        t1,
                        i1,
                    ) != in_key(bv, t as int, i as int) by {
                        assert(consumed_keys(bv, t as int, i as int).contains(in_key(bv, t1, i1)));
                    }
                }
                i = i + 1;
            }
            proof {
                assert(spent_list_tx(u, bv, t as int).take(nin as int) =~= spent_list_tx(
                    u,
                    bv,
                    t as int,
                ));
                assert(views(spent@) =~= spent_upto(u, bv, t as int + 1));
                lemma_consumed_tx(bv, t as int);
            }
        } else {
            proof {
                assert(consumed_keys(bv, 1, 0) =~= consumed_keys(bv, 0, 0));
                assert(spent_upto(u, bv, 1) =~= spent_upto(u, bv, 0));
            }
        }
        // Past this point the input bookkeeping stands at the next
        // transaction boundary.
        if (tx.outputs.len() as u64) > 0x1_0000_0000u64 {
            proof {
                assert(bv.transactions[t as int].outputs.len() > 0x1_0000_0000);
                assert(!outputs_bounded(bv));
            }
            return None;
        }
        let mut out_sum: u128 = 0;
        let nout = tx.outputs.len();
        let mut oi: usize = 0;
        proof {
            assert(created_list_tx(bv, height, t as int).take(0) =~= Seq::<UtxoView>::empty());
            assert(views(created@) + created_list_tx(bv, height, t as int).take(0) =~= views(
                created@,
            ));
        }
        while oi < nout
            invariant
                0 <= oi <= nout,
                0 <= t < ntx,
                bv == block@,
                u == parent_utxos@,
                parent_utxos.wf(),
                ledger_keyed(u),
                shape_ok(bv),
                ntx == bv.transactions.len(),
                nout == bv.transactions[t as int].outputs.len(),
                tx@ == bv.transactions[t as int],
                nout <= 0x1_0000_0000,
                tid@ == txid_of(bv.transactions[t as int]),
                seen.wf(),
                working.wf(),
                working@ == u.remove_keys(consumed_keys(bv, t as int + 1, 0)),
                views(spent@) == spent_upto(u, bv, t as int + 1),
                keys_of_list(views(spent@)) == consumed_keys(bv, t as int + 1, 0),
                distinct_keys(utxo_pairs(views(spent@))),
                forall|p: int|
                    0 <= p < views(spent@).len() ==> u.dom().contains(
                        utxo_key_of(#[trigger] views(spent@)[p]),
                    ) && u[utxo_key_of(views(spent@)[p])] == views(spent@)[p],
                t >= 1 ==> in_sum == tx_in_sum(u, bv, t as int),
                out_sum == out_sum_upto(bv, t as int, oi as int),
                out_sum <= (oi as int) * 0xffff_ffff_ffff_ffffu64,
                views(created@) == created_upto(bv, height, t as int) + created_list_tx(
                    bv,
                    height,
                    t as int,
                ).take(oi as int),
                seen@.dom() == out_keys_upto(bv, t as int, oi as int),
                keys_of_list(views(created@)) == seen@.dom(),
                distinct_keys(utxo_pairs(views(created@))),
                forall|p: int|
                    0 <= p < views(created@).len() ==> !u.dom().contains(
                        utxo_key_of(#[trigger] views(created@)[p]),
                    ),
                forall|t1: int, i1: int|
                    is_input_idx(bv, t1, i1) && idx_lt(t1, i1, t as int + 1, 0)
                        ==> u.dom().contains(#[trigger] in_key(bv, t1, i1)) && sha256_of(
                        bv.transactions[t1].inputs[i1].pubkey,
                    ) == u[in_key(bv, t1, i1)].address && ecdsa_valid(
                        sighash_of(bv.transactions[t1]),
                        bv.transactions[t1].inputs[i1].signature,
                        bv.transactions[t1].inputs[i1].pubkey,
                    ),
                forall|t1: int|
                    1 <= t1 < t ==> #[trigger] tx_in_sum(u, bv, t1) >= tx_out_sum(bv, t1),
                forall|t1: int|
                    0 <= t1 < t ==> (#[trigger] bv.transactions[t1].outputs.len())
                        <= 0x1_0000_0000,
                forall|t1: int, i1: int, t2: int, i2: int|
                    is_input_idx(bv, t1, i1) && is_input_idx(bv, t2, i2) && idx_lt(
                        t1,
                        i1,
                        t as int + 1,
                        0,
                    ) && idx_lt(t2, i2, t as int + 1, 0) && (t1 != t2 || i1 != i2)
                        ==> #[trigger] in_key(bv, t1, i1) != #[trigger] in_key(bv, t2, i2),
                forall|t1: int, i1: int|
                    is_output_idx(bv, t1, i1) && idx_lt(t1, i1, t as int, oi as int)
                        ==> !u.dom().contains(#[trigger] out_key(bv, t1, i1)),
                forall|t1: int, i1: int, t2: int, i2: int|
                    is_output_idx(bv, t1, i1) && is_output_idx(bv, t2, i2) && idx_lt(
                        t1,
                        i1,
                        t as int,
                        oi as int,
                    ) && idx_lt(t2, i2, t as int, oi as int) && (t1 != t2 || i1 != i2)
                        ==> #[trigger] out_key(bv, t1, i1) != #[trigger] out_key(bv, t2, i2),
            decreases nout - oi,
        {
            proof {
                assert(bv.transactions[t as int].outputs[oi as int] == tx.outputs@[oi as int]@);
                assert(is_output_idx(bv, t as int, oi as int));
            }
            let okey = make_utxo_key(&tid, oi as u32);
            proof {
                assert(okey@ == out_key(bv, t as int, oi as int));
            }
            if parent_utxos.contains_key(&okey) {
                proof {
                    assert(!outputs_fresh(u, bv));
                }
                return None;
            }
            if seen.contains_key(&okey) {
                proof {
                    let (t1, i1) = choose|t1: int, i1: int|
                        is_output_idx(bv, t1, i1) && idx_lt(t1, i1, t as int, oi as int)
                            && out_key(bv, t1, i1) == okey@;
                    assert(out_key(bv, t1, i1) == out_key(bv, t as int, oi as int));
                    assert(!outputs_distinct(bv));
                }
                return None;
            }
            let rec = UTXO {
                txid: clone_bytes(&tid),
                vout: oi as u32,
                value: tx.outputs[oi].value,
                address: clone_bytes(&tx.outputs[oi].to_address),
                height,
            };
            proof {
                assert(rec@ =~~= out_record(bv, height, t as int, oi as int));
                assert(utxo_key_of(rec@) == okey@);
                assert((oi as int + 1) * 0xffff_ffff_ffff_ffffu64 == (oi as int)
                    * 0xffff_ffff_ffff_ffffu64 + 0xffff_ffff_ffff_ffffu64) by (nonlinear_arith);
            }
            out_sum = out_sum + (tx.outputs[oi].value as u128);
            let ghost old_created = views(created@);
            created.push(rec.clone());
            seen.insert(okey, rec);
            proof {
                assert(views(created@) =~= old_created.push(out_record(bv, height, t as int, oi as int)));
                assert(created_list_tx(bv, height, t as int).take(oi + 1) =~= created_list_tx(
                    bv,
                    height,
                    t as int,
                ).take(oi as int).push(out_record(bv, height, t as int, oi as int)));
                assert(views(created@) =~= created_upto(bv, height, t as int) + created_list_tx(
                    bv,
                    height,
                    t as int,
                ).take(oi + 1));
                lemma_outkeys_step(bv, t as int, oi as int);
                assert(seen@.dom() =~= out_keys_upto(bv, t as int, oi + 1));
                lemma_keys_push(old_created, out_record(bv, height, t as int, oi as int));
                assert(keys_of_list(views(created@)) =~= seen@.dom());
                assert(!keys_of_list(old_created).contains(
                    utxo_key_of(out_record(bv, height, t as int, oi as int)),
                ));
                lemma_distinct_push(old_created, out_record(bv, height, t as int, oi as int));
                assert(distinct_keys(utxo_pairs(views(created@))));
                assert forall|t1: int, i1: int|
                    is_output_idx(bv, t1, i1) && idx_lt(t1, i1, t as int, oi as int) implies #[trigger] out_key(
                    bv,
                    t1,
                    i1,
                ) != out_key(bv, t as int, oi as int) by {
                    assert(out_keys_upto(bv, t as int, oi as int).contains(out_key(bv, t1, i1)));
                }
            }
            oi = oi + 1;
        }
        if t >= 1 {
            if in_sum < out_sum {
                proof {
                    assert(out_sum_upto(bv, t as int, nout as int) == tx_out_sum(bv, t as int));
                    assert(tx_in_sum(u, bv, t as int) < tx_out_sum(bv, t as int));
                    assert(!balances_ok(u, bv));
                }
                return None;
            }
        }
        proof {
            assert(created_list_tx(bv, height, t as int).take(nout as int) =~= created_list_tx(
                bv,
                height,
                t as int,
            ));
            assert(views(created@) =~= created_upto(bv, height, t as int + 1));
            lemma_outkeys_tx(bv, t as int);
        }
        t = t + 1;
    }
    proof {
        lemma_consumed_full(bv);
        assert(inputs_present(u, bv)) by {
            assert forall|t1: int, i1: int| is_input_idx(bv, t1, i1) implies u.dom().contains(
                #[trigger] in_key(bv, t1, i1),
            ) by {
                assert(idx_lt(t1, i1, ntx as int, 0));
            }
        }
        assert forall|t1: int, i1: int| is_input_idx(bv, t1, i1) implies idx_lt(
            t1,
            i1,
            ntx as int,
            0,
        ) by {}
        assert forall|t1: int, i1: int| is_output_idx(bv, t1, i1) implies idx_lt(
            t1,
            i1,
            ntx as int,
            0,
        ) by {}
        assert(inputs_distinct(bv));
        assert(outputs_distinct(bv));
        assert(outputs_fresh(u, bv));
        assert(sigs_ok(u, bv));
        assert(balances_ok(u, bv));
        assert(outputs_bounded(bv));
        assert(txs_valid(u, bv));
    }
    Some(BlockUndo { spent, created })
}

impl ChainState {
    /// Rebuilds the ledger of the chain ending at `h` by replaying the
    /// stored undo logs from genesis upward.
    #[verifier::rlimit(100)]
    fn utxo_set_at(&self, h: &Vec<u8>) -> (r: UtxoMap)
        requires
            self.blocks.wf(),
            blocks_wf(self.blocks@, self.genesis@),
            self.blocks@.dom().contains(h@),
        ensures
            r.wf(),
            r@ == replay(self.blocks@, h@),
    {
        let ghost m = self.blocks@;
        let ghost g = self.genesis@;
        let mut hashes: Vec<Vec<u8>> = Vec::new();
        let mut cur = clone_bytes(h);
        let mut done = false;
        while !done
            invariant
                m == self.blocks@,
                g == self.genesis@,
                self.blocks.wf(),
                blocks_wf(m, g),
                !done ==> m.dom().contains(cur@),
                forall|j: int| 0 <= j < hashes@.len() ==> m.dom().contains(#[trigger] hashes@[j]@),
                hashes@.len() > 0 ==> hashes@[0]@ == h@,
                hashes@.len() == 0 ==> cur@ == h@,
                forall|j: int|
                    0 <= j < hashes@.len() - 1 ==> m[#[trigger] hashes@[j]@].parent == hashes@[j
                        + 1]@ && m[hashes@[j]@].height > 0,
                !done && hashes@.len() > 0 ==> cur@ == m[hashes@[hashes@.len() - 1]@].parent && m[
                    hashes@[hashes@.len() - 1]@].height > 0,
                done ==> hashes@.len() > 0 && m[hashes@[hashes@.len() - 1]@].height == 0,
            decreases (if done {
                0int
            } else {
                m[cur@].height + 1
            }),
        {
            let meta_height;
            let meta_parent;
            match self.blocks.get(&cur) {
                Some(meta) => {
                    meta_height = meta.height;
                    meta_parent = clone_bytes(&meta.parent);
                },
                None => {
                    proof {
                        assert(false);
                    }
                    meta_height = 0;
                    meta_parent = Vec::new();
                },
            }
            let ghost old_hashes = hashes@;
            hashes.push(cur);
            proof {
                assert(hashes@.len() == old_hashes.len() + 1);
                assert(forall|j: int|
                    0 <= j < old_hashes.len() ==> hashes@[j] == #[trigger] old_hashes[j]);
            }
            if meta_height == 0 {
                done = true;
                cur = meta_parent;
                proof {
                    assert(m.dom().contains(g));
                }
            } else {
                proof {
                    assert(meta_ok(m, g, hashes@[hashes@.len() - 1]@));
                }
                cur = meta_parent;
            }
            proof {
                if !done {
                    assert(m[hashes@[hashes@.len() - 1]@].height > 0);
                    assert(m.dom().contains(cur@));
                }
            }
        }
        proof {
            let last = hashes@[hashes@.len() - 1]@;
            assert(meta_ok(m, g, last));
            assert(last == g);
        }
        let n = hashes.len();
        let mut u: UtxoMap = KeyedMap::new();
        let mut idx: usize = n;
        while idx > 0
            invariant
                m == self.blocks@,
                g == self.genesis@,
                self.blocks.wf(),
                blocks_wf(m, g),
                n == hashes@.len(),
                0 < n,
                0 <= idx <= n,
                forall|j: int| 0 <= j < n ==> m.dom().contains(#[trigger] hashes@[j]@),
                hashes@[0]@ == h@,
                forall|j: int|
                    0 <= j < n - 1 ==> m[#[trigger] hashes@[j]@].parent == hashes@[j + 1]@ && m[
                        hashes@[j]@].height > 0,
                m[hashes@[n - 1]@].height == 0,
                hashes@[n - 1]@ == g,
                u.wf(),
                idx == n ==> u@ == Map::<Seq<u8>, UtxoView>::empty(),
                idx < n ==> u@ == replay(m, hashes@[idx as int]@),
            decreases idx,
        {
            idx = idx - 1;
            let ghost hv = hashes@[idx as int]@;
            match self.blocks.get(&hashes[idx]) {
                Some(meta) => {
                    proof {
                        assert(meta@ == m[hv]);
                        assert(meta_ok(m, g, hv));
                    }
                    apply_undo(&mut u, &meta.undo);
                    proof {
                        if idx == n - 1 {
                            assert(hv == g);
                            assert(undo_ok(Map::empty(), m[g].block, 0, m[g].undo));
                            assert(u@ =~= apply_block(Map::empty(), m[g].block, 0));
                            assert(u@ == replay(m, hv));
                        } else {
                            let parent = m[hv].parent;
                            assert(parent == hashes@[idx + 1]@);
                            assert(m[hv].height > 0);
                            assert(undo_ok(replay(m, parent), m[hv].block, m[hv].height, m[hv].undo));
                            assert(u@ =~= apply_block(replay(m, parent), m[hv].block, m[hv].height));
                            assert(m[parent].height + 1 == m[hv].height);
                            assert(u@ == replay(m, hv));
                        }
                    }
                },
                None => {
                    proof {
                        assert(false);
                    }
                },
            }
        }
        proof {
            assert(u@ == replay(m, h@));
        }
        u
    }

    /// Moves the tip to `new_tip`: walks the old and new branches back to
    /// their common ancestor, rolling the old branch's blocks out of the
    /// ledger, then replays the new branch. Afterwards the ledger equals
    /// the replay of genesis to the new tip, exactly as if it had been
    /// rebuilt from scratch.
    fn reorg_to(&mut self, new_tip: &Vec<u8>)
        requires
            old(self).blocks.wf(),
            old(self).utxos.wf(),
            blocks_wf(old(self).blocks@, old(self).genesis@),
            old(self).blocks@.dom().contains(old(self).tip@),
            old(self).blocks@.dom().contains(new_tip@),
            old(self).utxos@ == replay(old(self).blocks@, old(self).tip@),
        ensures
            final(self).blocks == old(self).blocks,
            final(self).genesis == old(self).genesis,
            final(self).utxos.wf(),
            final(self).tip@ == new_tip@,
            final(self).utxos@ == replay(final(self).blocks@, new_tip@),
    {
        let ghost m = old(self).blocks@;
        let ghost g = old(self).genesis@;
        let mut a = clone_bytes(&self.tip);
        let mut b = clone_bytes(new_tip);
        let mut path: Vec<Vec<u8>> = Vec::new();
        while !bytes_eq(&a, &b)
            invariant
                self.blocks == old(self).blocks,
                self.genesis == old(self).genesis,
                self.tip == old(self).tip,
                m == self.blocks@,
                g == self.genesis@,
                self.blocks.wf(),
                blocks_wf(m, g),
                m.dom().contains(a@),
                m.dom().contains(b@),
                self.utxos.wf(),
                self.utxos@ == replay(m, a@),
                forall|j: int| 0 <= j < path@.len() ==> m.dom().contains(#[trigger] path@[j]@),
                path@.len() > 0 ==> path@[0]@ == new_tip@,
                path@.len() == 0 ==> b@ == new_tip@,
                forall|j: int|
                    0 <= j < path@.len() - 1 ==> m[#[trigger] path@[j]@].parent == path@[j + 1]@
                        && m[path@[j]@].height > 0,
                path@.len() > 0 ==> m[path@[path@.len() - 1]@].parent == b@ && m[path@[path@.len()
                    - 1]@].height > 0,
            decreases m[a@].height + m[b@].height,
        {
            let ha;
            let hb;
            match (self.blocks.get(&a), self.blocks.get(&b)) {
                (Some(ma), Some(mb)) => {
                    ha = ma.height;
                    hb = mb.height;
                },
                _ => {
                    proof {
                        assert(false);
                    }
                    ha = 0;
                    hb = 0;
                },
            }
            proof {
                assert(meta_ok(m, g, a@));
                assert(meta_ok(m, g, b@));
                if ha == 0 && hb == 0 {
                    assert(a@ == g && b@ == g);
                    assert(false);
                }
            }
            if ha >= hb {
                proof {
                    assert(ha > 0);
                    assert(a@ != g);
                }
                let parent;
                match self.blocks.get(&a) {
                    Some(meta) => {
                        proof {
                            assert(meta@ == m[a@]);
                            let pv = m[a@].parent;
                            assert(m.dom().contains(pv));
                            assert(undo_ok(replay(m, pv), m[a@].block, m[a@].height, m[a@].undo));
                            assert(replay(m, a@) == apply_block(
                                replay(m, pv),
                                m[a@].block,
                                m[a@].height,
                            ));
                        }
                        revert_undo(&mut self.utxos, &meta.undo);
                        parent = clone_bytes(&meta.parent);
                        proof {
                            let pv = m[a@].parent;
                            lemma_revert_inverts(replay(m, pv), m[a@].block, m[a@].height, m[a@].undo);
                            assert(self.utxos@ == replay(m, pv));
                        }
                    },
                    None => {
                        proof {
                            assert(false);
                        }
                        parent = Vec::new();
                    },
                }
                a = parent;
            } else {
                proof {
                    assert(hb > 0);
                    assert(b@ != g);
                }
                let ghost old_path = path@;
                path.push(clone_bytes(&b));
                proof {
                    assert(forall|j: int|
                        0 <= j < old_path.len() ==> path@[j] == #[trigger] old_path[j]);
                }
                let parent;
                match self.blocks.get(&b) {
                    Some(meta) => {
                        parent = clone_bytes(&meta.parent);
                    },
                    None => {
                        proof {
                            assert(false);
                        }
                        parent = Vec::new();
                    },
                }
                b = parent;
            }
        }
        proof {
            assert(a@ == b@);
        }
        let mut idx = path.len();
        while idx > 0
            invariant
                self.blocks == old(self).blocks,
                self.genesis == old(self).genesis,
                self.tip == old(self).tip,
                m == self.blocks@,
                g == self.genesis@,
                self.blocks.wf(),
                blocks_wf(m, g),
                self.utxos.wf(),
                0 <= idx <= path@.len(),
                forall|j: int| 0 <= j < path@.len() ==> m.dom().contains(#[trigger] path@[j]@),
                path@.len() > 0 ==> path@[0]@ == new_tip@,
                path@.len() == 0 ==> self.utxos@ == replay(m, new_tip@),
                forall|j: int|
                    0 <= j < path@.len() - 1 ==> m[#[trigger] path@[j]@].parent == path@[j + 1]@
                        && m[path@[j]@].height > 0,
                path@.len() > 0 ==> m[path@[path@.len() - 1]@].height > 0,
                idx == path@.len() && path@.len() > 0 ==> self.utxos@ == replay(
                    m,
                    m[path@[idx - 1]@].parent,
                ),
                idx < path@.len() ==> self.utxos@ == replay(m, path@[idx as int]@),
            decreases idx,
        {
            idx = idx - 1;
            let ghost hv = path@[idx as int]@;
            match self.blocks.get(&path[idx]) {
                Some(meta) => {
                    proof {
                        assert(meta@ == m[hv]);
                        assert(meta_ok(m, g, hv));
                        assert(m[hv].height > 0);
                        assert(hv != g);
                        let pv = m[hv].parent;
                        assert(self.utxos@ == replay(m, pv));
                        assert(undo_ok(replay(m, pv), m[hv].block, m[hv].height, m[hv].undo));
                    }
                    apply_undo(&mut self.utxos, &meta.undo);
                    proof {
                        let pv = m[hv].parent;
                        assert(self.utxos@ =~= apply_block(replay(m, pv), m[hv].block, m[hv].height));
                        assert(m[pv].height + 1 == m[hv].height);
                        assert(self.utxos@ == replay(m, hv));
                        if idx > 0 {
                            assert(m[path@[idx - 1]@].parent == hv);
                        }
                    }
                },
                None => {
                    proof {
                        assert(false);
                    }
                },
            }
        }
        self.tip = clone_bytes(new_tip);
    }

    /// Accepts or rejects a candidate block. A failed check mutates
    /// nothing and returns false. An accepted block is stored forever; it
    /// becomes the tip exactly when it beats the current tip on total
    /// work (height breaking ties), and a tip change away from the old
    /// branch reorganizes the ledger. Returns true exactly when the block
    /// was stored, whether or not it became the tip.
    #[verifier::rlimit(100)]
    pub fn add_block(&mut self, block: Block) -> (r: bool)
        requires
            old(self).wf(),
        ensures
            final(self).wf(),
            r == old(self).spec_add_ok(block@),
            final(self).genesis@ == old(self).genesis@,
            !r ==> final(self).blocks@ == old(self).blocks@ && final(self).tip@ == old(self).tip@
                && final(self).utxos@ == old(self).utxos@,
            r ==> final(self).blocks@ == old(self).blocks@.insert(
                hash_of_header(block@.header),
                old(self).new_meta(block@),
            ),
            r ==> final(self).tip@ == (if better(
                old(self).new_meta(block@),
                old(self).blocks@[old(self).tip@],
            ) {
                hash_of_header(block@.header)
            } else {
                old(self).tip@
            }),
    {
        let ghost pre = *old(self);
        let ghost bv = block@;
        if !verify_pow(&block.header) {
            return false;
        }
        if block.transactions.len() == 0 {
            return false;
        }
        if !block.transactions[0].is_coinbase() {
            return false;
        }
        let ntx = block.transactions.len();
        let mut t: usize = 1;
        while t < ntx
            invariant
                1 <= t <= ntx,
                bv == block@,
                ntx == bv.transactions.len(),
                self.blocks == old(self).blocks,
                self.tip == old(self).tip,
                self.utxos == old(self).utxos,
                self.genesis == old(self).genesis,
                old(self).wf(),
                forall|t1: int| 1 <= t1 < t ==> !is_coinbase_tx(#[trigger] bv.transactions[t1]),
            decreases ntx - t,
        {
            if block.transactions[t].is_coinbase() {
                proof {
                    assert(bv.transactions[t as int] == block.transactions@[t as int]@);
                    assert(!shape_ok(bv));
                }
                return false;
            }
            proof {
                assert(bv.transactions[t as int] == block.transactions@[t as int]@);
            }
            t = t + 1;
        }
        proof {
            assert(bv.transactions[0] == block.transactions@[0]@);
            assert(shape_ok(bv));
        }
        let parent = clone_bytes(&block.header.prev_hash);
        let parent_height;
        let parent_work;
        match self.blocks.get(&parent) {
            Some(pm) => {
                parent_height = pm.height;
                parent_work = pm.total_work;
            },
            None => {
                return false;
            },
        }
        if parent_height == u64::MAX {
            return false;
        }
        let hash = hash_header(&block.header);
        if self.blocks.contains_key(&hash) {
            return false;
        }
        let parent_utxos = self.utxo_set_at(&parent);
        proof {
            lemma_replay_keyed(self.blocks@, self.genesis@, parent@);
        }
        let height = parent_height + 1;
        let undo = match check_block_txs(&parent_utxos, &block, height) {
            Some(u) => u,
            None => {
                return false;
            },
        };
        let work = work_from_bits(block.header.bits);
        let total_work = parent_work.saturating_add(work);
        let meta = BlockMeta { block, parent: clone_bytes(&parent), height, total_work, undo };
        proof {
            assert(pre.spec_add_ok(bv));
            assert(meta@ =~~= pre.new_meta(bv));
            lemma_insert_block(self.blocks@, self.genesis@, hash@, meta@);
        }
        self.blocks.insert(clone_bytes(&hash), meta);
        proof {
            assert(self.blocks@ == pre.blocks@.insert(hash@, pre.new_meta(bv)));
            assert(self.blocks@.dom().contains(self.tip@));
            assert(replay(self.blocks@, self.tip@) == replay(pre.blocks@, pre.tip@));
            assert(self.utxos@ == replay(self.blocks@, self.tip@));
        }
        let tip_work;
        let tip_height;
        match self.blocks.get(&self.tip) {
            Some(tm) => {
                tip_work = tm.total_work;
                tip_height = tm.height;
            },
            None => {
                proof {
                    assert(false);
                }
                tip_work = 0;
                tip_height = 0;
            },
        }
        proof {
            assert(self.tip@ != hash@);
            assert(self.blocks@[self.tip@] == pre.blocks@[pre.tip@]);
        }
        if total_work > tip_work || (total_work == tip_work && height > tip_height) {
            proof {
                assert(better(pre.new_meta(bv), pre.blocks@[pre.tip@]));
            }
            self.reorg_to(&hash);
        } else {
            proof {
                assert(!better(pre.new_meta(bv), pre.blocks@[pre.tip@]));
            }
        }
        true
    }

    /// Starts the chain state from a genesis block and whatever blocks
    /// the store already held, handed over parent-first. A genesis that
    /// fails its structural check is refused; stored blocks run through
    /// the same acceptance path as fresh ones, so an empty store yields a
    /// state whose tip is the genesis and whose ledger holds exactly the
    /// genesis coinbase outputs.
    pub fn load_or_init(genesis: Block, stored: Vec<Block>) -> (r: Option<ChainState>)
        ensures
            match r {
                Some(s) => {
                    &&& s.wf()
                    &&& genesis_ok(genesis@)
                    &&& s.genesis@ == hash_of_header(genesis@.header)
                    &&& (stored@.len() == 0 ==> {
                        &&& s.tip@ == s.genesis@
                        &&& s.blocks@[s.tip@].height == 0
                        &&& s.utxos@ == apply_block(
                            Map::<Seq<u8>, UtxoView>::empty(),
                            genesis@,
                            0,
                        )
                    })
                },
                None => !genesis_ok(genesis@),
            },
    {
        if !validate_genesis(&genesis) {
            return None;
        }
        let ghost gv = genesis@;
        let ghash = hash_header(&genesis.header);
        let empty_map: UtxoMap = KeyedMap::new();
        proof {
            lemma_genesis_valid(gv);
        }
        let undo = match check_block_txs(&empty_map, &genesis, 0) {
            Some(u) => u,
            None => {
                proof {
                    assert(false);
                }
                return None;
            },
        };
        let mut utxos: UtxoMap = KeyedMap::new();
        apply_undo(&mut utxos, &undo);
        let mut blocks: BlockMap = KeyedMap::new();
        let meta = BlockMeta {
            block: genesis,
            parent: make_zero_hash(),
            height: 0,
            total_work: 0,
            undo,
        };
        let ghost mv = meta@;
        blocks.insert(clone_bytes(&ghash), meta);
        let tip = clone_bytes(&ghash);
        let state = ChainState { blocks, tip, utxos, genesis: ghash };
        proof {
            let m = state.blocks@;
            let g = state.genesis@;
            assert(m == Map::<Seq<u8>, BlockMetaView>::empty().insert(g, mv));
            assert(m.dom() =~= Set::<Seq<u8>>::empty().insert(g));
            assert forall|h: Seq<u8>| m.dom().contains(h) implies #[trigger] meta_ok(m, g, h) by {
                assert(h == g);
            }
            assert(blocks_wf(m, g));
            assert(replay(m, g) == apply_block(Map::<Seq<u8>, UtxoView>::empty(), gv, 0));
            assert(state.utxos@ =~= apply_block(Map::<Seq<u8>, UtxoView>::empty(), gv, 0));
            assert(state.wf());
        }
        let mut st = state;
        let mut rest = stored;
        while rest.len() > 0
            invariant
                st.wf(),
                st.genesis@ == hash_of_header(gv.header),
                rest@.len() <= stored@.len(),
                stored@.len() == 0 ==> {
                    &&& st.tip@ == st.genesis@
                    &&& st.blocks@[st.tip@].height == 0
                    &&& st.utxos@ == apply_block(Map::<Seq<u8>, UtxoView>::empty(), gv, 0)
                },
            decreases rest@.len(),
        {
            let b = rest.remove(0);
            let accepted = st.add_block(b);
            proof {
                assert(accepted || !accepted);
            }
        }
        Some(st)
    }
}

// ---------------------------------------------------------------------------
// Laws of the state machine.
// ---------------------------------------------------------------------------
/// Reorg correctness: in any well-formed state the ledger equals the
/// chain from genesis to the tip replayed from nothing, whatever
/// sequence of accepted blocks and tip changes produced the state.
pub proof fn lemma_ledger_matches_replay(s: ChainState)
    requires
        s.wf(),
    ensures
        s.utxos@ == replay(s.blocks@, s.tip@),
{
}

/// Idempotence: a block whose hash is already stored is refused, so the
/// second submission of any accepted block returns false and, by
/// `add_block`'s contract, changes neither the ledger nor the tip.
pub proof fn lemma_duplicate_rejected(s: ChainState, b: BlockView)
    requires
        s.blocks@.dom().contains(hash_of_header(b.header)),
    ensures
        !s.spec_add_ok(b),
{
}

/// Double-spend rejection: a block with an input that does not resolve
/// in its parent's replayed ledger (an output never created, or already
/// consumed by an ancestor of the parent) is refused, and by
/// `add_block`'s contract a refusal mutates nothing.
pub proof fn lemma_missing_input_rejected(s: ChainState, b: BlockView, t: int, i: int)
    requires
        is_input_idx(b, t, i),
        !replay(s.blocks@, b.header.prev_hash).dom().contains(in_key(b, t, i)),
    ensures
        !s.spec_add_ok(b),
{
    assert(!inputs_present(replay(s.blocks@, b.header.prev_hash), b));
}

/// Chain growth: an accepted block that extends the current tip always
/// wins fork choice, since its total work cannot drop and its height
/// strictly grows; with `add_block`'s contract, the tip becomes its hash.
pub proof fn lemma_extends_tip_wins(s: ChainState, b: BlockView)
    requires
        s.wf(),
        s.spec_add_ok(b),
        b.header.prev_hash == s.tip@,
    ensures
        better(s.new_meta(b), s.blocks@[s.tip@]),
{
    let tipm = s.blocks@[s.tip@];
    let c = s.new_meta(b);
    assert(c.total_work >= tipm.total_work);
    assert(c.height == tipm.height + 1);
}

/// Fork choice between siblings: of two children of one parent, the one
/// whose bits encode the strictly smaller target carries strictly more
/// total work, provided the larger sum does not saturate, where the two
/// works would collapse to the same ceiling.
pub proof fn lemma_sibling_work_order(p: BlockMetaView, b1: u32, b2: u32)
    requires
        crate::pow::target::target_value(b1) < crate::pow::target::target_value(b2),
        p.total_work + work_of_bits(b1) <= u128::MAX,
    ensures
        sat_add(p.total_work, work_of_bits(b1)) > sat_add(p.total_work, work_of_bits(b2)),
{
    crate::pow::work::lemma_work_target_order(b1, b2);
}

} // verus!
