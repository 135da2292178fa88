//! Unspent transaction outputs: the full records the ledger keeps, and the
//! byte-string key under which they are stored.

use vstd::prelude::*;
use crate::encode::{u32_le, encode_u32_le, clone_bytes};
use crate::keyed_map::KeyedMap;

verus! {

pub struct UTXO {
    pub txid: Vec<u8>,
    pub vout: u32,
    pub value: u64,
    pub address: Vec<u8>,
    /// Height of the block that created this output.
    pub height: u64,
}

#[verifier::ext_equal]
pub struct UtxoView {
    pub txid: Seq<u8>,
    pub vout: u32,
    pub value: u64,
    pub address: Seq<u8>,
    pub height: u64,
}

impl View for UTXO {
    type V = UtxoView;

    open spec fn view(&self) -> UtxoView {
        UtxoView {
            txid: self.txid@,
            vout: self.vout,
            value: self.value,
            address: self.address@,
            height: self.height,
        }
    }
}

impl Clone for UTXO {
    fn clone(&self) -> (r: Self)
        ensures
            r@ == self@,
    {
        UTXO {
            txid: clone_bytes(&self.txid),
            vout: self.vout,
            value: self.value,
            address: clone_bytes(&self.address),
            height: self.height,
        }
    }
}

/// The ledger: output reference to full record.
pub type UtxoMap = KeyedMap<UTXO>;

/// The storage key of an output reference: the 32-byte transaction id
/// followed by the output index.
pub open spec fn utxo_key(txid: Seq<u8>, vout: u32) -> Seq<u8> {
    txid + u32_le(vout)
}

pub fn make_utxo_key(txid: &Vec<u8>, vout: u32) -> (r: Vec<u8>)
    ensures
        r@ == utxo_key(txid@, vout),
{
    let mut out = clone_bytes(txid);
    let mut part = encode_u32_le(vout);
    out.append(&mut part);
    proof {
        assert(out@ =~= utxo_key(txid@, vout));
    }
    out
}

pub open spec fn utxo_key_of(u: UtxoView) -> Seq<u8> {
    utxo_key(u.txid, u.vout)
}

/// Output references with equally long transaction ids collide only when
/// they are the same reference.
pub proof fn lemma_utxo_key_injective(t1: Seq<u8>, v1: u32, t2: Seq<u8>, v2: u32)
    requires
        t1.len() == t2.len(),
    ensures
        (utxo_key(t1, v1) == utxo_key(t2, v2)) <==> (t1 == t2 && v1 == v2),
{
    if utxo_key(t1, v1) == utxo_key(t2, v2) {
        let k1 = utxo_key(t1, v1);
        let k2 = utxo_key(t2, v2);
        assert(t1 =~= k1.subrange(0, t1.len() as int));
        assert(t2 =~= k2.subrange(0, t2.len() as int));
        assert(u32_le(v1) =~= k1.subrange(t1.len() as int, k1.len() as int));
        assert(u32_le(v2) =~= k2.subrange(t2.len() as int, k2.len() as int));
        assert(u32_le(v1) == u32_le(v2));
        assert(u32_le(v1)[0] == u32_le(v2)[0]);
        assert(u32_le(v1)[1] == u32_le(v2)[1]);
        assert(u32_le(v1)[2] == u32_le(v2)[2]);
        assert(u32_le(v1)[3] == u32_le(v2)[3]);
        assert((v1 & 0xff) < 256 && ((v1 >> 8) & 0xff) < 256 && ((v1 >> 16) & 0xff) < 256 && ((v1
            >> 24) & 0xff) < 256) by (bit_vector);
        assert((v2 & 0xff) < 256 && ((v2 >> 8) & 0xff) < 256 && ((v2 >> 16) & 0xff) < 256 && ((v2
            >> 24) & 0xff) < 256) by (bit_vector);
        assert((v1 & 0xff == v2 & 0xff && (v1 >> 8) & 0xff == (v2 >> 8) & 0xff && (v1 >> 16) & 0xff
            == (v2 >> 16) & 0xff && (v1 >> 24) & 0xff == (v2 >> 24) & 0xff) ==> v1 == v2)
            by (bit_vector);
    }
}

/// An owned copy of the ledger.
pub fn clone_utxo_map(m: &UtxoMap) -> (r: UtxoMap)
    ensures
        r.kv() == m.kv(),
        r@ == m@,
        m.wf() ==> r.wf(),
{
    let n = m.len();
    let mut r: UtxoMap = KeyedMap::new();
    let mut i: usize = 0;
    while i < n
        invariant
            0 <= i <= n,
            n == m.kv().len(),
            r.kv() == m.kv().take(i as int),
        decreases n - i,
    {
        let key = clone_bytes(m.key_at(i));
        let val = m.val_at(i).clone();
        let ghost pre = r.kv();
        r.entries.push(crate::keyed_map::MapEntry { key, val });
        proof {
            assert(r.kv() =~= pre.push((m.kv()[i as int].0, m.kv()[i as int].1)));
            assert(r.kv() =~= m.kv().take(i + 1));
        }
        i = i + 1;
    }
    proof {
        assert(m.kv().take(n as int) =~= m.kv());
    }
    r
}

} // verus!
