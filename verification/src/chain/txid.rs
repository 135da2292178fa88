//! Transaction identity: the digest of the canonical encoding.

use vstd::prelude::*;
use crate::chain::tx::{Transaction, TxView, tx_bytes, tx_sighash_bytes, encode_tx,
    encode_tx_sighash};
use crate::digest::{sha256, sha256_of};

verus! {

pub open spec fn txid_of(t: TxView) -> Seq<u8> {
    sha256_of(tx_bytes(t))
}

/// The hash every signature on the transaction commits to.
pub open spec fn sighash_of(t: TxView) -> Seq<u8> {
    sha256_of(tx_sighash_bytes(t))
}

pub fn txid(tx: &Transaction) -> (r: Vec<u8>)
    ensures
        r@ == txid_of(tx@),
        r@.len() == 32,
{
    let encoded = encode_tx(tx);
    sha256(&encoded)
}

pub fn sighash(tx: &Transaction) -> (r: Vec<u8>)
    ensures
        r@ == sighash_of(tx@),
        r@.len() == 32,
{
    let encoded = encode_tx_sighash(tx);
    sha256(&encoded)
}

} // verus!
