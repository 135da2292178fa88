//! Transaction signatures: ECDSA over secp256k1, applied to the signing
//! hash of a transaction. The curve arithmetic lives in the secp256k1
//! crate; its results are named, never restated.

use vstd::prelude::*;
use crate::chain::tx::{Transaction, TxView};
use crate::chain::txid::{sighash, sighash_of};

verus! {

/// Whether secp256k1 accepts these bytes as a secret key: 32 bytes forming
/// a nonzero scalar below the curve order.
pub uninterp spec fn valid_secret_key(sk: Seq<u8>) -> bool;

/// The compressed 33-byte serialization of the public key a secret key
/// determines.
pub uninterp spec fn pubkey_of(sk: Seq<u8>) -> Seq<u8>;

/// The DER signature the deterministic ECDSA signer produces over a
/// 32-byte message under a secret key.
pub uninterp spec fn ecdsa_sig_of(msg: Seq<u8>, sk: Seq<u8>) -> Seq<u8>;

/// Whether a DER signature verifies over a 32-byte message under a
/// serialized public key; bytes that parse as neither count as invalid.
pub uninterp spec fn ecdsa_valid(msg: Seq<u8>, sig: Seq<u8>, pk: Seq<u8>) -> bool;

/// Relies on secp256k1::SecretKey::from_slice: whether the bytes are
/// accepted depends on the bytes alone.
#[verifier::external_body]
pub(crate) fn secret_key_ok(sk: &Vec<u8>) -> (r: bool)
    ensures
        r == valid_secret_key(sk@),
{
    secp256k1::SecretKey::from_slice(sk.as_slice()).is_ok()
}

/// Relies on secp256k1::PublicKey::from_secret_key and
/// PublicKey::serialize: the compressed 33-byte encoding is a function of
/// the secret key alone.
#[verifier::external_body]
pub(crate) fn derive_pubkey(sk: &Vec<u8>) -> (r: Vec<u8>)
    requires
        valid_secret_key(sk@),
    ensures
        r@ == pubkey_of(sk@),
        r@.len() == 33,
{
    let secp = secp256k1::Secp256k1::new();
    let key = secp256k1::SecretKey::from_slice(sk.as_slice()).unwrap();
    secp256k1::PublicKey::from_secret_key(&secp, &key).serialize().to_vec()
}

/// Relies on Secp256k1::sign_ecdsa, which signs deterministically
/// (RFC 6979), and on ECDSA correctness: the signature it returns verifies
/// over the same message under the signer's public key.
#[verifier::external_body]
pub(crate) fn ecdsa_sign(msg32: &Vec<u8>, sk: &Vec<u8>) -> (r: Vec<u8>)
    requires
        valid_secret_key(sk@),
        msg32@.len() == 32,
    ensures
        r@ == ecdsa_sig_of(msg32@, sk@),
        ecdsa_valid(msg32@, r@, pubkey_of(sk@)),
{
    let secp = secp256k1::Secp256k1::new();
    let key = secp256k1::SecretKey::from_slice(sk.as_slice()).unwrap();
    let msg = secp256k1::Message::from_digest_slice(msg32.as_slice()).unwrap();
    secp.sign_ecdsa(&msg, &key).serialize_der().to_vec()
}

/// Relies on Secp256k1::verify_ecdsa, with PublicKey::from_slice and
/// ecdsa::Signature::from_der converting the inputs; bytes that fail to
/// parse count as an invalid signature. The outcome depends on the three
/// byte strings alone.
#[verifier::external_body]
pub(crate) fn ecdsa_check(msg32: &Vec<u8>, sig: &Vec<u8>, pk: &Vec<u8>) -> (r: bool)
    requires
        msg32@.len() == 32,
    ensures
        r == ecdsa_valid(msg32@, sig@, pk@),
{
    let secp = secp256k1::Secp256k1::new();
    let msg = secp256k1::Message::from_digest_slice(msg32.as_slice());
    let key = secp256k1::PublicKey::from_slice(pk.as_slice());
    let parsed = secp256k1::ecdsa::Signature::from_der(sig.as_slice());
    match (msg, key, parsed) {
        (Ok(m), Ok(k), Ok(s)) => secp.verify_ecdsa(&m, &s, &k).is_ok(),
        _ => false,
    }
}

/// Derives the serialized public key of a secret key, or refuses bytes
/// that form no secret key.
pub fn public_key_for(sk: &Vec<u8>) -> (r: Option<Vec<u8>>)
    ensures
        match r {
            Some(pk) => valid_secret_key(sk@) && pk@ == pubkey_of(sk@) && pk@.len() == 33,
            None => !valid_secret_key(sk@),
        },
{
    if !secret_key_ok(sk) {
        return None;
    }
    Some(derive_pubkey(sk))
}

/// Signs a 32-byte digest, or refuses bytes that form no secret key.
/// Any signature returned verifies under the signer's public key.
pub fn sign_digest(msg: &Vec<u8>, sk: &Vec<u8>) -> (r: Option<Vec<u8>>)
    requires
        msg@.len() == 32,
    ensures
        match r {
            Some(sig) => {
                &&& valid_secret_key(sk@)
                &&& sig@ == ecdsa_sig_of(msg@, sk@)
                &&& ecdsa_valid(msg@, sig@, pubkey_of(sk@))
            },
            None => !valid_secret_key(sk@),
        },
{
    if !secret_key_ok(sk) {
        return None;
    }
    Some(ecdsa_sign(msg, sk))
}

/// Every input's signature verifies over the transaction's signing hash
/// under that input's claimed public key.
pub open spec fn tx_sigs_ok(t: TxView) -> bool {
    forall|i: int|
        0 <= i < t.inputs.len() ==> #[trigger] ecdsa_valid(
            sighash_of(t),
            t.inputs[i].signature,
            t.inputs[i].pubkey,
        )
}

/// Signs a transaction's signing hash, or refuses bytes that form no
/// secret key.
pub fn sign_tx(tx: &Transaction, sk: &Vec<u8>) -> (r: Option<Vec<u8>>)
    ensures
        match r {
            Some(sig) => {
                &&& valid_secret_key(sk@)
                &&& sig@ == ecdsa_sig_of(sighash_of(tx@), sk@)
                &&& ecdsa_valid(sighash_of(tx@), sig@, pubkey_of(sk@))
            },
            None => !valid_secret_key(sk@),
        },
{
    if !secret_key_ok(sk) {
        return None;
    }
    let msg = sighash(tx);
    Some(ecdsa_sign(&msg, sk))
}

/// Checks every input's signature against the transaction's signing hash.
pub fn verify_tx(tx: &Transaction) -> (r: bool)
    ensures
        r == tx_sigs_ok(tx@),
{
    let msg = sighash(tx);
    let n = tx.inputs.len();
    let mut i: usize = 0;
    while i < n
        invariant
            0 <= i <= n,
            n == tx@.inputs.len(),
            msg@ == sighash_of(tx@),
            msg@.len() == 32,
            forall|j: int|
                0 <= j < i ==> #[trigger] ecdsa_valid(
                    sighash_of(tx@),
                    tx@.inputs[j].signature,
                    tx@.inputs[j].pubkey,
                ),
        decreases n - i,
    {
        if !ecdsa_check(&msg, &tx.inputs[i].signature, &tx.inputs[i].pubkey) {
            proof {
                assert(tx@.inputs[i as int] == tx.inputs@[i as int]@);
                assert(!ecdsa_valid(
                    sighash_of(tx@),
                    tx@.inputs[i as int].signature,
                    tx@.inputs[i as int].pubkey,
                ));
            }
            return false;
        }
        proof {
            assert(tx@.inputs[i as int] == tx.inputs@[i as int]@);
        }
        i = i + 1;
    }
    true
}

} // verus!
