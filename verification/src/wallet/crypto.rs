//! Wallet encryption: a password is stretched through Argon2 into an
//! AES-256-GCM key; salt and nonce are drawn fresh for every blob.

use vstd::prelude::*;
use aes_gcm::aead::{Aead, KeyInit};
use crate::wallet::seed::random_bytes;

verus! {

pub struct EncryptedBlob {
    pub ciphertext: Vec<u8>,
    pub salt: Vec<u8>,
    pub nonce: Vec<u8>,
}

/// The 32-byte key Argon2 stretches a password and salt into.
pub uninterp spec fn argon2_of(password: Seq<char>, salt: Seq<u8>) -> Seq<u8>;

/// The AES-256-GCM ciphertext of a plaintext under a key and nonce.
pub uninterp spec fn aes_ct_of(key: Seq<u8>, nonce: Seq<u8>, plaintext: Seq<u8>) -> Seq<u8>;

/// What AES-256-GCM decryption yields for a ciphertext under a key and
/// nonce: the plaintext, or nothing when authentication fails.
pub uninterp spec fn aes_pt_of(key: Seq<u8>, nonce: Seq<u8>, ciphertext: Seq<u8>) -> Option<
    Seq<u8>,
>;

/// Relies on argon2::Argon2::hash_password_into with default parameters:
/// the derived key depends on the password and salt alone, and a
/// sixteen-byte salt with a password below the length cap is always
/// accepted.
#[verifier::external_body]
pub(crate) fn argon2_key(password: &str, salt: &Vec<u8>) -> (r: Option<Vec<u8>>)
    ensures
        match r {
            Some(k) => k@ == argon2_of(password@, salt@) && k@.len() == 32,
            None => true,
        },
        salt@.len() == 16 && crate::wallet::role::utf8_of(password@).len() <= 0xffff_ffff ==> r
            is Some,
{
    let mut key = vec![0u8; 32];
    let argon = argon2::Argon2::default();
    match argon.hash_password_into(password.as_bytes(), salt.as_slice(), &mut key) {
        Ok(()) => Some(key),
        Err(_) => None,
    }
}

/// Relies on aes_gcm::Aes256Gcm's Aead::encrypt: deterministic in key,
/// nonce and plaintext; refuses nothing but over-long payloads.
#[verifier::external_body]
pub(crate) fn aes_encrypt(key: &Vec<u8>, nonce: &Vec<u8>, plaintext: &Vec<u8>) -> (r: Option<
    Vec<u8>,
>)
    requires
        key@.len() == 32,
        nonce@.len() == 12,
    ensures
        match r {
            Some(c) => c@ == aes_ct_of(key@, nonce@, plaintext@),
            None => true,
        },
{
    let cipher = aes_gcm::Aes256Gcm::new(aes_gcm::Key::<aes_gcm::Aes256Gcm>::from_slice(
        key.as_slice(),
    ));
    match cipher.encrypt(aes_gcm::Nonce::from_slice(nonce.as_slice()), plaintext.as_slice()) {
        Ok(c) => Some(c),
        Err(_) => None,
    }
}

/// Relies on aes_gcm::Aes256Gcm's Aead::decrypt: deterministic in key,
/// nonce and ciphertext, failing exactly when authentication fails.
#[verifier::external_body]
pub(crate) fn aes_decrypt(key: &Vec<u8>, nonce: &Vec<u8>, ciphertext: &Vec<u8>) -> (r: Option<
    Vec<u8>,
>)
    requires
        key@.len() == 32,
        nonce@.len() == 12,
    ensures
        (r is Some) == (aes_pt_of(key@, nonce@, ciphertext@) is Some),
        r is Some ==> r->Some_0@ == aes_pt_of(key@, nonce@, ciphertext@)->Some_0,
{
    let cipher = aes_gcm::Aes256Gcm::new(aes_gcm::Key::<aes_gcm::Aes256Gcm>::from_slice(
        key.as_slice(),
    ));
    match cipher.decrypt(aes_gcm::Nonce::from_slice(nonce.as_slice()), ciphertext.as_slice()) {
        Ok(p) => Some(p),
        Err(_) => None,
    }
}

/// Encrypts a plaintext under a password with a fresh salt and nonce.
/// Any blob returned carries its own salt and nonce, and its ciphertext
/// is exactly the AES encryption under the Argon2-derived key.
pub fn encrypt(password: &str, plaintext: &Vec<u8>) -> (r: Option<EncryptedBlob>)
    ensures
        match r {
            Some(b) => {
                &&& b.salt@.len() == 16
                &&& b.nonce@.len() == 12
                &&& b.ciphertext@ == aes_ct_of(
                    argon2_of(password@, b.salt@),
                    b.nonce@,
                    plaintext@,
                )
            },
            None => true,
        },
{
    let salt = random_bytes(16);
    let nonce = random_bytes(12);
    let key = match argon2_key(password, &salt) {
        Some(k) => k,
        None => {
            return None;
        },
    };
    let ciphertext = match aes_encrypt(&key, &nonce, plaintext) {
        Some(c) => c,
        None => {
            return None;
        },
    };
    Some(EncryptedBlob { ciphertext, salt, nonce })
}

/// Decrypts a blob under a password: yields the plaintext exactly when
/// the blob is well-shaped and the authenticated decryption under the
/// password-derived key succeeds.
pub fn decrypt(password: &str, blob: &EncryptedBlob) -> (r: Option<Vec<u8>>)
    ensures
        blob.salt@.len() == 16 && blob.nonce@.len() == 12 && crate::wallet::role::utf8_of(
            password@,
        ).len() <= 0xffff_ffff ==> ({
            let pt = aes_pt_of(argon2_of(password@, blob.salt@), blob.nonce@, blob.ciphertext@);
            &&& (r is Some) == (pt is Some)
            &&& (r is Some ==> r->Some_0@ == pt->Some_0)
        }),
        blob.salt@.len() != 16 || blob.nonce@.len() != 12 ==> r is None,
{
    if blob.salt.len() != 16 || blob.nonce.len() != 12 {
        return None;
    }
    let key = match argon2_key(password, &blob.salt) {
        Some(k) => k,
        None => {
            return None;
        },
    };
    aes_decrypt(&key, &blob.nonce, &blob.ciphertext)
}

} // verus!
