use egg_node::chain::sign::{public_key_for, sign_digest};
use egg_node::digest::sha256;
use egg_node::wallet::crypto::{encrypt, decrypt};
use egg_node::wallet::delegation::{KeyLease, LeaseScope};
use egg_node::wallet::derive::derive_key;
use egg_node::wallet::multisig::policy::MultisigPolicy;
use egg_node::wallet::multisig::session::MultisigSession;
use egg_node::wallet::persist::{WalletFile, encode_wallet_file, decode_wallet_file};
use egg_node::wallet::role::Role;
use egg_node::wallet::seed::MasterSeed;
use egg_node::wallet::store::Wallet;

#[test]
fn role_domains_are_distinct_strings() {
    assert_eq!(Role::Wallet.as_domain(), "role:wallet");
    assert_eq!(Role::Mining.as_domain(), "role:mining");
    assert_eq!(Role::Governance.as_domain(), "role:governance");
    assert_eq!(Role::Node.as_domain(), "role:node");
    assert_eq!(Role::AI.as_domain(), "role:ai");
    assert_eq!(Role::Module(String::from("relay")).as_domain(), "role:module:relay");
}

#[test]
fn key_derivation_is_deterministic_and_domain_separated() {
    let seed = MasterSeed::from_bytes(vec![3u8; 32]);
    let a = derive_key(&seed, &Role::Wallet, 0).expect("derivable");
    let b = derive_key(&seed, &Role::Wallet, 0).expect("derivable");
    assert_eq!(a.secret, b.secret);
    let c = derive_key(&seed, &Role::Mining, 0).expect("derivable");
    assert_ne!(a.secret, c.secret);
    let d = derive_key(&seed, &Role::Wallet, 1).expect("derivable");
    assert_ne!(a.secret, d.secret);
}

#[test]
fn seed_generation_gives_fresh_seeds() {
    let a = MasterSeed::generate();
    let b = MasterSeed::generate();
    assert_eq!(a.as_bytes().len(), 32);
    assert_eq!(b.as_bytes().len(), 32);
    assert_ne!(a.as_bytes(), b.as_bytes());
}

#[test]
fn encrypt_decrypt_round_trip() {
    let secret = vec![42u8, 1, 2, 3];
    let blob = encrypt("hunter2", &secret).expect("encrypts");
    assert_eq!(blob.salt.len(), 16);
    assert_eq!(blob.nonce.len(), 12);
    let back = decrypt("hunter2", &blob).expect("decrypts");
    assert_eq!(back, secret);
    // The wrong password fails authentication.
    assert!(decrypt("hunter3", &blob).is_none());
}

#[test]
fn wallet_file_round_trip() {
    let w = WalletFile {
        version: 1,
        encrypted_seed: vec![9u8, 8, 7],
        salt: vec![1u8; 16],
        nonce: vec![2u8; 12],
    };
    let bytes = encode_wallet_file(&w);
    let back = decode_wallet_file(&bytes).expect("decodes");
    assert_eq!(back.version, w.version);
    assert_eq!(back.encrypted_seed, w.encrypted_seed);
    assert_eq!(back.salt, w.salt);
    assert_eq!(back.nonce, w.nonce);
    // Trailing bytes are refused.
    let mut longer = bytes.clone();
    longer.push(0);
    assert!(decode_wallet_file(&longer).is_none());
    // Truncation is refused.
    let shorter = bytes[..bytes.len() - 1].to_vec();
    assert!(decode_wallet_file(&shorter).is_none());
}

#[test]
fn wallet_generates_addresses_and_finds_keys() {
    let mut wallet = Wallet::new();
    // Locked wallets refuse.
    assert!(wallet.generate_address(Role::Wallet).is_none());
    wallet.unlock(MasterSeed::from_bytes(vec![5u8; 32]));
    let a1 = wallet.generate_address(Role::Wallet).expect("unlocked");
    let a2 = wallet.generate_address(Role::Wallet).expect("unlocked");
    assert_ne!(a1, a2);
    assert!(wallet.get_key(&Role::Wallet, &a1).is_some());
    assert!(wallet.get_key(&Role::Wallet, &a2).is_some());
    assert!(wallet.get_key(&Role::Mining, &a1).is_none());
    // Locking clears the keys.
    wallet.lock();
    assert!(wallet.get_key(&Role::Wallet, &a1).is_none());
}

#[test]
fn lease_issue_and_verify() {
    let seed = MasterSeed::from_bytes(vec![6u8; 32]);
    let role_key = derive_key(&seed, &Role::AI, 0).expect("derivable");
    let issuer_pk = public_key_for(&role_key.secret).expect("valid");
    let delegate_sk = vec![9u8; 32];
    let delegate_pk = public_key_for(&delegate_sk).expect("valid");
    let lease = KeyLease::issue(&role_key, &delegate_pk, LeaseScope::Mine, 1000).expect("issues");
    assert!(lease.verify(&issuer_pk, 500));
    // Expired leases fail.
    assert!(!lease.verify(&issuer_pk, 1001));
    // The wrong issuer key fails.
    assert!(!lease.verify(&delegate_pk, 500));
}

#[test]
fn multisig_quorum_and_timelock() {
    let sk1 = vec![11u8; 32];
    let sk2 = vec![12u8; 32];
    let sk3 = vec![13u8; 32];
    let pk1 = public_key_for(&sk1).unwrap();
    let pk2 = public_key_for(&sk2).unwrap();
    let pk3 = public_key_for(&sk3).unwrap();
    let policy = MultisigPolicy {
        role: Role::Governance,
        threshold: 2,
        signers: vec![pk1.clone(), pk2.clone()],
        timelock: Some(100),
    };
    assert!(policy.validate());
    assert!(policy.is_signer(&pk1));
    assert!(!policy.is_signer(&pk3));
    let payload = vec![1u8, 2, 3];
    let mut session = MultisigSession::new(policy, &payload);
    let digest = sha256(&payload);
    // A stranger's signature is refused.
    assert!(!session.add_signature(&pk3, sign_digest(&digest, &sk3).unwrap()));
    assert!(session.add_signature(&pk1, sign_digest(&digest, &sk1).unwrap()));
    // One signature is below quorum.
    assert!(!session.is_satisfied(200));
    assert!(!session.verify());
    assert!(session.add_signature(&pk2, sign_digest(&digest, &sk2).unwrap()));
    // Before the timelock nothing satisfies.
    assert!(!session.is_satisfied(50));
    assert!(session.is_satisfied(200));
    assert!(session.verify());
    // A policy with an unachievable quorum fails validation.
    let bad = MultisigPolicy { role: Role::Node, threshold: 3, signers: vec![pk1], timelock: None };
    assert!(!bad.validate());
}
