//! The wallet: master seed, role-scoped key derivation, addresses,
//! encrypted persistence, key leases and multisig policies.

pub mod address;
pub mod crypto;
pub mod delegation;
pub mod derive;
pub mod multisig;
pub mod persist;
pub mod role;
pub mod seed;
pub mod store;
