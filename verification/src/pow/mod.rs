//! Proof of work: the compact difficulty encoding, its 256-bit target, the
//! comparable work metric, and header verification.

pub mod miner;
pub mod target;
pub mod verify;
pub mod work;
