//! Peer accounting: misbehaviour scores with temporary bans, and a
//! per-peer message rate limit.

pub mod ban;
pub mod rate;
