//! Buffers for blocks and transactions whose dependencies have not
//! arrived yet, with size caps and time-to-live eviction.

pub mod block;
pub mod tx;
