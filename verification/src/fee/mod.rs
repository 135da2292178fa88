//! Fee estimation from recent blocks and the current mempool.

pub mod estimator;
