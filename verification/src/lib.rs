pub mod encode;
pub mod digest;
pub mod keyed_map;
pub mod chain;
pub mod pow;
pub mod net;
pub mod cli;
pub mod config;
pub mod mempool;
pub mod fee;
pub mod orphan;
pub mod wallet;
