//! The parsed command line as plain data. Argument parsing itself is
//! I/O-facing and lives outside the library; what arrives here are the
//! values a node starts from.

use vstd::prelude::*;

verus! {

pub struct Cli {
    pub command: Command,
}

pub enum Command {
    Start {
        network: String,
        datadir: String,
        p2p_port: u16,
        rpc_port: u16,
        role: String,
    },
}

} // verus!
