//! Node configuration: the legacy flat form with its defaults, and the
//! richer form derived from a parsed command line.

use vstd::prelude::*;
use vstd::string::StringExecFns;
use crate::cli::{Cli, Command};

verus! {

pub struct NodeConfig {
    pub bind_addr: String,
    pub peers: Vec<String>,
}

impl NodeConfig {
    /// The stock configuration: listen on every interface, no peers.
    pub fn default() -> (r: NodeConfig)
        ensures
            r.bind_addr@ == "0.0.0.0:8333"@,
            r.peers@.len() == 0,
    {
        NodeConfig { bind_addr: String::from_str("0.0.0.0:8333"), peers: Vec::new() }
    }
}

pub struct Config {
    pub network: String,
    pub datadir: String,
    pub p2p_port: u16,
    pub rpc_port: u16,
    pub role: String,
}

/// Builds the effective configuration from the parsed command line.
pub fn load(cli: &Cli) -> (r: Config)
    ensures
        ({
            match cli.command {
                Command::Start { network: ref n, datadir: ref d, p2p_port, rpc_port, role: ref ro } => {
                    &&& r.network@ == n@
                    &&& r.datadir@ == d@
                    &&& r.p2p_port == p2p_port
                    &&& r.rpc_port == rpc_port
                    &&& r.role@ == ro@
                },
            }
        }),
{
    match &cli.command {
        Command::Start { network, datadir, p2p_port, rpc_port, role } => Config {
            network: clone_string(network),
            datadir: clone_string(datadir),
            p2p_port: *p2p_port,
            rpc_port: *rpc_port,
            role: clone_string(role),
        },
    }
}

/// An owned copy of a string, equal to the original as a character
/// sequence.
pub fn clone_string(s: &String) -> (r: String)
    ensures
        r@ == s@,
{
    String::from_str(s.as_str())
}

} // verus!
