//! Wallet roles: each role owns a key-derivation domain string that
//! separates its keys from every other role's.

use vstd::prelude::*;
use vstd::string::{StringExecFns, StrSliceExecFns};

verus! {

pub enum Role {
    Wallet,
    Mining,
    Governance,
    Node,
    AI,
    Module(String),
}

/// The UTF-8 encoding of a character sequence, left abstract.
pub uninterp spec fn utf8_of(s: Seq<char>) -> Seq<u8>;

/// Relies on str::as_bytes: the UTF-8 bytes of a string are a function
/// of its characters alone.
#[verifier::external_body]
pub fn utf8_bytes(s: &str) -> (r: Vec<u8>)
    ensures
        r@ == utf8_of(s@),
{
    s.as_bytes().to_vec()
}

/// The derivation domain of a role, as characters.
pub open spec fn spec_domain(r: Role) -> Seq<char> {
    match r {
        Role::Wallet => "role:wallet"@,
        Role::Mining => "role:mining"@,
        Role::Governance => "role:governance"@,
        Role::Node => "role:node"@,
        Role::AI => "role:ai"@,
        Role::Module(name) => "role:module:"@ + name@,
    }
}

impl Clone for Role {
    fn clone(&self) -> (r: Self)
        ensures
            spec_domain(r) == spec_domain(*self),
    {
        match self {
            Role::Wallet => Role::Wallet,
            Role::Mining => Role::Mining,
            Role::Governance => Role::Governance,
            Role::Node => Role::Node,
            Role::AI => Role::AI,
            Role::Module(name) => Role::Module(crate::config::clone_string(name)),
        }
    }
}

impl Role {
    /// The role's key-derivation domain.
    pub fn as_domain(&self) -> (r: String)
        ensures
            r@ == spec_domain(*self),
    {
        match self {
            Role::Wallet => String::from_str("role:wallet"),
            Role::Mining => String::from_str("role:mining"),
            Role::Governance => String::from_str("role:governance"),
            Role::Node => String::from_str("role:node"),
            Role::AI => String::from_str("role:ai"),
            Role::Module(name) => {
                let mut s = String::from_str("role:module:");
                s.append(name.as_str());
                s
            },
        }
    }
}

} // verus!
