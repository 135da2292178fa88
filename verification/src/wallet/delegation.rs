//! Key leases: a role key signs a statement delegating a scope of
//! authority to another key until an expiry time.

use vstd::prelude::*;
use crate::chain::sign::{valid_secret_key, secret_key_ok, ecdsa_sign, ecdsa_check, ecdsa_sig_of,
    ecdsa_valid, pubkey_of};
use crate::digest::{sha256, sha256_of};
use crate::encode::{u64_le, encode_u64_le, clone_bytes};
use crate::wallet::derive::DerivedKey;
use crate::wallet::role::{Role, spec_domain, utf8_of, utf8_bytes};

verus! {

pub enum LeaseScope {
    Spend { max_amount: u64 },
    Mine,
    Vote,
    Custom(String),
}

pub struct KeyLease {
    pub role: Role,
    pub lease_pubkey: Vec<u8>,
    pub scope: LeaseScope,
    /// Unix timestamp after which the lease is void.
    pub expiry: u64,
    /// Signature of the role key over the lease statement.
    pub issuer_sig: Vec<u8>,
}

/// The canonical encoding of a scope: a tag byte, then its payload.
pub open spec fn scope_bytes(s: LeaseScope) -> Seq<u8> {
    match s {
        LeaseScope::Spend { max_amount } => seq![0u8] + u64_le(max_amount),
        LeaseScope::Mine => seq![1u8],
        LeaseScope::Vote => seq![2u8],
        LeaseScope::Custom(name) => seq![3u8] + utf8_of(name@),
    }
}

pub fn encode_scope(s: &LeaseScope) -> (r: Vec<u8>)
    ensures
        r@ == scope_bytes(*s),
{
    let mut out: Vec<u8> = Vec::new();
    match s {
        LeaseScope::Spend { max_amount } => {
            out.push(0u8);
            let mut part = encode_u64_le(*max_amount);
            out.append(&mut part);
        },
        LeaseScope::Mine => {
            out.push(1u8);
        },
        LeaseScope::Vote => {
            out.push(2u8);
        },
        LeaseScope::Custom(name) => {
            out.push(3u8);
            let mut part = utf8_bytes(name.as_str());
            out.append(&mut part);
        },
    }
    proof {
        assert(out@ =~= scope_bytes(*s));
    }
    out
}

/// The hash the issuer signs: domain, delegate key, scope, expiry.
pub open spec fn lease_payload_of(
    domain: Seq<char>,
    lease_pubkey: Seq<u8>,
    scope: LeaseScope,
    expiry: u64,
) -> Seq<u8> {
    sha256_of(utf8_of(domain) + lease_pubkey + scope_bytes(scope) + u64_le(expiry))
}

fn lease_payload(role: &Role, lease_pubkey: &Vec<u8>, scope: &LeaseScope, expiry: u64) -> (r: Vec<
    u8,
>)
    ensures
        r@ == lease_payload_of(spec_domain(*role), lease_pubkey@, *scope, expiry),
        r@.len() == 32,
{
    let domain = role.as_domain();
    let mut data = utf8_bytes(domain.as_str());
    let mut part = clone_bytes(lease_pubkey);
    data.append(&mut part);
    let mut part = encode_scope(scope);
    data.append(&mut part);
    let mut part = encode_u64_le(expiry);
    data.append(&mut part);
    proof {
        assert(data@ =~= utf8_of(spec_domain(*role)) + lease_pubkey@ + scope_bytes(*scope) + u64_le(
            expiry,
        ));
    }
    sha256(&data)
}

impl KeyLease {
    /// A role key issues a lease over `scope` to `lease_pubkey` until
    /// `expiry`. The signature in any lease returned verifies under the
    /// issuer's public key.
    pub fn issue(
        role_key: &DerivedKey,
        lease_pubkey: &Vec<u8>,
        scope: LeaseScope,
        expiry: u64,
    ) -> (r: Option<KeyLease>)
        ensures
            match r {
                Some(l) => {
                    &&& valid_secret_key(role_key.secret@)
                    &&& spec_domain(l.role) == spec_domain(role_key.role)
                    &&& l.lease_pubkey@ == lease_pubkey@
                    &&& l.expiry == expiry
                    &&& l.issuer_sig@ == ecdsa_sig_of(
                        lease_payload_of(
                            spec_domain(role_key.role),
                            lease_pubkey@,
                            l.scope,
                            expiry,
                        ),
                        role_key.secret@,
                    )
                    &&& ecdsa_valid(
                        lease_payload_of(
                            spec_domain(role_key.role),
                            lease_pubkey@,
                            l.scope,
                            expiry,
                        ),
                        l.issuer_sig@,
                        pubkey_of(role_key.secret@),
                    )
                },
                None => !valid_secret_key(role_key.secret@),
            },
    {
        if !secret_key_ok(&role_key.secret) {
            return None;
        }
        let payload = lease_payload(&role_key.role, lease_pubkey, &scope, expiry);
        let sig = ecdsa_sign(&payload, &role_key.secret);
        Some(
            KeyLease {
                role: role_key.role.clone(),
                lease_pubkey: clone_bytes(lease_pubkey),
                scope,
                expiry,
                issuer_sig: sig,
            },
        )
    }

    /// Checks the lease against the issuing role's public key at time
    /// `now`: live and carrying a signature that verifies over its own
    /// statement.
    pub fn verify(&self, role_pubkey: &Vec<u8>, now: u64) -> (r: bool)
        ensures
            r == (now <= self.expiry && ecdsa_valid(
                lease_payload_of(
                    spec_domain(self.role),
                    self.lease_pubkey@,
                    self.scope,
                    self.expiry,
                ),
                self.issuer_sig@,
                role_pubkey@,
            )),
    {
        if now > self.expiry {
            return false;
        }
        let payload = lease_payload(&self.role, &self.lease_pubkey, &self.scope, self.expiry);
        ecdsa_check(&payload, &self.issuer_sig, role_pubkey)
    }
}

} // verus!
