//! Header verification: the content hash must not exceed the target that
//! the header's own difficulty bits denote.

use vstd::prelude::*;
use crate::chain::hash::{hash_header, hash_of_header};
use crate::chain::header::{BlockHeader, HeaderView};
use crate::encode::{be_value, be_le};
use crate::pow::target::{bits_to_target, target_value};

verus! {

/// The proof-of-work condition: the header's hash, read as a big-endian
/// number, is at most the target encoded by its bits.
pub open spec fn pow_ok(h: HeaderView) -> bool {
    be_value(hash_of_header(h)) <= target_value(h.bits)
}

pub fn verify_pow(header: &BlockHeader) -> (r: bool)
    ensures
        r == pow_ok(header@),
{
    let hash = hash_header(header);
    let target = bits_to_target(header.bits);
    be_le(&hash, &target)
}

} // verus!
