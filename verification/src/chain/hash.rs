//! Block identity: the digest of the header's wire encoding. This value is
//! both the key under which a block is stored and the proof-of-work input.

use vstd::prelude::*;
use crate::chain::header::{BlockHeader, HeaderView, header_bytes, encode_header};
use crate::digest::{sha256, sha256_of};

verus! {

pub open spec fn hash_of_header(h: HeaderView) -> Seq<u8> {
    sha256_of(header_bytes(h))
}

pub fn hash_header(header: &BlockHeader) -> (r: Vec<u8>)
    ensures
        r@ == hash_of_header(header@),
        r@.len() == 32,
{
    let encoded = encode_header(header);
    sha256(&encoded)
}

} // verus!
