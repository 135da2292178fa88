//! The block header: the fixed-field record whose content hash is the
//! block's identity and the proof-of-work input.

use vstd::prelude::*;
use crate::encode::{u32_le, u64_le, encode_u32_le, encode_u64_le, clone_bytes};

verus! {

pub struct BlockHeader {
    pub version: u32,
    pub prev_hash: Vec<u8>,
    pub merkle_root: Vec<u8>,
    pub timestamp: u64,
    pub bits: u32,
    pub nonce: u64,
}

#[verifier::ext_equal]
pub struct HeaderView {
    pub version: u32,
    pub prev_hash: Seq<u8>,
    pub merkle_root: Seq<u8>,
    pub timestamp: u64,
    pub bits: u32,
    pub nonce: u64,
}

impl View for BlockHeader {
    type V = HeaderView;

    open spec fn view(&self) -> HeaderView {
        HeaderView {
            version: self.version,
            prev_hash: self.prev_hash@,
            merkle_root: self.merkle_root@,
            timestamp: self.timestamp,
            bits: self.bits,
            nonce: self.nonce,
        }
    }
}

impl Clone for BlockHeader {
    fn clone(&self) -> (r: Self)
        ensures
            r@ == self@,
    {
        BlockHeader {
            version: self.version,
            prev_hash: clone_bytes(&self.prev_hash),
            merkle_root: clone_bytes(&self.merkle_root),
            timestamp: self.timestamp,
            bits: self.bits,
            nonce: self.nonce,
        }
    }
}

/// The versioned wire encoding of a header: version, parent hash, merkle
/// root, timestamp, bits, nonce, each in little-endian order. Any change to
/// this layout changes every block hash and must bump the version field.
pub open spec fn header_bytes(h: HeaderView) -> Seq<u8> {
    u32_le(h.version) + h.prev_hash + h.merkle_root + u64_le(h.timestamp) + u32_le(h.bits)
        + u64_le(h.nonce)
}

pub fn encode_header(h: &BlockHeader) -> (r: Vec<u8>)
    ensures
        r@ == header_bytes(h@),
{
    let mut out = encode_u32_le(h.version);
    let mut part = clone_bytes(&h.prev_hash);
    out.append(&mut part);
    let mut part = clone_bytes(&h.merkle_root);
    out.append(&mut part);
    let mut part = encode_u64_le(h.timestamp);
    out.append(&mut part);
    let mut part = encode_u32_le(h.bits);
    out.append(&mut part);
    let mut part = encode_u64_le(h.nonce);
    out.append(&mut part);
    proof {
        assert(out@ =~= header_bytes(h@));
    }
    out
}

} // verus!
