//! The wallet file: the encrypted seed together with its salt and
//! nonce, framed in a deterministic byte layout. Reading and writing the
//! file itself happens outside; this module only turns the record into
//! bytes and checks bytes back into the record.

use vstd::prelude::*;
use crate::encode::{u32_le, u64_le, encode_u32_le, encode_u64_le, clone_bytes};

verus! {

pub struct WalletFile {
    pub version: u32,
    pub encrypted_seed: Vec<u8>,
    pub salt: Vec<u8>,
    pub nonce: Vec<u8>,
}

#[verifier::ext_equal]
pub struct WalletFileView {
    pub version: u32,
    pub encrypted_seed: Seq<u8>,
    pub salt: Seq<u8>,
    pub nonce: Seq<u8>,
}

impl View for WalletFile {
    type V = WalletFileView;

    open spec fn view(&self) -> WalletFileView {
        WalletFileView {
            version: self.version,
            encrypted_seed: self.encrypted_seed@,
            salt: self.salt@,
            nonce: self.nonce@,
        }
    }
}

/// The file layout: version, then each field prefixed with its length.
pub open spec fn wallet_file_bytes(w: WalletFileView) -> Seq<u8> {
    u32_le(w.version) + u64_le(w.encrypted_seed.len() as u64) + w.encrypted_seed + u64_le(
        w.salt.len() as u64,
    ) + w.salt + u64_le(w.nonce.len() as u64) + w.nonce
}

pub fn encode_wallet_file(w: &WalletFile) -> (r: Vec<u8>)
    ensures
        r@ == wallet_file_bytes(w@),
{
    let mut out = encode_u32_le(w.version);
    let mut part = encode_u64_le(w.encrypted_seed.len() as u64);
    out.append(&mut part);
    let mut part = clone_bytes(&w.encrypted_seed);
    out.append(&mut part);
    let mut part = encode_u64_le(w.salt.len() as u64);
    out.append(&mut part);
    let mut part = clone_bytes(&w.salt);
    out.append(&mut part);
    let mut part = encode_u64_le(w.nonce.len() as u64);
    out.append(&mut part);
    let mut part = clone_bytes(&w.nonce);
    out.append(&mut part);
    proof {
        assert(out@ =~= wallet_file_bytes(w@));
    }
    out
}

fn read_u32_le(data: &Vec<u8>, pos: usize) -> (r: u32)
    requires
        pos + 4 <= data@.len(),
    ensures
        u32_le(r) == data@.subrange(pos as int, pos as int + 4),
{
    let total = data.len();
    proof {
        assert(pos + 4 <= total);
    }
    let b0 = data[pos] as u32;
    let b1 = data[pos + 1] as u32;
    let b2 = data[pos + 2] as u32;
    let b3 = data[pos + 3] as u32;
    let r = b0 | (b1 << 8) | (b2 << 16) | (b3 << 24);
    proof {
        assert(b0 < 256 && b1 < 256 && b2 < 256 && b3 < 256);
        assert((b0 | (b1 << 8) | (b2 << 16) | (b3 << 24)) & 0xff == b0 && ((b0 | (b1 << 8) | (b2
            << 16) | (b3 << 24)) >> 8) & 0xff == b1 && ((b0 | (b1 << 8) | (b2 << 16) | (b3 << 24))
            >> 16) & 0xff == b2 && ((b0 | (b1 << 8) | (b2 << 16) | (b3 << 24)) >> 24) & 0xff == b3)
            by (bit_vector)
            requires
                b0 < 256 && b1 < 256 && b2 < 256 && b3 < 256,
        ;
        assert(u32_le(r) =~= data@.subrange(pos as int, pos as int + 4));
    }
    r
}

fn read_u64_le(data: &Vec<u8>, pos: usize) -> (r: u64)
    requires
        pos + 8 <= data@.len(),
    ensures
        u64_le(r) == data@.subrange(pos as int, pos as int + 8),
{
    let total = data.len();
    proof {
        assert(pos + 8 <= total);
    }
    let b0 = data[pos] as u64;
    let b1 = data[pos + 1] as u64;
    let b2 = data[pos + 2] as u64;
    let b3 = data[pos + 3] as u64;
    let b4 = data[pos + 4] as u64;
    let b5 = data[pos + 5] as u64;
    let b6 = data[pos + 6] as u64;
    let b7 = data[pos + 7] as u64;
    let r = b0 | (b1 << 8) | (b2 << 16) | (b3 << 24) | (b4 << 32) | (b5 << 40) | (b6 << 48) | (b7
        << 56);
    proof {
        assert(b0 < 256 && b1 < 256 && b2 < 256 && b3 < 256 && b4 < 256 && b5 < 256 && b6 < 256
            && b7 < 256);
        assert({
            let x = b0 | (b1 << 8) | (b2 << 16) | (b3 << 24) | (b4 << 32) | (b5 << 40) | (b6 << 48)
                | (b7 << 56);
            x & 0xff == b0 && (x >> 8) & 0xff == b1 && (x >> 16) & 0xff == b2 && (x >> 24) & 0xff
                == b3 && (x >> 32) & 0xff == b4 && (x >> 40) & 0xff == b5 && (x >> 48) & 0xff == b6
                && (x >> 56) & 0xff == b7
        }) by (bit_vector)
            requires
                b0 < 256 && b1 < 256 && b2 < 256 && b3 < 256 && b4 < 256 && b5 < 256 && b6 < 256
                    && b7 < 256,
        ;
        assert(u64_le(r) =~= data@.subrange(pos as int, pos as int + 8));
    }
    r
}

fn read_slice(data: &Vec<u8>, pos: usize, n: usize) -> (r: Vec<u8>)
    requires
        pos + n <= data@.len(),
    ensures
        r@ == data@.subrange(pos as int, pos as int + n),
{
    let total = data.len();
    proof {
        assert(pos + n <= total);
    }
    let mut out: Vec<u8> = Vec::new();
    let mut i: usize = 0;
    while i < n
        invariant
            0 <= i <= n,
            pos + n <= data@.len(),
            total == data@.len(),
            out@ == data@.subrange(pos as int, pos as int + i),
        decreases n - i,
    {
        out.push(data[pos + i]);
        proof {
            assert(out@ =~= data@.subrange(pos as int, pos as int + i + 1));
        }
        i = i + 1;
    }
    out
}

/// Parses a wallet file. Whatever record comes back encodes to exactly
/// the bytes that went in: a successful parse cannot invent or drop
/// anything.
pub fn decode_wallet_file(data: &Vec<u8>) -> (r: Option<WalletFile>)
    ensures
        match r {
            Some(w) => data@ == wallet_file_bytes(w@),
            None => true,
        },
{
    let total = data.len();
    if total < 4 {
        return None;
    }
    let version = read_u32_le(data, 0);
    let mut pos: usize = 4;
    let seed = match read_field(data, pos) {
        Some(v) => v,
        None => {
            return None;
        },
    };
    pos = pos + 8 + seed.len();
    let salt = match read_field(data, pos) {
        Some(v) => v,
        None => {
            return None;
        },
    };
    pos = pos + 8 + salt.len();
    let nonce = match read_field(data, pos) {
        Some(v) => v,
        None => {
            return None;
        },
    };
    pos = pos + 8 + nonce.len();
    if pos != total {
        return None;
    }
    let w = WalletFile { version, encrypted_seed: seed, salt, nonce };
    proof {
        assert(data@ =~= wallet_file_bytes(w@));
    }
    Some(w)
}

/// Reads one length-prefixed field starting at `pos`.
fn read_field(data: &Vec<u8>, pos: usize) -> (r: Option<Vec<u8>>)
    ensures
        match r {
            Some(v) => pos + 8 + v@.len() <= data@.len() && u64_le(v@.len() as u64)
                == data@.subrange(pos as int, pos as int + 8) && v@ == data@.subrange(
                pos as int + 8,
                pos as int + 8 + v@.len(),
            ),
            None => true,
        },
{
    let total = data.len();
    if pos > total || total - pos < 8 {
        return None;
    }
    let len64 = read_u64_le(data, pos);
    if len64 > (total - pos - 8) as u64 {
        return None;
    }
    let n = len64 as usize;
    let v = read_slice(data, pos + 8, n);
    Some(v)
}

} // verus!
