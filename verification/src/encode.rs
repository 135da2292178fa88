//! Byte-level helpers shared by the whole crate: little-endian integer
//! encodings, big-endian numeric interpretation of byte strings, and the
//! 32-byte zero sentinel used for the genesis parent and coinbase references.

use vstd::prelude::*;
use vstd::arithmetic::power2::{pow2, lemma_pow2_adds, lemma_pow2_pos};

verus! {

/// Little-endian encoding of a `u32`, least significant byte first.
pub open spec fn u32_le(x: u32) -> Seq<u8> {
    seq![
        (x & 0xff) as u8,
        ((x >> 8) & 0xff) as u8,
        ((x >> 16) & 0xff) as u8,
        ((x >> 24) & 0xff) as u8,
    ]
}

/// Little-endian encoding of a `u64`, least significant byte first.
pub open spec fn u64_le(x: u64) -> Seq<u8> {
    seq![
        (x & 0xff) as u8,
        ((x >> 8) & 0xff) as u8,
        ((x >> 16) & 0xff) as u8,
        ((x >> 24) & 0xff) as u8,
        ((x >> 32) & 0xff) as u8,
        ((x >> 40) & 0xff) as u8,
        ((x >> 48) & 0xff) as u8,
        ((x >> 56) & 0xff) as u8,
    ]
}

pub fn encode_u32_le(x: u32) -> (r: Vec<u8>)
    ensures
        r@ == u32_le(x),
{
    let mut v: Vec<u8> = Vec::new();
    v.push((x & 0xff) as u8);
    v.push(((x >> 8) & 0xff) as u8);
    v.push(((x >> 16) & 0xff) as u8);
    v.push(((x >> 24) & 0xff) as u8);
    proof {
        assert(v@ =~= u32_le(x));
    }
    v
}

pub fn encode_u64_le(x: u64) -> (r: Vec<u8>)
    ensures
        r@ == u64_le(x),
{
    let mut v: Vec<u8> = Vec::new();
    v.push((x & 0xff) as u8);
    v.push(((x >> 8) & 0xff) as u8);
    v.push(((x >> 16) & 0xff) as u8);
    v.push(((x >> 24) & 0xff) as u8);
    v.push(((x >> 32) & 0xff) as u8);
    v.push(((x >> 40) & 0xff) as u8);
    v.push(((x >> 48) & 0xff) as u8);
    v.push(((x >> 56) & 0xff) as u8);
    proof {
        assert(v@ =~= u64_le(x));
    }
    v
}

/// The value of a byte string read as a big-endian unsigned integer:
/// the first byte is the most significant one.
pub open spec fn be_value(s: Seq<u8>) -> nat
    decreases s.len(),
{
    if s.len() == 0 {
        0
    } else {
        (be_value(s.drop_last()) * 256 + s.last()) as nat
    }
}

pub proof fn lemma_be_value_bound(s: Seq<u8>)
    ensures
        be_value(s) < pow2(8 * s.len()),
    decreases s.len(),
{
    if s.len() == 0 {
        assert(pow2(0) == 1) by {
            lemma_pow2_pos(0);
            vstd::arithmetic::power2::lemma2_to64();
        }
    } else {
        lemma_be_value_bound(s.drop_last());
        lemma_pow2_adds(8 * (s.len() - 1) as nat, 8);
        assert(pow2(8) == 256) by {
            vstd::arithmetic::power2::lemma2_to64();
        }
        assert(be_value(s.drop_last()) * 256 + s.last() < pow2(8 * (s.len() - 1) as nat) * 256)
            by (nonlinear_arith)
            requires
                be_value(s.drop_last()) < pow2(8 * (s.len() - 1) as nat),
                s.last() < 256,
        ;
    }
}

pub proof fn lemma_be_value_append(a: Seq<u8>, b: Seq<u8>)
    ensures
        be_value(a + b) == be_value(a) * pow2(8 * b.len()) + be_value(b),
    decreases b.len(),
{
    if b.len() == 0 {
        assert(a + b =~= a);
        assert(pow2(0) == 1) by {
            vstd::arithmetic::power2::lemma2_to64();
        }
        assert(8 * b.len() == 0);
        assert(be_value(a) * pow2(0) == be_value(a));
        assert(be_value(a + b) == be_value(a) * pow2(8 * b.len()) + be_value(b));
    } else {
        let bdl = b.drop_last();
        let p = pow2(8 * bdl.len());
        lemma_be_value_append(a, bdl);
        assert((a + b).drop_last() =~= a + bdl);
        assert((a + b).last() == b.last());
        assert(be_value(a + b) == be_value(a + bdl) * 256 + b.last());
        lemma_pow2_adds(8 * bdl.len(), 8);
        vstd::arithmetic::power2::lemma2_to64();
        assert(pow2(8 * b.len()) == p * 256);
        assert((be_value(a) * p + be_value(bdl)) * 256 == be_value(a) * (p * 256) + be_value(bdl)
            * 256) by (nonlinear_arith);
        assert(be_value(b) == be_value(bdl) * 256 + b.last());
    }
}

pub proof fn lemma_be_single(x: u8)
    ensures
        be_value(seq![x]) == x,
{
    assert(seq![x].drop_last() =~= Seq::<u8>::empty());
    assert(seq![x].last() == x);
    assert(be_value(Seq::<u8>::empty()) == 0);
}

/// If two equally long byte strings agree up to position `i` and differ
/// there, the one with the smaller byte at `i` has the smaller value.
pub proof fn lemma_be_prefix_dominates(a: Seq<u8>, b: Seq<u8>, i: int)
    requires
        a.len() == b.len(),
        0 <= i < a.len(),
        a.subrange(0, i) == b.subrange(0, i),
        a[i] < b[i],
    ensures
        be_value(a) < be_value(b),
{
    let n = a.len() as int;
    let resta = a.subrange(i + 1, n);
    let restb = b.subrange(i + 1, n);
    assert(a =~= a.subrange(0, i) + (seq![a[i]] + resta));
    assert(b =~= b.subrange(0, i) + (seq![b[i]] + restb));
    lemma_be_value_append(a.subrange(0, i), seq![a[i]] + resta);
    lemma_be_value_append(b.subrange(0, i), seq![b[i]] + restb);
    lemma_be_value_append(seq![a[i]], resta);
    lemma_be_value_append(seq![b[i]], restb);
    lemma_be_value_bound(resta);
    lemma_be_value_bound(restb);
    lemma_be_single(a[i]);
    lemma_be_single(b[i]);
    let p = pow2(8 * resta.len());
    assert(a[i] * p + be_value(resta) < b[i] * p + be_value(restb)) by (nonlinear_arith)
        requires
            a[i] < b[i],
            be_value(resta) < p,
            0 <= be_value(restb),
    ;
    let q = pow2(8 * (seq![a[i]] + resta).len());
    assert(be_value(a.subrange(0, i)) * q + be_value(seq![a[i]] + resta) < be_value(
        b.subrange(0, i),
    ) * q + be_value(seq![b[i]] + restb)) by (nonlinear_arith)
        requires
            be_value(a.subrange(0, i)) == be_value(b.subrange(0, i)),
            be_value(seq![a[i]] + resta) < be_value(seq![b[i]] + restb),
            0 <= q,
    ;
}

/// Compares two equally long byte strings as big-endian numbers,
/// returning whether the first is less than or equal to the second.
pub fn be_le(a: &Vec<u8>, b: &Vec<u8>) -> (r: bool)
    requires
        a@.len() == b@.len(),
    ensures
        r == (be_value(a@) <= be_value(b@)),
{
    let n = a.len();
    let mut i: usize = 0;
    while i < n
        invariant
            0 <= i <= n,
            n == a@.len(),
            n == b@.len(),
            a@.subrange(0, i as int) =~= b@.subrange(0, i as int),
        decreases n - i,
    {
        if a[i] < b[i] {
            proof {
                lemma_be_prefix_dominates(a@, b@, i as int);
            }
            return true;
        }
        if a[i] > b[i] {
            proof {
                lemma_be_prefix_dominates(b@, a@, i as int);
            }
            return false;
        }
        proof {
            assert(a@.subrange(0, i + 1) =~= b@.subrange(0, i + 1));
        }
        i = i + 1;
    }
    proof {
        assert(a@.subrange(0, n as int) =~= a@);
        assert(b@.subrange(0, n as int) =~= b@);
        assert(a@ == b@);
    }
    true
}

/// An owned copy of a byte string.
pub fn clone_bytes(v: &Vec<u8>) -> (r: Vec<u8>)
    ensures
        r@ == v@,
{
    let n = v.len();
    let mut out: Vec<u8> = Vec::new();
    let mut i: usize = 0;
    while i < n
        invariant
            0 <= i <= n,
            n == v@.len(),
            out@ == v@.subrange(0, i as int),
        decreases n - i,
    {
        out.push(v[i]);
        proof {
            assert(out@ =~= v@.subrange(0, i + 1));
        }
        i = i + 1;
    }
    proof {
        assert(out@ =~= v@);
    }
    out
}

/// Byte-string equality, stated over the abstract sequences.
pub fn bytes_eq(a: &Vec<u8>, b: &Vec<u8>) -> (r: bool)
    ensures
        r == (a@ == b@),
{
    if a.len() != b.len() {
        return false;
    }
    let n = a.len();
    let mut i: usize = 0;
    while i < n
        invariant
            0 <= i <= n,
            n == a@.len(),
            n == b@.len(),
            forall|j: int| 0 <= j < i ==> a@[j] == b@[j],
        decreases n - i,
    {
        if a[i] != b[i] {
            return false;
        }
        i = i + 1;
    }
    proof {
        assert(a@ =~= b@);
    }
    true
}

/// The 32-byte zero string: the parent reference of the genesis block and
/// the transaction reference carried by every coinbase input.
pub open spec fn zero_hash() -> Seq<u8> {
    Seq::new(32, |i: int| 0u8)
}

pub fn make_zero_hash() -> (r: Vec<u8>)
    ensures
        r@ == zero_hash(),
{
    let mut v: Vec<u8> = Vec::new();
    let mut i: usize = 0;
    while i < 32
        invariant
            0 <= i <= 32,
            v@.len() == i,
            forall|j: int| 0 <= j < i ==> v@[j] == 0u8,
        decreases 32 - i,
    {
        v.push(0u8);
        i = i + 1;
    }
    proof {
        assert(v@ =~= zero_hash());
    }
    v
}

pub fn is_zero_hash(v: &Vec<u8>) -> (r: bool)
    ensures
        r == (v@ == zero_hash()),
{
    if v.len() != 32 {
        return false;
    }
    let mut i: usize = 0;
    while i < 32
        invariant
            0 <= i <= 32,
            v@.len() == 32,
            forall|j: int| 0 <= j < i ==> v@[j] == 0u8,
        decreases 32 - i,
    {
        if v[i] != 0u8 {
            return false;
        }
        i = i + 1;
    }
    proof {
        assert(v@ =~= zero_hash());
    }
    true
}

} // verus!
