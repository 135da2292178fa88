//! The compact difficulty encoding: `bits` packs an 8-bit exponent and a
//! 24-bit mantissa into four bytes; the target is the mantissa placed at a
//! byte offset given by the exponent inside a 32-byte buffer.

use vstd::prelude::*;
use vstd::arithmetic::power2::pow2;
use crate::encode::{be_value, lemma_be_value_append};

verus! {

/// The four big-endian bytes of a 32-bit value.
pub open spec fn be4(v: u32) -> Seq<u8> {
    seq![((v >> 24) & 0xff) as u8, ((v >> 16) & 0xff) as u8, ((v >> 8) & 0xff) as u8, (v
        & 0xff) as u8]
}

/// The mantissa after the exponent has been applied: shifted down for
/// exponents of three or less, unchanged while the placement stays inside
/// the buffer, zero once it would fall off.
pub open spec fn initial_mantissa(bits: u32) -> u32 {
    let e = bits >> 24;
    let m = bits & 0x00ff_ffff;
    if e <= 3 {
        m >> (8 * (3 - e))
    } else if e <= 31 {
        m
    } else {
        0
    }
}

/// How many whole bytes the mantissa is shifted up.
pub open spec fn initial_shift(bits: u32) -> u32 {
    let e = bits >> 24;
    if 4 <= e && e <= 31 {
        (e - 3) as u32
    } else {
        0
    }
}

/// The 32-byte target a valid block hash must not exceed.
pub open spec fn target_bytes(bits: u32) -> Seq<u8> {
    let e = bits >> 24;
    let m = bits & 0x00ff_ffff;
    if e <= 3 {
        Seq::new(28, |i: int| 0u8) + be4(m >> (8 * (3 - e)))
    } else if e <= 31 {
        let start = (31 - e) as int;
        Seq::new(start as nat, |i: int| 0u8) + be4(m) + Seq::new((28 - start) as nat, |i: int| 0u8)
    } else {
        Seq::new(32, |i: int| 0u8)
    }
}

/// The target read as a number.
pub open spec fn target_value(bits: u32) -> nat {
    be_value(target_bytes(bits))
}

proof fn lemma_be_value_zeros(n: nat)
    ensures
        be_value(Seq::new(n, |i: int| 0u8)) == 0,
    decreases n,
{
    if n > 0 {
        assert(Seq::new(n, |i: int| 0u8).drop_last() =~= Seq::new((n - 1) as nat, |i: int| 0u8));
        lemma_be_value_zeros((n - 1) as nat);
    }
}

proof fn lemma_be4_value(v: u32)
    ensures
        be_value(be4(v)) == v,
{
    let s = be4(v);
    assert(((v >> 24) & 0xff) < 256 && ((v >> 16) & 0xff) < 256 && ((v >> 8) & 0xff) < 256 && (v
        & 0xff) < 256) by (bit_vector);
    let b0 = ((v >> 24) & 0xff) as u8;
    let b1 = ((v >> 16) & 0xff) as u8;
    let b2 = ((v >> 8) & 0xff) as u8;
    let b3 = (v & 0xff) as u8;
    crate::encode::lemma_be_single(b0);
    assert(seq![b0, b1].drop_last() =~= seq![b0]);
    assert(seq![b0, b1].last() == b1);
    assert(be_value(seq![b0, b1]) == b0 * 256 + b1);
    assert(seq![b0, b1, b2].drop_last() =~= seq![b0, b1]);
    assert(seq![b0, b1, b2].last() == b2);
    assert(be_value(seq![b0, b1, b2]) == (b0 * 256 + b1) * 256 + b2);
    assert(s.drop_last() =~= seq![b0, b1, b2]);
    assert(s.last() == b3);
    assert(be_value(s) == ((b0 * 256 + b1) * 256 + b2) * 256 + b3);
    assert((((((v >> 24) & 0xff) * 256 + ((v >> 16) & 0xff)) * 256 + ((v >> 8) & 0xff)) * 256 + (v
        & 0xff)) == v) by (bit_vector);
}

/// The numeric reading of the target: the placed mantissa times 256 to the
/// power of the byte shift.
pub proof fn lemma_target_value(bits: u32)
    ensures
        target_value(bits) == initial_mantissa(bits) * pow2((8 * initial_shift(bits)) as nat),
        target_value(bits) == 0 <==> initial_mantissa(bits) == 0,
{
    let e = bits >> 24;
    let m = bits & 0x00ff_ffff;
    vstd::arithmetic::power2::lemma2_to64();
    vstd::arithmetic::power2::lemma_pow2_pos((8 * initial_shift(bits)) as nat);
    if e <= 3 {
        let v = m >> (8 * (3 - e));
        lemma_be_value_zeros(28);
        lemma_be_value_append(Seq::new(28, |i: int| 0u8), be4(v));
        lemma_be4_value(v);
        assert(target_value(bits) == 0 * pow2(8 * 4) + v);
        assert(initial_mantissa(bits) * pow2(0) == v);
    } else if e <= 31 {
        let start = (31 - e) as int;
        let k = initial_shift(bits);
        assert(8 * ((28 - start) as nat) == 8 * k);
        lemma_be_value_zeros(start as nat);
        lemma_be_value_zeros((28 - start) as nat);
        lemma_be4_value(m);
        let front = Seq::new(start as nat, |i: int| 0u8) + be4(m);
        lemma_be_value_append(Seq::new(start as nat, |i: int| 0u8), be4(m));
        assert(be_value(front) == m);
        lemma_be_value_append(front, Seq::new((28 - start) as nat, |i: int| 0u8));
        assert(target_bytes(bits) == front + Seq::new((28 - start) as nat, |i: int| 0u8));
        assert(target_value(bits) == m * pow2((8 * k) as nat));
        assert(m == 0 ==> m * pow2((8 * k) as nat) == 0);
        assert(m != 0 ==> m * pow2((8 * k) as nat) >= pow2((8 * k) as nat) > 0) by (nonlinear_arith)
            requires
                pow2((8 * k) as nat) > 0,
        ;
    } else {
        lemma_be_value_zeros(32);
    }
}

/// Expands the compact `bits` encoding into the 32-byte target buffer.
pub fn bits_to_target(bits: u32) -> (r: Vec<u8>)
    ensures
        r@ == target_bytes(bits),
        r@.len() == 32,
{
    let e = bits >> 24;
    let m = bits & 0x00ff_ffff;
    let mut out: Vec<u8> = Vec::new();
    if e <= 3 {
        let v = m >> (8 * (3 - e));
        let mut i: usize = 0;
        while i < 28
            invariant
                0 <= i <= 28,
                out@.len() == i,
                forall|j: int| 0 <= j < i ==> out@[j] == 0u8,
            decreases 28 - i,
        {
            out.push(0u8);
            i = i + 1;
        }
        out.push(((v >> 24) & 0xff) as u8);
        out.push(((v >> 16) & 0xff) as u8);
        out.push(((v >> 8) & 0xff) as u8);
        out.push((v & 0xff) as u8);
        proof {
            assert(out@ =~= Seq::new(28, |i: int| 0u8) + be4(v));
        }
    } else if e <= 31 {
        let start = (31 - e) as usize;
        let mut i: usize = 0;
        while i < start
            invariant
                0 <= i <= start,
                out@.len() == i,
                forall|j: int| 0 <= j < i ==> out@[j] == 0u8,
            decreases start - i,
        {
            out.push(0u8);
            i = i + 1;
        }
        out.push(((m >> 24) & 0xff) as u8);
        out.push(((m >> 16) & 0xff) as u8);
        out.push(((m >> 8) & 0xff) as u8);
        out.push((m & 0xff) as u8);
        proof {
            assert(out@.subrange(start as int, start + 4) =~= be4(bits & 0x00ff_ffff));
        }
        let mut i: usize = 0;
        let rest = 28 - start;
        while i < rest
            invariant
                0 <= i <= rest,
                out@.len() == start + 4 + i,
                forall|j: int| 0 <= j < start ==> out@[j] == 0u8,
                out@.subrange(start as int, start + 4) == be4(bits & 0x00ff_ffff),
                forall|j: int| start + 4 <= j < start + 4 + i ==> out@[j] == 0u8,
            decreases rest - i,
        {
            let ghost pre = out@;
            out.push(0u8);
            proof {
                assert(out@.subrange(start as int, start + 4) =~= pre.subrange(
                    start as int,
                    start + 4,
                ));
            }
            i = i + 1;
        }
        proof {
            assert(out@ =~= Seq::new((31 - e) as nat, |i: int| 0u8) + be4(m) + Seq::new(
                (28 - (31 - e) as int) as nat,
                |i: int| 0u8,
            ));
        }
    } else {
        let mut i: usize = 0;
        while i < 32
            invariant
                0 <= i <= 32,
                out@.len() == i,
                forall|j: int| 0 <= j < i ==> out@[j] == 0u8,
            decreases 32 - i,
        {
            out.push(0u8);
            i = i + 1;
        }
        proof {
            assert(out@ =~= Seq::new(32, |i: int| 0u8));
        }
    }
    out
}

} // verus!
