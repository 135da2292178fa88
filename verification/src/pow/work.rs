//! The comparable work metric: a 128-bit value that is strictly decreasing
//! in the numeric target, so that "more work" and "smaller target" mean the
//! same thing. An all-zero target counts as infinite work.

use vstd::prelude::*;
use vstd::arithmetic::power2::{pow2, lemma_pow2_adds, lemma_pow2_pos, lemma_pow2_strictly_increases,
    lemma2_to64};
use crate::pow::target::{initial_mantissa, initial_shift, target_value, lemma_target_value};

verus! {

/// Byte-normalization of a mantissa and byte shift: shift the mantissa up
/// while it fits in two bytes and the shift can still come down. The
/// denoted value `m * 256^k` never changes.
pub open spec fn norm(m: u32, k: u32) -> (u32, u32)
    decreases k,
{
    if m < 0x10000 && k > 0 {
        norm(((m * 256) as u32), (k - 1) as u32)
    } else {
        (m, k)
    }
}

/// The value a mantissa and byte shift stand for.
pub open spec fn shifted_value(m: u32, k: u32) -> nat {
    (m * pow2((8 * k) as nat)) as nat
}

/// A normalized pair: either the shift is exhausted or the mantissa fills
/// its top byte.
pub open spec fn norm_form(m: u32, k: u32) -> bool {
    m < 0x100_0000 && k <= 28 && (k == 0 || m >= 0x10000)
}

/// The order-embedding of a normalized pair into the integers.
pub open spec fn rank(m: u32, k: u32) -> u128 {
    (k * 0x100_0000 + m) as u128
}

/// Strictly above every rank, so that finite works stay tiny against
/// `u128` and cumulative totals never saturate in practice.
pub const WORK_CEILING: u128 = 0x4000_0000;

/// The work a `bits` value stands for.
pub open spec fn work_of_bits(bits: u32) -> u128 {
    let m0 = initial_mantissa(bits);
    let k0 = initial_shift(bits);
    if m0 == 0 {
        u128::MAX
    } else {
        let (mn, kn) = norm(m0, k0);
        (WORK_CEILING - rank(mn, kn)) as u128
    }
}

pub proof fn lemma_initial_bounds(bits: u32)
    ensures
        initial_mantissa(bits) < 0x100_0000,
        initial_shift(bits) <= 28,
{
    let e = bits >> 24;
    let m = bits & 0x00ff_ffff;
    assert(m < 0x100_0000) by (bit_vector)
        requires
            m == bits & 0x00ff_ffff,
    ;
    assert(forall|x: u32, s: u32| #[trigger] (x >> s) <= x) by (bit_vector);
}

pub proof fn lemma_norm_props(m: u32, k: u32)
    requires
        0 < m < 0x100_0000,
        k <= 28,
    ensures
        norm_form(norm(m, k).0, norm(m, k).1),
        shifted_value(norm(m, k).0, norm(m, k).1) == shifted_value(m, k),
        norm(m, k).0 > 0,
    decreases k,
{
    if m < 0x10000 && k > 0 {
        lemma_norm_props(((m * 256) as u32), (k - 1) as u32);
        lemma_pow2_adds((8 * (k - 1)) as nat, 8);
        lemma2_to64();
        assert((m * 256) * pow2((8 * (k - 1)) as nat) == m * (pow2((8 * (k - 1)) as nat) * 256))
            by (nonlinear_arith);
    }
}

/// Normalized pairs compare by rank exactly as their values do.
pub proof fn lemma_rank_orders(m1: u32, k1: u32, m2: u32, k2: u32)
    requires
        norm_form(m1, k1),
        norm_form(m2, k2),
        m1 > 0,
        m2 > 0,
    ensures
        shifted_value(m1, k1) < shifted_value(m2, k2) <==> rank(m1, k1) < rank(m2, k2),
{
    lemma_pow2_pos((8 * k1) as nat);
    lemma_pow2_pos((8 * k2) as nat);
    if k1 == k2 {
        assert(m1 < m2 ==> m1 * pow2((8 * k1) as nat) < m2 * pow2((8 * k2) as nat))
            by (nonlinear_arith)
            requires
                k1 == k2,
                pow2((8 * k1) as nat) > 0,
                pow2((8 * k2) as nat) > 0,
        ;
        assert(m2 < m1 ==> m2 * pow2((8 * k2) as nat) < m1 * pow2((8 * k1) as nat))
            by (nonlinear_arith)
            requires
                k1 == k2,
                pow2((8 * k1) as nat) > 0,
                pow2((8 * k2) as nat) > 0,
        ;
    } else if k1 < k2 {
        lemma_value_gap(m1, k1, m2, k2);
        assert(rank(m1, k1) < rank(m2, k2));
    } else {
        lemma_value_gap(m2, k2, m1, k1);
        assert(rank(m2, k2) < rank(m1, k1));
    }
}

/// With a strictly smaller shift, the value is strictly smaller: the small
/// side is below `256^(k1+3)`, the large side at least `256^(k2+2)`.
proof fn lemma_value_gap(m1: u32, k1: u32, m2: u32, k2: u32)
    requires
        norm_form(m1, k1),
        norm_form(m2, k2),
        m1 > 0,
        m2 > 0,
        k1 < k2,
    ensures
        shifted_value(m1, k1) < shifted_value(m2, k2),
{
    lemma2_to64();
    lemma_pow2_adds((8 * k1) as nat, 24);
    lemma_pow2_adds((8 * k2) as nat, 16);
    lemma_pow2_pos((8 * k1) as nat);
    lemma_pow2_pos((8 * k2) as nat);
    assert(m1 * pow2((8 * k1) as nat) < 0x100_0000 * pow2((8 * k1) as nat)) by (nonlinear_arith)
        requires
            m1 < 0x100_0000,
            pow2((8 * k1) as nat) > 0,
    ;
    assert(0x100_0000 * pow2((8 * k1) as nat) == pow2((8 * k1 + 24) as nat));
    assert(pow2((8 * k2 + 16) as nat) == 0x10000 * pow2((8 * k2) as nat));
    assert(0x10000 * pow2((8 * k2) as nat) <= m2 * pow2((8 * k2) as nat)) by (nonlinear_arith)
        requires
            m2 >= 0x10000,
            pow2((8 * k2) as nat) > 0,
    ;
    if 8 * k1 + 24 < 8 * k2 + 16 {
        lemma_pow2_strictly_increases((8 * k1 + 24) as nat, (8 * k2 + 16) as nat);
    }
}

/// Estimates the work a difficulty encoding stands for: maximal for an
/// all-zero target, otherwise strictly decreasing in the target's value.
pub fn work_from_bits(bits: u32) -> (r: u128)
    ensures
        r == work_of_bits(bits),
{
    let e = bits >> 24;
    let m0 = bits & 0x00ff_ffff;
    let mut m: u32;
    let mut k: u32;
    if e <= 3 {
        m = m0 >> (8 * (3 - e));
        k = 0;
    } else if e <= 31 {
        m = m0;
        k = e - 3;
    } else {
        m = 0;
        k = 0;
    }
    if m == 0 {
        return u128::MAX;
    }
    proof {
        assert(m == initial_mantissa(bits));
        assert(k == initial_shift(bits));
        lemma_initial_bounds(bits);
    }
    while m < 0x10000 && k > 0
        invariant
            0 < m < 0x100_0000,
            k <= 28,
            norm(m, k) == norm(initial_mantissa(bits), initial_shift(bits)),
        decreases k,
    {
        m = m * 256;
        k = k - 1;
    }
    proof {
        lemma_norm_props(initial_mantissa(bits), initial_shift(bits));
        assert(rank(m, k) <= 28 * 0x100_0000 + 0xff_ffff);
    }
    WORK_CEILING - (k * 0x100_0000 + m) as u128
}

/// More work means a strictly smaller target and the other way round: for
/// any two difficulty encodings, the target of the first is numerically
/// below the target of the second exactly when the first stands for
/// strictly more work.
pub proof fn lemma_work_target_order(b1: u32, b2: u32)
    ensures
        target_value(b1) < target_value(b2) <==> work_of_bits(b1) > work_of_bits(b2),
{
    lemma_target_value(b1);
    lemma_target_value(b2);
    let m1 = initial_mantissa(b1);
    let k1 = initial_shift(b1);
    let m2 = initial_mantissa(b2);
    let k2 = initial_shift(b2);
    lemma_initial_bounds(b1);
    lemma_initial_bounds(b2);
    if m1 == 0 && m2 == 0 {
    } else if m1 == 0 {
        lemma_norm_props(m2, k2);
        let (mn2, kn2) = norm(m2, k2);
        assert(kn2 * 0x100_0000 >= 0) by (nonlinear_arith);
        assert(rank(mn2, kn2) >= 1);
        lemma_pow2_pos((8 * k2) as nat);
        assert(m2 * pow2((8 * k2) as nat) > 0) by (nonlinear_arith)
            requires
                m2 > 0,
                pow2((8 * k2) as nat) > 0,
        ;
        assert(rank(mn2, kn2) <= 28 * 0x100_0000 + 0xff_ffff);
    } else if m2 == 0 {
        lemma_norm_props(m1, k1);
        let (mn1, kn1) = norm(m1, k1);
        assert(kn1 * 0x100_0000 >= 0) by (nonlinear_arith);
        assert(rank(mn1, kn1) >= 1);
        lemma_pow2_pos((8 * k1) as nat);
        assert(m1 * pow2((8 * k1) as nat) > 0) by (nonlinear_arith)
            requires
                m1 > 0,
                pow2((8 * k1) as nat) > 0,
        ;
        assert(rank(mn1, kn1) <= 28 * 0x100_0000 + 0xff_ffff);
    } else {
        lemma_norm_props(m1, k1);
        lemma_norm_props(m2, k2);
        let (mn1, kn1) = norm(m1, k1);
        let (mn2, kn2) = norm(m2, k2);
        lemma_rank_orders(mn1, kn1, mn2, kn2);
        assert(rank(mn1, kn1) <= 28 * 0x100_0000 + 0xff_ffff);
        assert(rank(mn2, kn2) <= 28 * 0x100_0000 + 0xff_ffff);
        if rank(mn1, kn1) == rank(mn2, kn2) {
            assert(shifted_value(mn1, kn1) == shifted_value(mn2, kn2)) by {
                assert(kn1 == kn2 && mn1 == mn2) by (nonlinear_arith)
                    requires
                        rank(mn1, kn1) == rank(mn2, kn2),
                        mn1 < 0x100_0000,
                        mn2 < 0x100_0000,
                        kn1 <= 28,
                        kn2 <= 28,
                        rank(mn1, kn1) == kn1 * 0x100_0000 + mn1,
                        rank(mn2, kn2) == kn2 * 0x100_0000 + mn2,
                ;
            }
        }
    }
}

} // verus!
