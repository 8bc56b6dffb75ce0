//! IEEE-754 binary32 scalars, carried as raw bit patterns (`u32`).
//!
//! Arithmetic whose result depends on rounding (add, sub, mul, div, sqrt) is
//! delegated to the software float implementation in `const_soft_float`,
//! which is a port of the routines used by the Rust toolchain itself
//! (compiler-builtins and libm) and therefore computes exactly what hardware
//! IEEE-754 arithmetic computes.  Each such operation is named by an
//! uninterpreted spec function over bit patterns.
//!
//! Comparisons, absolute value, negation, min/max and clamping have short
//! exact definitions over the bit patterns; they are implemented here in
//! verified integer code.

use vstd::prelude::*;

verus! {

// ---------------------------------------------------------------------------
// Bit patterns of the constants the editor's geometry uses.
// ---------------------------------------------------------------------------

/// 0.0f32
pub const BITS_ZERO: u32 = 0x0000_0000;
/// 0.5f32
pub const BITS_HALF: u32 = 0x3F00_0000;
/// 1.0f32
pub const BITS_ONE: u32 = 0x3F80_0000;
/// 2.0f32
pub const BITS_TWO: u32 = 0x4000_0000;
/// 3.0f32
pub const BITS_THREE: u32 = 0x4040_0000;
/// 4.0f32
pub const BITS_FOUR: u32 = 0x4080_0000;
/// 8.0f32
pub const BITS_EIGHT: u32 = 0x4100_0000;
/// 10.0f32
pub const BITS_TEN: u32 = 0x4120_0000;
/// 18.0f32
pub const BITS_EIGHTEEN: u32 = 0x4190_0000;
/// 26.0f32
pub const BITS_TWENTY_SIX: u32 = 0x41D0_0000;
/// 140.0f32
pub const BITS_ONE_FORTY: u32 = 0x430C_0000;
/// 160.0f32
pub const BITS_ONE_SIXTY: u32 = 0x4320_0000;
/// 0.22f32
pub const BITS_CURVE_FACTOR: u32 = 0x3E61_47AE;
/// 0.50f32 (lower clamp of the pull-toward blend)
pub const BITS_PULL_LO: u32 = 0x3F00_0000;
/// 0.78f32 (upper clamp of the pull-toward blend)
pub const BITS_PULL_HI: u32 = 0x3F47_AE14;
/// 4.0f32 / 3.0f32, the through-midpoint cubic factor
pub const BITS_FOUR_THIRDS: u32 = 0x3FAA_AAAB;
/// 1e-6f32
pub const BITS_EPS_TINY: u32 = 0x3586_37BD;
/// 1e-3f32
pub const BITS_EPS_SMALL: u32 = 0x3A83_126F;
/// The machine epsilon of binary32 (2^-23)
pub const BITS_MACHINE_EPSILON: u32 = 0x3400_0000;

// ---------------------------------------------------------------------------
// Rounded arithmetic: names for the results, and trusted wrappers.
// ---------------------------------------------------------------------------

pub uninterp spec fn add_bits(a: u32, b: u32) -> u32;

pub uninterp spec fn sub_bits(a: u32, b: u32) -> u32;

pub uninterp spec fn mul_bits(a: u32, b: u32) -> u32;

pub uninterp spec fn div_bits(a: u32, b: u32) -> u32;

pub uninterp spec fn sqrt_bits(a: u32) -> u32;

/// Relies on const_soft_float's SoftF32::add (compiler-builtins port of
/// IEEE-754 addition): the sum depends on the two bit patterns alone.
#[verifier::external_body]
pub fn f32_add(a: u32, b: u32) -> (r: u32)
    ensures
        r == add_bits(a, b),
{
    const_soft_float::soft_f32::SoftF32::from_bits(a)
        .add(const_soft_float::soft_f32::SoftF32::from_bits(b))
        .to_bits()
}

/// Relies on const_soft_float's SoftF32::sub (compiler-builtins port of
/// IEEE-754 subtraction): the difference depends on the two bit patterns alone.
#[verifier::external_body]
pub fn f32_sub(a: u32, b: u32) -> (r: u32)
    ensures
        r == sub_bits(a, b),
{
    const_soft_float::soft_f32::SoftF32::from_bits(a)
        .sub(const_soft_float::soft_f32::SoftF32::from_bits(b))
        .to_bits()
}

/// Relies on const_soft_float's SoftF32::mul (compiler-builtins port of
/// IEEE-754 multiplication): the product depends on the two bit patterns alone.
#[verifier::external_body]
pub fn f32_mul(a: u32, b: u32) -> (r: u32)
    ensures
        r == mul_bits(a, b),
{
    const_soft_float::soft_f32::SoftF32::from_bits(a)
        .mul(const_soft_float::soft_f32::SoftF32::from_bits(b))
        .to_bits()
}

/// Relies on const_soft_float's SoftF32::div (compiler-builtins port of
/// IEEE-754 division): the quotient depends on the two bit patterns alone.
#[verifier::external_body]
pub fn f32_div(a: u32, b: u32) -> (r: u32)
    ensures
        r == div_bits(a, b),
{
    const_soft_float::soft_f32::SoftF32::from_bits(a)
        .div(const_soft_float::soft_f32::SoftF32::from_bits(b))
        .to_bits()
}

/// Relies on const_soft_float's SoftF32::sqrt (libm's correctly rounded
/// sqrtf): the root depends on the bit pattern alone.
#[verifier::external_body]
pub fn f32_sqrt(a: u32) -> (r: u32)
    ensures
        r == sqrt_bits(a),
{
    const_soft_float::soft_f32::SoftF32::from_bits(a).sqrt().to_bits()
}

// ---------------------------------------------------------------------------
// Exact bit-level operations (verified).
// ---------------------------------------------------------------------------

/// A binary32 value is NaN when its exponent field is all ones and its
/// mantissa field is non-zero.
pub open spec fn is_nan_bits(a: u32) -> bool {
    (a & 0x7F80_0000) == 0x7F80_0000 && (a & 0x007F_FFFF) != 0
}

/// Sign-magnitude ordering key: negative values map to the negated
/// magnitude, so that the keys of -0.0 and +0.0 coincide at zero.
pub open spec fn cmp_key_bits(a: u32) -> int {
    if a >= 0x8000_0000 {
        -((a & 0x7FFF_FFFF) as int)
    } else {
        (a & 0x7FFF_FFFF) as int
    }
}

/// IEEE-754 `<`: false when either operand is NaN.
pub open spec fn lt_bits(a: u32, b: u32) -> bool {
    !is_nan_bits(a) && !is_nan_bits(b) && cmp_key_bits(a) < cmp_key_bits(b)
}

/// IEEE-754 `<=`: false when either operand is NaN.
pub open spec fn le_bits(a: u32, b: u32) -> bool {
    !is_nan_bits(a) && !is_nan_bits(b) && cmp_key_bits(a) <= cmp_key_bits(b)
}

/// Minimum with the NaN behaviour of f32::min: a NaN operand yields the
/// other operand.
pub open spec fn min_bits(a: u32, b: u32) -> u32 {
    if is_nan_bits(a) {
        b
    } else if is_nan_bits(b) {
        a
    } else if lt_bits(b, a) {
        b
    } else {
        a
    }
}

/// Maximum with the NaN behaviour of f32::max: a NaN operand yields the
/// other operand.
pub open spec fn max_bits(a: u32, b: u32) -> u32 {
    if is_nan_bits(a) {
        b
    } else if is_nan_bits(b) {
        a
    } else if lt_bits(a, b) {
        b
    } else {
        a
    }
}

/// Absolute value: clear the sign bit.
pub open spec fn abs_bits(a: u32) -> u32 {
    a & 0x7FFF_FFFF
}

/// Negation: flip the sign bit.
pub open spec fn neg_bits(a: u32) -> u32 {
    a ^ 0x8000_0000
}

/// Clamp with the branch order of f32::clamp: below the low bound gives the
/// low bound, above the high bound gives the high bound, anything else
/// (NaN included) passes through.
pub open spec fn clamp_bits(x: u32, lo: u32, hi: u32) -> u32 {
    if lt_bits(x, lo) {
        lo
    } else if lt_bits(hi, x) {
        hi
    } else {
        x
    }
}

pub fn f32_is_nan(a: u32) -> (r: bool)
    ensures
        r == is_nan_bits(a),
{
    (a & 0x7F80_0000) == 0x7F80_0000 && (a & 0x007F_FFFF) != 0
}

fn f32_cmp_key(a: u32) -> (r: i64)
    ensures
        r as int == cmp_key_bits(a),
{
    let mag = (a & 0x7FFF_FFFF) as i64;
    if a >= 0x8000_0000 {
        -mag
    } else {
        mag
    }
}

pub fn f32_lt(a: u32, b: u32) -> (r: bool)
    ensures
        r == lt_bits(a, b),
{
    !f32_is_nan(a) && !f32_is_nan(b) && f32_cmp_key(a) < f32_cmp_key(b)
}

pub fn f32_le(a: u32, b: u32) -> (r: bool)
    ensures
        r == le_bits(a, b),
{
    !f32_is_nan(a) && !f32_is_nan(b) && f32_cmp_key(a) <= f32_cmp_key(b)
}

pub fn f32_min(a: u32, b: u32) -> (r: u32)
    ensures
        r == min_bits(a, b),
{
    if f32_is_nan(a) {
        b
    } else if f32_is_nan(b) {
        a
    } else if f32_lt(b, a) {
        b
    } else {
        a
    }
}

pub fn f32_max(a: u32, b: u32) -> (r: u32)
    ensures
        r == max_bits(a, b),
{
    if f32_is_nan(a) {
        b
    } else if f32_is_nan(b) {
        a
    } else if f32_lt(a, b) {
        b
    } else {
        a
    }
}

pub fn f32_abs(a: u32) -> (r: u32)
    ensures
        r == abs_bits(a),
{
    a & 0x7FFF_FFFF
}

pub fn f32_neg(a: u32) -> (r: u32)
    ensures
        r == neg_bits(a),
{
    a ^ 0x8000_0000
}

pub fn f32_clamp(x: u32, lo: u32, hi: u32) -> (r: u32)
    ensures
        r == clamp_bits(x, lo, hi),
{
    if f32_lt(x, lo) {
        lo
    } else if f32_lt(hi, x) {
        hi
    } else {
        x
    }
}

// ---------------------------------------------------------------------------
// Exact conversion of a small integer to binary32 (verified).
// ---------------------------------------------------------------------------

/// Position of the most significant set bit (0 for inputs 0 and 1).
pub open spec fn msb_pos(i: nat) -> nat
    decreases i,
{
    if i < 2 {
        0
    } else {
        1 + msb_pos(i / 2)
    }
}

/// The binary32 encoding of a small non-negative integer.  Integers below
/// 2^23 have an exact encoding: biased exponent 127 + msb, mantissa the
/// remaining bits shifted into place.
pub open spec fn int_to_bits(i: u32) -> u32
    recommends
        i < 0x0080_0000,
{
    if i == 0 {
        0u32
    } else {
        (((127 + msb_pos(i as nat)) as u32) << 23u32) | ((i << ((
        23 - msb_pos(i as nat)) as u32)) & 0x007F_FFFF)
    }
}

pub open spec fn pow2_nat(p: nat) -> nat
    decreases p,
{
    if p == 0 {
        1
    } else {
        2 * pow2_nat((p - 1) as nat)
    }
}

/// An integer below 2^(k+1) has its most significant bit at position k or
/// lower.
proof fn lemma_msb_pos_le(i: nat, k: nat)
    requires
        i < pow2_nat(k + 1),
    ensures
        msb_pos(i) <= k,
    decreases k,
{
    if i >= 2 {
        assert(pow2_nat(k + 1) == 2 * pow2_nat(k));
        assert(k >= 1) by {
            if k == 0 {
                assert(pow2_nat(1) == 2);
            }
        }
        lemma_msb_pos_le(i / 2, (k - 1) as nat);
    }
}

proof fn lemma_msb_pos_bound(i: nat)
    requires
        i < 0x0080_0000,
    ensures
        msb_pos(i) <= 22,
{
    assert(pow2_nat(23) == 0x0080_0000) by {
        reveal_with_fuel(pow2_nat, 24);
    }
    lemma_msb_pos_le(i, 22);
}

/// Exact binary32 encoding of an integer below 2^23.
pub fn u32_to_f32_bits(i: u32) -> (r: u32)
    requires
        i < 0x0080_0000,
    ensures
        r == int_to_bits(i),
{
    if i == 0 {
        return 0;
    }
    let mut m: u32 = i;
    let mut p: u32 = 0;
    while m >= 2
        invariant
            1 <= m,
            m <= i,
            p <= 22,
            i < 0x0080_0000,
            msb_pos(i as nat) == p + msb_pos(m as nat),
        decreases m,
    {
        proof {
            lemma_msb_pos_bound(i as nat);
            assert(msb_pos(m as nat) >= 1);
        }
        m = m / 2;
        p = p + 1;
    }
    assert(msb_pos(i as nat) == p);
    proof {
        lemma_msb_pos_bound(i as nat);
    }
    ((127 + p) << 23u32) | ((i << (23 - p)) & 0x007F_FFFF)
}

} // verus!
