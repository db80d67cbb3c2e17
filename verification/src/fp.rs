//! IEEE-754 binary64 values modelled by their bit patterns.
//!
//! A `u64` holds the bit pattern of one binary64 value. Classification
//! (NaN, infinity, zero), canonicalization for hashing, and ordering
//! comparisons are pure bit logic and are verified here. Rounded
//! arithmetic (add, mul, div, sqrt) is delegated to a software
//! implementation of the IEEE operations behind trusted wrappers; each
//! result is a deterministic function of the argument bits alone.

use vstd::prelude::*;

verus! {

/// Sign bit of a binary64 bit pattern.
pub const F64_SIGN_MASK: u64 = 0x8000000000000000;
/// Exponent field of a binary64 bit pattern.
pub const F64_EXP_MASK: u64 = 0x7ff0000000000000;
/// Fraction (significand) field of a binary64 bit pattern.
pub const F64_FRAC_MASK: u64 = 0x000fffffffffffff;
/// The canonical quiet-NaN bit pattern.
pub const F64_QUIET_NAN: u64 = 0x7ff8000000000000;
/// Bit pattern of 1.0.
pub const F64_ONE: u64 = 0x3ff0000000000000;

/// True when the bit pattern encodes a NaN (exponent all ones, fraction non-zero).
pub open spec fn f64_bits_is_nan(b: u64) -> bool {
    b & F64_EXP_MASK == F64_EXP_MASK && b & F64_FRAC_MASK != 0
}

/// True when the bit pattern encodes +inf or -inf.
pub open spec fn f64_bits_is_infinite(b: u64) -> bool {
    b & F64_EXP_MASK == F64_EXP_MASK && b & F64_FRAC_MASK == 0
}

/// True when the bit pattern encodes +0.0 or -0.0.
pub open spec fn f64_bits_is_zero(b: u64) -> bool {
    b == 0 || b == F64_SIGN_MASK
}

/// Magnitude field: the bit pattern with the sign bit cleared.
pub open spec fn f64_bits_abs(b: u64) -> u64 {
    b & (F64_EXP_MASK | F64_FRAC_MASK)
}

/// Order key of a non-NaN binary64 bit pattern. For finite and infinite
/// values the IEEE value order coincides with this integer order: the
/// magnitude bits compare like values, negated for negative sign, and
/// both zeros map to 0.
pub open spec fn f64_bits_key(b: u64) -> int {
    if b & F64_SIGN_MASK == 0 {
        f64_bits_abs(b) as int
    } else {
        -(f64_bits_abs(b) as int)
    }
}

/// IEEE `a > b` on bit patterns: false when either is NaN.
pub open spec fn f64_bits_gt(a: u64, b: u64) -> bool {
    !f64_bits_is_nan(a) && !f64_bits_is_nan(b) && f64_bits_key(a) > f64_bits_key(b)
}

/// IEEE `a <= b` on bit patterns: false when either is NaN.
pub open spec fn f64_bits_le(a: u64, b: u64) -> bool {
    !f64_bits_is_nan(a) && !f64_bits_is_nan(b) && f64_bits_key(a) <= f64_bits_key(b)
}

/// Canonical form of a bit pattern for hashing: every NaN becomes the
/// quiet NaN, both zeros become +0.0, all else is unchanged.
pub open spec fn canonicalize_f64_spec(b: u64) -> u64 {
    if f64_bits_is_nan(b) {
        F64_QUIET_NAN
    } else if f64_bits_is_zero(b) {
        0u64
    } else {
        b
    }
}

/// Canonicalize a binary64 bit pattern for deterministic hashing.
///
/// `-0.0` and `+0.0` collapse to the +0.0 pattern; every NaN collapses
/// to the quiet NaN pattern; all other values keep their native bits.
pub fn canonicalize_f64(b: u64) -> (r: u64)
    ensures
        r == canonicalize_f64_spec(b),
{
    if b & F64_EXP_MASK == F64_EXP_MASK && b & F64_FRAC_MASK != 0 {
        F64_QUIET_NAN
    } else if b == 0 || b == F64_SIGN_MASK {
        0
    } else {
        b
    }
}

/// Both zeros canonicalize alike, and any two NaN patterns canonicalize alike.
pub proof fn lemma_canonicalize_zero_and_nan(a: u64, b: u64)
    ensures
        canonicalize_f64_spec(F64_SIGN_MASK) == canonicalize_f64_spec(0),
        f64_bits_is_nan(a) && f64_bits_is_nan(b)
            ==> canonicalize_f64_spec(a) == canonicalize_f64_spec(b),
{
    assert(0u64 & F64_EXP_MASK != F64_EXP_MASK) by (bit_vector);
    assert(F64_SIGN_MASK & 0x7ff0000000000000u64 != 0x7ff0000000000000u64) by (bit_vector);
}

/// Exec test for NaN on a bit pattern.
pub fn f64_is_nan_bits(b: u64) -> (r: bool)
    ensures
        r == f64_bits_is_nan(b),
{
    b & F64_EXP_MASK == F64_EXP_MASK && b & F64_FRAC_MASK != 0
}

/// Exec test for an infinity on a bit pattern.
pub fn f64_is_infinite_bits(b: u64) -> (r: bool)
    ensures
        r == f64_bits_is_infinite(b),
{
    b & F64_EXP_MASK == F64_EXP_MASK && b & F64_FRAC_MASK == 0
}

/// IEEE `a > b` computed from the bit patterns.
pub fn f64_gt_bits(a: u64, b: u64) -> (r: bool)
    ensures
        r == f64_bits_gt(a, b),
{
    if f64_is_nan_bits(a) || f64_is_nan_bits(b) {
        return false;
    }
    let a_abs = a & (F64_EXP_MASK | F64_FRAC_MASK);
    let b_abs = b & (F64_EXP_MASK | F64_FRAC_MASK);
    let a_neg = a & F64_SIGN_MASK != 0;
    let b_neg = b & F64_SIGN_MASK != 0;
    if a_neg {
        if b_neg {
            a_abs < b_abs
        } else {
            false
        }
    } else {
        if b_neg {
            a_abs != 0 || b_abs != 0
        } else {
            a_abs > b_abs
        }
    }
}

/// IEEE `a <= b` computed from the bit patterns.
pub fn f64_le_bits(a: u64, b: u64) -> (r: bool)
    ensures
        r == f64_bits_le(a, b),
{
    if f64_is_nan_bits(a) || f64_is_nan_bits(b) {
        return false;
    }
    !f64_gt_bits(a, b)
}

/// Bit pattern of the IEEE round-to-nearest-even sum of the two values.
pub uninterp spec fn f64_add(a: u64, b: u64) -> u64;

/// Bit pattern of the IEEE round-to-nearest-even product of the two values.
pub uninterp spec fn f64_mul(a: u64, b: u64) -> u64;

/// Bit pattern of the IEEE round-to-nearest-even quotient of the two values.
pub uninterp spec fn f64_div(a: u64, b: u64) -> u64;

/// Bit pattern of the IEEE correctly-rounded square root of the value.
pub uninterp spec fn f64_sqrt(a: u64) -> u64;

/// Bit pattern of the binary64 value of the integer (exact: u32 fits in 53 bits).
pub uninterp spec fn f64_of_u32(n: u32) -> u64;

/// Relies on const_soft_float's SoftF64::add: the software IEEE-754
/// binary64 addition, a function of the two bit patterns alone.
#[verifier::external_body]
pub fn f64_add_bits(a: u64, b: u64) -> (r: u64)
    ensures
        r == f64_add(a, b),
{
    const_soft_float::soft_f64::SoftF64::from_bits(a)
        .add(const_soft_float::soft_f64::SoftF64::from_bits(b))
        .to_bits()
}

/// Relies on const_soft_float's SoftF64::mul: the software IEEE-754
/// binary64 multiplication, a function of the two bit patterns alone.
#[verifier::external_body]
pub fn f64_mul_bits(a: u64, b: u64) -> (r: u64)
    ensures
        r == f64_mul(a, b),
{
    const_soft_float::soft_f64::SoftF64::from_bits(a)
        .mul(const_soft_float::soft_f64::SoftF64::from_bits(b))
        .to_bits()
}

/// Relies on const_soft_float's SoftF64::div: the software IEEE-754
/// binary64 division, a function of the two bit patterns alone.
#[verifier::external_body]
pub fn f64_div_bits(a: u64, b: u64) -> (r: u64)
    ensures
        r == f64_div(a, b),
{
    const_soft_float::soft_f64::SoftF64::from_bits(a)
        .div(const_soft_float::soft_f64::SoftF64::from_bits(b))
        .to_bits()
}

/// Relies on const_soft_float's SoftF64::sqrt: the software correctly-rounded
/// IEEE-754 binary64 square root, a function of the bit pattern alone.
#[verifier::external_body]
pub fn f64_sqrt_bits(a: u64) -> (r: u64)
    ensures
        r == f64_sqrt(a),
{
    const_soft_float::soft_f64::SoftF64::from_bits(a).sqrt().to_bits()
}

/// Relies on rustc_apfloat's Double::from_u128: conversion of an integer to
/// binary64 (exact for any u32), a function of the integer alone.
#[verifier::external_body]
pub fn f64_from_u32(n: u32) -> (r: u64)
    ensures
        r == f64_of_u32(n),
{
    let d = <rustc_apfloat::ieee::Double as rustc_apfloat::Float>::from_u128(n as u128).value;
    <rustc_apfloat::ieee::Double as rustc_apfloat::Float>::to_bits(d) as u64
}

} // verus!
