//! The four rounded arithmetic operations on raw bit patterns.
//!
//! Verified code never holds a machine float: an operation takes the operand
//! bit patterns and returns the result bit pattern. The operations are carried
//! out by `rustc_apfloat`'s software implementation of IEEE 754 binary32
//! (round to nearest, ties to even), which is a deterministic function of the
//! operand patterns, so each result has a name that contracts can share.
//! Beside the name, each operation states the handful of exact identities of
//! IEEE 754 that the proofs lean on: a sum or difference whose exact value is
//! representable is returned exactly, so adding a zero, subtracting an equal
//! value, or multiplying by zero leave nothing to rounding.

use crate::float::{fval, is_finite};
use rustc_apfloat::ieee::Single;
use rustc_apfloat::Float;
use vstd::prelude::*;

verus! {

/// Result pattern of IEEE 754 binary32 addition of the two operand patterns.
pub uninterp spec fn add_pat(a: u32, b: u32) -> u32;

/// Result pattern of IEEE 754 binary32 subtraction of the two operand patterns.
pub uninterp spec fn sub_pat(a: u32, b: u32) -> u32;

/// Result pattern of IEEE 754 binary32 multiplication of the two operand patterns.
pub uninterp spec fn mul_pat(a: u32, b: u32) -> u32;

/// Result pattern of IEEE 754 binary32 division of the two operand patterns.
pub uninterp spec fn div_pat(a: u32, b: u32) -> u32;

/// Relies on `rustc_apfloat::ieee::Single` addition: IEEE 754 binary32,
/// round to nearest, ties to even. Adding a zero to a finite value returns
/// that value exactly, and the sum of two zeros is a zero.
#[verifier::external_body]
pub(crate) fn fadd(a: u32, b: u32) -> (r: u32)
    ensures
        r == add_pat(a, b),
        is_finite(a) && is_finite(b) && fval(a) == 0 && fval(b) != 0 ==> r == b,
        is_finite(a) && is_finite(b) && fval(b) == 0 && fval(a) != 0 ==> r == a,
        is_finite(a) && is_finite(b) && fval(a) == 0 && fval(b) == 0 ==> is_finite(r) && fval(r)
            == 0,
{
    (Single::from_bits(a as u128) + Single::from_bits(b as u128)).value.to_bits() as u32
}

/// Relies on `rustc_apfloat::ieee::Single` subtraction: IEEE 754 binary32,
/// round to nearest, ties to even. Subtracting an equal nonzero finite value
/// gives positive zero (an exact zero difference carries the positive sign in
/// this rounding direction), the difference of two zeros is a zero,
/// subtracting a zero returns the value exactly, and subtracting from a zero
/// negates exactly.
#[verifier::external_body]
pub(crate) fn fsub(a: u32, b: u32) -> (r: u32)
    ensures
        r == sub_pat(a, b),
        is_finite(a) && is_finite(b) && fval(a) == fval(b) && fval(a) != 0 ==> r == 0,
        is_finite(a) && is_finite(b) && fval(a) == 0 && fval(b) == 0 ==> is_finite(r) && fval(r)
            == 0,
        is_finite(a) && is_finite(b) && fval(b) == 0 && fval(a) != 0 ==> r == a,
        is_finite(a) && is_finite(b) && fval(a) == 0 && fval(b) != 0 ==> r == (b ^ 0x8000_0000),
{
    (Single::from_bits(a as u128) - Single::from_bits(b as u128)).value.to_bits() as u32
}

/// Relies on `rustc_apfloat::ieee::Single` multiplication: IEEE 754 binary32,
/// round to nearest, ties to even. A zero times a finite value is a zero.
#[verifier::external_body]
pub(crate) fn fmul(a: u32, b: u32) -> (r: u32)
    ensures
        r == mul_pat(a, b),
        is_finite(a) && is_finite(b) && fval(a) == 0 ==> is_finite(r) && fval(r) == 0,
        is_finite(a) && is_finite(b) && fval(b) == 0 ==> is_finite(r) && fval(r) == 0,
{
    (Single::from_bits(a as u128) * Single::from_bits(b as u128)).value.to_bits() as u32
}

/// Relies on `rustc_apfloat::ieee::Single` division: IEEE 754 binary32,
/// round to nearest, ties to even.
#[verifier::external_body]
pub(crate) fn fdiv(a: u32, b: u32) -> (r: u32)
    ensures
        r == div_pat(a, b),
{
    (Single::from_bits(a as u128) / Single::from_bits(b as u128)).value.to_bits() as u32
}

} // verus!
