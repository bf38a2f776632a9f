//! The exponential function.

use crate::arith::{add_pat, fadd, fmul, mul_pat};
use crate::float::{
    fval, is_finite, lemma_fields, lemma_fmag_bounds, EPSILON, NAN, ONE, ZERO,
};
use crate::math::data::{
    E, HALF, LN_2, LN_2_INV, POLY_EXP_0, POLY_EXP_1, POLY_EXP_2, POLY_EXP_3, POLY_EXP_4,
};
use crate::utils::{nearly_equal, nearly_equal_pat, poly, poly_pat, reduce, reduce_pat, scale,
    scale_pat};
use vstd::prelude::*;

verus! {

/// Pattern that [`exp`] computes: the reduce, approximate and reconstruct
/// algorithm in closed form over the rounded operations.
pub open spec fn exp_pat(x: u32) -> u32 {
    if x == ONE {
        E
    } else if nearly_equal_pat(x, ZERO, EPSILON) {
        ONE
    } else {
        match reduce_pat(x, LN_2, LN_2_INV) {
            Some(kz) => {
                let z = kz.1;
                let z2 = mul_pat(z, z);
                let expz = add_pat(
                    add_pat(add_pat(ONE, z), mul_pat(HALF, z2)),
                    mul_pat(
                        mul_pat(z2, z),
                        poly_pat(z, POLY_EXP_0, POLY_EXP_1, POLY_EXP_2, POLY_EXP_3, POLY_EXP_4),
                    ),
                );
                scale_pat(expz, kz.0 as int)
            },
            None => NAN,
        }
    }
}

/// Computes the exponential function of a number.
///
/// The input is reduced to an integer `k` and a remainder `z` with
/// `x = k * ln(2) + z` and `|z| <= ln(2) / 2`, a polynomial approximates
/// `exp(z)` and the result is reconstructed as `2^k * exp(z)` by exact
/// scaling, which saturates outside the representable exponent range. An
/// input of exactly one returns the calibrated Euler constant and an input
/// equal to zero returns exactly one. Inputs too large for the reduction's
/// 32-bit multiplier (and NaNs and infinities) give NaN.
pub fn exp(x: u32) -> (r: u32)
    ensures
        r == exp_pat(x),
        x == ONE ==> r == E,
        is_finite(x) && fval(x) == 0 ==> r == ONE,
{
    proof {
        lemma_fields(ZERO);
        lemma_fields(EPSILON);
        lemma_fmag_bounds(EPSILON);
        crate::float::lemma_one_val();
    }
    if x == ONE {
        return E;
    }
    if nearly_equal(x, ZERO, EPSILON) {
        return ONE;
    }
    match reduce(x, LN_2, LN_2_INV) {
        Some(kz) => {
            let (k, z): (i32, u32) = kz;
            let z2: u32 = fmul(z, z);
            let expz: u32 = fadd(
                fadd(fadd(ONE, z), fmul(HALF, z2)),
                fmul(
                    fmul(z2, z),
                    poly(z, [POLY_EXP_0, POLY_EXP_1, POLY_EXP_2, POLY_EXP_3, POLY_EXP_4]),
                ),
            );
            scale(expz, k)
        },
        None => NAN,
    }
}

} // verus!
