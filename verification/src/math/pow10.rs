//! Ten raised to a power.

use crate::arith::{add_pat, div_pat, fadd, fdiv, fmul, mul_pat};
use crate::float::{EPSILON, NAN, ONE, ZERO};
use crate::math::data::{
    POLY_POW10_0, POLY_POW10_1, POLY_POW10_2, POLY_POW10_3, POLY_POW10_4, TEN,
};
use crate::math::pow::{pow_reduce, pow_reduce_pat, square_mul, square_mul_pat};
use crate::utils::{nearly_equal, nearly_equal_pat, poly, poly_pat};
use vstd::prelude::*;

verus! {

/// Pattern that [`pow10`] computes: the exponent reduced to an integer part
/// and a fractional magnitude, the polynomial approximation of the fractional
/// power, inverted when the remainder was negative, and a square-and-multiply
/// power of ten for the integer part.
pub open spec fn pow10_pat(p: u32) -> u32 {
    if nearly_equal_pat(p, ZERO, EPSILON) {
        ONE
    } else {
        match pow_reduce_pat(p) {
            Some(kzi) => {
                let pw = add_pat(
                    ONE,
                    mul_pat(
                        kzi.1,
                        poly_pat(
                            kzi.1,
                            POLY_POW10_0,
                            POLY_POW10_1,
                            POLY_POW10_2,
                            POLY_POW10_3,
                            POLY_POW10_4,
                        ),
                    ),
                );
                let pw = if kzi.2 {
                    div_pat(ONE, pw)
                } else {
                    pw
                };
                mul_pat(square_mul_pat(TEN, kzi.0 as int), pw)
            },
            None => NAN,
        }
    }
}

/// Computes ten raised to a power.
///
/// The input is reduced to an integer `k` and a remainder `y` with
/// `p = k + y` and `|y| <= 1/2`; a polynomial approximates `10^|y|`, inverted
/// when `y` was negative, and the result is reconstructed as `10^k * 10^y`
/// with a square-and-multiply power for the integer part, whose loop count is
/// bounded by the bit width of `k`. An input equal to zero returns exactly
/// one. Inputs too large for the reduction's 32-bit multiplier (and NaNs and
/// infinities) give NaN.
pub fn pow10(p: u32) -> (r: u32)
    ensures
        r == pow10_pat(p),
{
    proof {
        crate::float::lemma_fields(ZERO);
        crate::float::lemma_fields(EPSILON);
        crate::float::lemma_fmag_bounds(EPSILON);
    }
    if nearly_equal(p, ZERO, EPSILON) {
        return ONE;
    }
    match pow_reduce(p) {
        Some(kzi) => {
            let (k, z, inv): (i32, u32, bool) = kzi;
            let pw: u32 = fadd(
                ONE,
                fmul(
                    z,
                    poly(z, [POLY_POW10_0, POLY_POW10_1, POLY_POW10_2, POLY_POW10_3, POLY_POW10_4]),
                ),
            );
            let pw: u32 = if inv {
                fdiv(ONE, pw)
            } else {
                pw
            };
            fmul(square_mul(TEN, k), pw)
        },
        None => NAN,
    }
}

} // verus!
