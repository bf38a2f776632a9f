//! The sine function.

use crate::arith::{add_pat, fadd, fmul, mul_pat};
use crate::float::{
    fval, is_finite, lemma_fields, lemma_fmag_bounds, EPSILON, NAN, ONE, ZERO,
};
use crate::math::data::{
    MINUS_ONE, PI_HALF, PI_HALF_INV, POLY_COS_0, POLY_COS_1, POLY_COS_2, POLY_COS_3, POLY_COS_4,
    POLY_SIN_0, POLY_SIN_1, POLY_SIN_2, POLY_SIN_3, POLY_SIN_4,
};
use crate::utils::{
    lemma_small_masks, modulo_mask, nearly_equal, nearly_equal_pat, poly, poly_pat, reduce,
    reduce_pat,
};
use vstd::prelude::*;

verus! {

/// Pattern that [`sin`] computes: the argument reduced against half pi, the
/// quarter-period selected by the multiplier modulo four, and the sine or
/// cosine polynomial on the remainder, negated in the second half-period.
pub open spec fn sin_pat(x: u32) -> u32 {
    match reduce_pat(x, PI_HALF, PI_HALF_INV) {
        Some(kz) => {
            let z = kz.1;
            let i = (kz.0 as int) % 4;
            if nearly_equal_pat(z, ZERO, EPSILON) {
                if i == 0 {
                    ZERO
                } else if i == 1 {
                    ONE
                } else if i == 2 {
                    ZERO
                } else {
                    MINUS_ONE
                }
            } else {
                let z2 = mul_pat(z, z);
                let sinz = add_pat(
                    z,
                    mul_pat(
                        mul_pat(z2, z),
                        poly_pat(z2, POLY_SIN_0, POLY_SIN_1, POLY_SIN_2, POLY_SIN_3, POLY_SIN_4),
                    ),
                );
                let cosz = add_pat(
                    ONE,
                    mul_pat(
                        z2,
                        poly_pat(z2, POLY_COS_0, POLY_COS_1, POLY_COS_2, POLY_COS_3, POLY_COS_4),
                    ),
                );
                if i == 0 {
                    sinz
                } else if i == 1 {
                    cosz
                } else if i == 2 {
                    sinz ^ 0x8000_0000
                } else {
                    cosz ^ 0x8000_0000
                }
            }
        },
        None => NAN,
    }
}

/// Computes the sine of a number in radians.
///
/// The input is reduced to an integer `k` and a remainder `z` with
/// `x = k * pi/2 + z` and `|z| <= pi/4`; the quarter period `k mod 4` selects
/// between the sine and cosine polynomials and the sign of the result. A
/// remainder equal to zero answers with the exact values 0, 1, 0 or -1, so a
/// zero input returns exactly zero. The input domain is limited to about
/// `[-2.1e9, 2.1e9]` by the reduction's 32-bit multiplier; inputs beyond it
/// (and NaNs and infinities) give NaN.
pub fn sin(x: u32) -> (r: u32)
    ensures
        r == sin_pat(x),
        is_finite(x) && fval(x) == 0 ==> r == ZERO,
{
    proof {
        lemma_fields(ZERO);
        lemma_fields(EPSILON);
        lemma_fields(PI_HALF);
        lemma_fields(PI_HALF_INV);
        lemma_fmag_bounds(EPSILON);
        lemma_small_masks();
    }
    match reduce(x, PI_HALF, PI_HALF_INV) {
        Some(kz) => {
            let (k, z): (i32, u32) = kz;
            let i: u32 = modulo_mask(k, 0x3);
            if nearly_equal(z, ZERO, EPSILON) {
                if i == 0 {
                    ZERO
                } else if i == 1 {
                    ONE
                } else if i == 2 {
                    ZERO
                } else {
                    MINUS_ONE
                }
            } else {
                let z2: u32 = fmul(z, z);
                if i == 0 {
                    fadd(
                        z,
                        fmul(
                            fmul(z2, z),
                            poly(
                                z2,
                                [POLY_SIN_0, POLY_SIN_1, POLY_SIN_2, POLY_SIN_3, POLY_SIN_4],
                            ),
                        ),
                    )
                } else if i == 1 {
                    fadd(
                        ONE,
                        fmul(
                            z2,
                            poly(
                                z2,
                                [POLY_COS_0, POLY_COS_1, POLY_COS_2, POLY_COS_3, POLY_COS_4],
                            ),
                        ),
                    )
                } else if i == 2 {
                    fadd(
                        z,
                        fmul(
                            fmul(z2, z),
                            poly(
                                z2,
                                [POLY_SIN_0, POLY_SIN_1, POLY_SIN_2, POLY_SIN_3, POLY_SIN_4],
                            ),
                        ),
                    ) ^ 0x8000_0000
                } else {
                    fadd(
                        ONE,
                        fmul(
                            z2,
                            poly(
                                z2,
                                [POLY_COS_0, POLY_COS_1, POLY_COS_2, POLY_COS_3, POLY_COS_4],
                            ),
                        ),
                    ) ^ 0x8000_0000
                }
            }
        },
        None => NAN,
    }
}

} // verus!
