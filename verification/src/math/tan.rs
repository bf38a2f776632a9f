//! The tangent function.

use crate::arith::{add_pat, div_pat, fadd, fdiv, fmul, mul_pat};
use crate::float::{
    fval, is_finite, lemma_fields, lemma_fmag_bounds, lemma_normal_nonzero, lemma_sign_fields,
    sign_field, EPSILON, NAN, ONE, ZERO,
};
use crate::math::data::{
    MINUS_ONE, PI_HALF, PI_HALF_INV, PI_QUARTER, POLY_TAN_0, POLY_TAN_1, POLY_TAN_2, POLY_TAN_3,
    POLY_TAN_4,
};
use crate::utils::{
    abs_sgn, is_even, nearly_equal, nearly_equal_pat, poly, poly_pat, reduce, reduce_pat,
};
use vstd::arithmetic::power2::{lemma2_to64, lemma_pow2_adds, lemma_pow2_strictly_increases};
use vstd::prelude::*;

verus! {

/// Pattern that [`tan`] computes: the argument reduced against half pi, the
/// tangent polynomial on the remainder, and the negated reciprocal in the odd
/// half-periods; a remainder at a quarter pi answers exactly one.
pub open spec fn tan_pat(x: u32) -> u32 {
    match reduce_pat(x, PI_HALF, PI_HALF_INV) {
        Some(kz) => {
            let z = kz.1;
            let z_abs = z & 0x7fff_ffff;
            if nearly_equal_pat(z_abs, PI_QUARTER, EPSILON) {
                if sign_field(z) == 0 {
                    ONE
                } else {
                    MINUS_ONE
                }
            } else {
                let z2 = mul_pat(z, z);
                let tanz = add_pat(
                    z,
                    mul_pat(
                        mul_pat(z2, z),
                        poly_pat(z2, POLY_TAN_0, POLY_TAN_1, POLY_TAN_2, POLY_TAN_3, POLY_TAN_4),
                    ),
                );
                if (kz.0 as int) % 2 == 0 {
                    tanz
                } else {
                    div_pat(MINUS_ONE, tanz)
                }
            }
        },
        None => NAN,
    }
}

/// Computes the tangent of a number in radians.
///
/// The input is reduced to an integer `k` and a remainder `z` with
/// `x = k * pi/2 + z` and `|z| <= pi/4`; an even `k` answers with the tangent
/// polynomial on `z` and an odd `k` with `-1 / tan(z)`. A remainder at
/// exactly a quarter pi answers the exact values 1 or -1, and a zero input
/// returns a zero. The input domain is limited to about `[-2.1e9, 2.1e9]` by
/// the reduction's 32-bit multiplier; inputs beyond it (and NaNs and
/// infinities) give NaN. Near the asymptotes the values get inaccurate.
pub fn tan(x: u32) -> (r: u32)
    ensures
        r == tan_pat(x),
        is_finite(x) && fval(x) == 0 ==> is_finite(r) && fval(r) == 0,
{
    proof {
        lemma_fields(ZERO);
        lemma_fields(EPSILON);
        lemma_fields(PI_HALF);
        lemma_fields(PI_HALF_INV);
        lemma_fields(PI_QUARTER);
        lemma_fmag_bounds(EPSILON);
        lemma_normal_nonzero(PI_QUARTER);
        lemma_fields(POLY_TAN_0);
        lemma_fields(POLY_TAN_1);
        lemma_fields(POLY_TAN_2);
        lemma_fields(POLY_TAN_3);
        lemma_fields(POLY_TAN_4);
        lemma_normal_nonzero(POLY_TAN_0);
        lemma_normal_nonzero(POLY_TAN_1);
        lemma_normal_nonzero(POLY_TAN_2);
        lemma_normal_nonzero(POLY_TAN_3);
        // a zero remainder is far below the quarter-pi tolerance window
        lemma_sign_fields(PI_QUARTER);
        lemma_sign_fields(PI_QUARTER ^ 0x8000_0000);
        lemma_pow2_adds(23, 103);
        lemma_pow2_adds(23, 125);
        lemma_pow2_strictly_increases(126, 148);
        vstd::arithmetic::mul::lemma_mul_inequality(
            0x80_0000,
            0x80_0000 + crate::float::man_field(PI_QUARTER),
            vstd::arithmetic::power2::pow2(125) as int,
        );
        lemma2_to64();
    }
    match reduce(x, PI_HALF, PI_HALF_INV) {
        Some(kz) => {
            let (k, z): (i32, u32) = kz;
            let az: (u32, u32) = abs_sgn(z);
            let (z_abs, z_sgn): (u32, u32) = az;
            proof {
                lemma_sign_fields(z);
            }
            if nearly_equal(z_abs, PI_QUARTER, EPSILON) {
                if z_sgn == ONE {
                    ONE
                } else {
                    MINUS_ONE
                }
            } else {
                let z2: u32 = fmul(z, z);
                let tanz: u32 = fadd(
                    z,
                    fmul(
                        fmul(z2, z),
                        poly(z2, [POLY_TAN_0, POLY_TAN_1, POLY_TAN_2, POLY_TAN_3, POLY_TAN_4]),
                    ),
                );
                if is_even(k) {
                    tanz
                } else {
                    fdiv(MINUS_ONE, tanz)
                }
            }
        },
        None => NAN,
    }
}

} // verus!
