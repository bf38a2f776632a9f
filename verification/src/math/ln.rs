//! The natural logarithm.

use crate::arith::{add_pat, fadd, fmul, fsub, mul_pat, sub_pat};
use crate::float::{
    float_lt, fval, is_finite, lemma_fields, lemma_fmag_bounds, lemma_normal_nonzero, EPSILON,
    NAN, ONE, ZERO,
};
use crate::math::data::{
    E, HALF, LN_2, POLY_LN1P_0, POLY_LN1P_1, POLY_LN1P_2, POLY_LN1P_3, POLY_LN1P_4, SQRT_2,
};
use crate::utils::{
    decompose, decompose_pat, nearly_equal, nearly_equal_pat, poly, poly_pat, to_float,
    to_float_pat,
};
use vstd::prelude::*;

verus! {

/// Pattern that [`ln`] computes: decompose into mantissa and exponent, keep
/// the mantissa symmetric around one, approximate `ln(1 + z)` and reconstruct
/// with `n * ln(2)`.
pub open spec fn ln_pat(x: u32) -> u32 {
    if !is_finite(x) || fval(x) <= 0 {
        NAN
    } else if x == ONE {
        ZERO
    } else if nearly_equal_pat(x, E, EPSILON) {
        ONE
    } else {
        let y0 = decompose_pat(x);
        let n0 = crate::float::exp_field(x) - 127;
        let y = if float_lt(SQRT_2, y0) {
            mul_pat(y0, HALF)
        } else {
            y0
        };
        let n = if float_lt(SQRT_2, y0) {
            n0 + 1
        } else {
            n0
        };
        let z = sub_pat(y, ONE);
        let z2 = mul_pat(z, z);
        let lny = add_pat(
            sub_pat(z, mul_pat(HALF, z2)),
            mul_pat(
                mul_pat(z2, z),
                poly_pat(z, POLY_LN1P_0, POLY_LN1P_1, POLY_LN1P_2, POLY_LN1P_3, POLY_LN1P_4),
            ),
        );
        add_pat(mul_pat(to_float_pat(n as i32), LN_2), lny)
    }
}

/// Computes the natural logarithm of a number.
///
/// The input is decomposed exactly into `x = y * 2^n` with `1 <= y < 2`; when
/// `y` exceeds `sqrt(2)` the decomposition is adjusted to `y/2` and `n + 1`,
/// which keeps the product and avoids cancellation near `n = -1`. A
/// polynomial approximates `ln(1 + z)` for `z = y - 1` and the result is
/// reconstructed as `n * ln(2) + ln(y)`. An input of exactly one returns
/// exactly zero and an input equal to the calibrated Euler constant returns
/// exactly one. Inputs outside the domain (zero, negative values, NaNs and
/// infinities) give NaN.
pub fn ln(x: u32) -> (r: u32)
    ensures
        r == ln_pat(x),
        x == ONE ==> r == ZERO,
        x == E ==> r == ONE,
{
    proof {
        lemma_fields(x);
        lemma_fields(E);
        lemma_fields(EPSILON);
        lemma_fmag_bounds(EPSILON);
        lemma_normal_nonzero(E);
        crate::float::lemma_one_val();
        if is_finite(x) {
            lemma_fmag_bounds(x);
        }
    }
    if ((x >> 23) & 0xff) == 255 || (x >> 31) == 1 || (x & 0x7fff_ffff) == 0 {
        return NAN;
    }
    if x == ONE {
        return ZERO;
    }
    if nearly_equal(x, E, EPSILON) {
        return ONE;
    }
    let d: (u32, i32) = decompose(x);
    let (y0, n0): (u32, i32) = d;
    let (y, n): (u32, i32) = if crate::float::lt(SQRT_2, y0) {
        (fmul(y0, HALF), n0 + 1)
    } else {
        (y0, n0)
    };
    let z: u32 = fsub(y, ONE);
    let z2: u32 = fmul(z, z);
    let lny: u32 = fadd(
        fsub(z, fmul(HALF, z2)),
        fmul(
            fmul(z2, z),
            poly(z, [POLY_LN1P_0, POLY_LN1P_1, POLY_LN1P_2, POLY_LN1P_3, POLY_LN1P_4]),
        ),
    );
    fadd(fmul(to_float(n), LN_2), lny)
}

} // verus!
