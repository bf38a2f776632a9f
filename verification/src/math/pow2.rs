//! Two raised to a power.

use crate::arith::{add_pat, div_pat, fadd, fdiv, fmul, mul_pat};
use crate::float::{
    exp_field, fval, int_val, is_finite, lemma_fields, lemma_fmag_bounds,
    lemma_normal_nonzero, lemma_one_val, lemma_sign_fields, man_field, sign_field, EPSILON, NAN,
    ONE, ZERO,
};
use crate::math::data::{
    POLY_POW2_0, POLY_POW2_1, POLY_POW2_2, POLY_POW2_3, POLY_POW2_4,
};
use crate::math::pow::{pow_reduce, pow_reduce_pat};
use crate::utils::{nearly_equal, nearly_equal_pat, poly, poly_pat, scale, scale_pat};
use vstd::arithmetic::power2::{lemma2_to64, lemma_pow2_adds, lemma_pow2_pos, pow2 as pow2_nat};
use vstd::prelude::*;

verus! {

/// Pattern that [`pow2`] computes: the exponent reduced to an integer part
/// and a fractional magnitude, the polynomial approximation of the fractional
/// power, inverted when the remainder was negative, and an exact scaling by
/// the integer part.
pub open spec fn pow2_pat(p: u32) -> u32 {
    if nearly_equal_pat(p, ZERO, EPSILON) {
        ONE
    } else {
        match pow_reduce_pat(p) {
            Some(kzi) => {
                let pw = add_pat(
                    ONE,
                    mul_pat(
                        kzi.1,
                        poly_pat(
                            kzi.1,
                            POLY_POW2_0,
                            POLY_POW2_1,
                            POLY_POW2_2,
                            POLY_POW2_3,
                            POLY_POW2_4,
                        ),
                    ),
                );
                let pw = if kzi.2 {
                    div_pat(ONE, pw)
                } else {
                    pw
                };
                scale_pat(pw, kzi.0 as int)
            },
            None => NAN,
        }
    }
}

/// Computes two raised to a power.
///
/// The input is reduced to an integer `k` and a remainder `y` with
/// `p = k + y` and `|y| <= 1/2`; a polynomial approximates `2^|y|`, inverted
/// when `y` was negative, and the result is reconstructed as `2^k * 2^y` by
/// exact scaling, which saturates outside the representable exponent range.
/// An input equal to zero returns exactly one, and every integer input from
/// zero below thirty-two reproduces the power of two exactly. Inputs too
/// large for the reduction's 32-bit multiplier (and NaNs and infinities) give
/// NaN.
pub fn pow2(p: u32) -> (r: u32)
    ensures
        r == pow2_pat(p),
        is_finite(p) && fval(p) == 0 ==> r == ONE,
        forall|k: int|
            0 <= k < 32 && is_finite(p) && fval(p) == #[trigger] int_val(k) ==> is_finite(r)
                && fval(r) == int_val(pow2_nat(k as nat) as int),
{
    proof {
        lemma_fields(ZERO);
        lemma_fields(EPSILON);
        lemma_fmag_bounds(EPSILON);
        lemma_one_val();
        lemma2_to64();
        broadcast use lemma_pow2_pos;

    }
    if nearly_equal(p, ZERO, EPSILON) {
        proof {
            assert forall|k: int| 0 <= k < 32 && is_finite(p) && fval(p) == #[trigger] int_val(k)
                implies is_finite(ONE) && fval(ONE) == int_val(pow2_nat(k as nat) as int) by {
                lemma_pow2_int_bounds(p, k);
                if k >= 1 {
                    // |p| is at least one, far above epsilon: the zero test
                    // cannot have succeeded
                    lemma_sign_fields(p);
                    lemma_pow2_adds(23, 103);
                    vstd::arithmetic::power2::lemma_pow2_strictly_increases(126, 149);
                }
            };
        }
        return ONE;
    }
    let red: Option<(i32, u32, bool)> = pow_reduce(p);
    match red {
        Some(kzi) => {
            let (k, z, inv): (i32, u32, bool) = kzi;
            proof {
                lemma_fields(POLY_POW2_0);
                lemma_fields(POLY_POW2_1);
                lemma_fields(POLY_POW2_2);
                lemma_fields(POLY_POW2_3);
                lemma_fields(POLY_POW2_4);
                lemma_normal_nonzero(POLY_POW2_0);
                lemma_normal_nonzero(POLY_POW2_1);
                lemma_normal_nonzero(POLY_POW2_2);
                lemma_normal_nonzero(POLY_POW2_3);
                lemma_fields(0u32);
            }
            let pw: u32 = fadd(
                ONE,
                fmul(
                    z,
                    poly(z, [POLY_POW2_0, POLY_POW2_1, POLY_POW2_2, POLY_POW2_3, POLY_POW2_4]),
                ),
            );
            let pw: u32 = if inv {
                fdiv(ONE, pw)
            } else {
                pw
            };
            let r: u32 = scale(pw, k);
            proof {
                assert forall|j: int| 0 <= j < 32 && is_finite(p) && fval(p) == #[trigger] int_val(
                    j,
                ) implies is_finite(r) && fval(r) == int_val(pow2_nat(j as nat) as int) by {
                    lemma_pow2_int_bounds(p, j);
                    if j == 0 {
                        // an exactly-zero input takes the early branch
                    } else {
                        // the reduction returned exactly (j, +0, no inversion)
                        assert(k == j as i32 && fval(z) == 0 && is_finite(z) && !inv);
                        // the polynomial collapses to its constant coefficient
                        // and one plus a zero is exactly one
                        assert(pw == ONE);
                        // scaling one by j lands at the exact power of two
                        assert(1 <= exp_field(ONE) + (j as i32) <= 254);
                        assert(exp_field(r) == 127 + j);
                        lemma_scale_one(r, j);
                    }
                };
            }
            r
        },
        None => {
            proof {
                assert forall|k: int| 0 <= k < 32 && is_finite(p) && fval(p) == #[trigger] int_val(
                    k,
                ) implies false by {};
            }
            NAN
        },
    }
}

/// A pattern that holds a small exact integer is not within epsilon of zero
/// unless that integer is zero.
proof fn lemma_pow2_int_bounds(p: u32, k: int)
    requires
        is_finite(p),
        0 <= k < 32,
        fval(p) == int_val(k),
    ensures
        k >= 1 ==> fval(p) >= pow2_nat(149),
        k == 0 ==> fval(p) == 0,
        fval(ONE) == int_val(pow2_nat(0) as int),
{
    lemma2_to64();
    lemma_one_val();
    broadcast use lemma_pow2_pos;

    vstd::arithmetic::mul::lemma_mul_basics(pow2_nat(149) as int);
    if k >= 1 {
        vstd::arithmetic::mul::lemma_mul_inequality(1, k, pow2_nat(149) as int);
    }
}

/// Scaling the pattern of one by `j` within the normal range gives the exact
/// value `2^j`.
proof fn lemma_scale_one(r: u32, j: int)
    requires
        0 < j < 32,
        sign_field(r) == 0,
        man_field(r) == 0,
        exp_field(r) == 127 + j,
    ensures
        is_finite(r),
        fval(r) == int_val(pow2_nat(j as nat) as int),
{
    lemma2_to64();
    broadcast use lemma_pow2_pos;

    lemma_pow2_adds(23, (126 + j) as nat);
    lemma_pow2_adds(j as nat, 149);
    vstd::arithmetic::mul::lemma_mul_is_commutative(
        pow2_nat(j as nat) as int,
        pow2_nat(149) as int,
    );
}

} // verus!
