//! The general power function, with the square-and-multiply helper shared by
//! the fixed-base variants.

use crate::arith::{div_pat, fdiv, fmul, mul_pat};
use crate::float::{
    float_le, float_lt, fval, int_val, is_finite, lemma_fields, lemma_fmag_bounds, lemma_one_val,
    EPSILON, NAN, ONE, ZERO,
};
use crate::math::data::{TEN, TWO};
use crate::math::exp::{exp, exp_pat};
use crate::math::ln::{ln, ln_pat};
use crate::math::pow10::{pow10, pow10_pat};
use crate::math::pow2::{pow2, pow2_pat};
use crate::utils::{
    decompose, decompose_pat, nearly_equal, nearly_equal_pat, reduce1, reduce1_pat, scale,
    scale_pat, to_float, to_float_pat, trunc_fract, trunc_fract_pat,
};
use vstd::prelude::*;

verus! {

/// One pass of the square-and-multiply loop: multiply the accumulator by the
/// base at every set bit of the exponent, squaring the base between bits.
pub open spec fn square_mul_loop(r: u32, base: u32, k: nat) -> u32
    decreases k,
{
    let r2 = if k % 2 == 1 {
        mul_pat(r, base)
    } else {
        r
    };
    if k / 2 == 0 {
        r2
    } else {
        square_mul_loop(r2, mul_pat(base, base), k / 2)
    }
}

/// Pattern that [`square_mul`] computes: binary exponentiation of `x` by the
/// integer `k`, with the base inverted first for a negative exponent.
pub open spec fn square_mul_pat(x: u32, k: int) -> u32 {
    if k < 0 {
        square_mul_loop(ONE, div_pat(ONE, x), (-k) as nat)
    } else {
        square_mul_loop(ONE, x, k as nat)
    }
}

/// Raises `x` to the integer power `k` by binary exponentiation; a negative
/// exponent inverts the base first. The cost is bounded by the bit width of
/// the exponent.
pub fn square_mul(x: u32, k: i32) -> (r: u32)
    ensures
        r == square_mul_pat(x, k as int),
{
    let mut kk: u32 = if k < 0 {
        #[verifier::truncate] ((-(k as i64)) as u32)
    } else {
        k as u32
    };
    let mut base: u32 = if k < 0 {
        fdiv(ONE, x)
    } else {
        x
    };
    let mut r: u32 = ONE;
    let ghost goal: u32 = square_mul_pat(x, k as int);
    proof {
        assert(goal == square_mul_loop(r, base, kk as nat));
    }
    loop
        invariant
            goal == square_mul_loop(r, base, kk as nat),
            goal == square_mul_pat(x, k as int),
        decreases kk,
    {
        proof {
            assert((kk & 1) == (kk % 2) && (kk >> 1) == (kk / 2)) by (bit_vector);
        }
        if (kk & 1) == 1 {
            r = fmul(r, base);
        }
        kk = kk >> 1;
        if kk == 0 {
            return r;
        }
        base = fmul(base, base);
    }
}

/// Pattern that [`pow_reduce`] computes: the unit reduction of the exponent
/// with the remainder folded to its magnitude, remembering whether the
/// fractional power must be inverted.
pub open spec fn pow_reduce_pat(x: u32) -> Option<(i32, u32, bool)> {
    match reduce1_pat(x) {
        Some(ky) => {
            if float_lt(ky.1, ZERO) {
                Some((ky.0, ky.1 ^ 0x8000_0000, true))
            } else {
                Some((ky.0, ky.1, false))
            }
        },
        None => None,
    }
}

/// Reduces an exponent to an integer part and a nonnegative fractional
/// remainder, with a flag that says the fractional power must be inverted.
/// An exponent that holds an exact integer of at most 24 bits reduces to that
/// integer with a remainder of exactly zero and no inversion.
pub fn pow_reduce(x: u32) -> (r: Option<(i32, u32, bool)>)
    ensures
        r == pow_reduce_pat(x),
        forall|k: int|
            -0x100_0000 <= k <= 0x100_0000 && is_finite(x) && fval(x) == #[trigger] int_val(k)
                ==> (r matches Some(v) && v.0 == k as i32 && is_finite(v.1) && fval(v.1) == 0
                && !v.2),
{
    proof {
        lemma_fields(ZERO);
    }
    match reduce1(x) {
        Some(ky) => {
            let (k, y): (i32, u32) = ky;
            proof {
                lemma_fields(y);
                if is_finite(y) {
                    lemma_fmag_bounds(y);
                }
            }
            if crate::float::lt(y, ZERO) {
                Some((k, y ^ 0x8000_0000, true))
            } else {
                Some((k, y, false))
            }
        },
        None => None,
    }
}

/// Pattern that [`pow`] computes: the special bases and exponents first, then
/// for a nonnegative base the split `x^p = y^pi * y^pf * 2^qi * 2^qf` over
/// the exact decomposition of the base, and for a negative base the
/// square-and-multiply power alone, defined only when the exponent reduces to
/// an exact integer.
pub open spec fn pow_pat(x: u32, p: u32) -> u32 {
    if nearly_equal_pat(x, ONE, EPSILON) {
        ONE
    } else if nearly_equal_pat(p, ONE, EPSILON) {
        x
    } else if nearly_equal_pat(p, ZERO, EPSILON) {
        ONE
    } else if nearly_equal_pat(x, TWO, EPSILON) {
        pow2_pat(p)
    } else if nearly_equal_pat(x, TEN, EPSILON) {
        pow10_pat(p)
    } else if float_le(ZERO, x) {
        let y = decompose_pat(x);
        let n = crate::float::exp_field(x) - 127;
        match trunc_fract_pat(p) {
            Some(pif) => {
                match reduce1_pat(mul_pat(p, to_float_pat(n as i32))) {
                    Some(qif) => scale_pat(
                        mul_pat(
                            mul_pat(
                                square_mul_pat(y, pif.0 as int),
                                exp_pat(mul_pat(pif.1, ln_pat(y))),
                            ),
                            pow2_pat(qif.1),
                        ),
                        qif.0 as int,
                    ),
                    None => NAN,
                }
            },
            None => NAN,
        }
    } else {
        match reduce1_pat(p) {
            Some(kz) => {
                if (kz.1 & 0x7fff_ffff) == 0 {
                    let y = decompose_pat(x);
                    let n = crate::float::exp_field(x) - 127;
                    scale_pat(square_mul_pat(y, kz.0 as int), n * kz.0)
                } else {
                    NAN
                }
            },
            None => NAN,
        }
    }
}

/// Computes a number raised to a power.
///
/// Bases near one, two and ten and exponents near zero and one are answered
/// directly or by the specialized fixed-base routines. A nonnegative base is
/// decomposed exactly into `x = y * 2^n`; the exponent is split into integer
/// and fractional parts and `x^p` is reconstructed as
/// `y^pi * exp(pf * ln(y)) * 2^qf`, scaled exactly by `2^qi`, so the
/// logarithm-and-exponential composition only ever carries the fractional
/// remainder. A negative base requires the exponent to reduce to an exact
/// integer; otherwise the result is NaN, as it is whenever a reduction
/// overflows its 32-bit multiplier.
pub fn pow(x: u32, p: u32) -> (r: u32)
    ensures
        r == pow_pat(x, p),
{
    proof {
        lemma_fields(ZERO);
        lemma_fields(EPSILON);
        lemma_fmag_bounds(EPSILON);
        lemma_one_val();
    }
    if nearly_equal(x, ONE, EPSILON) {
        return ONE;
    }
    if nearly_equal(p, ONE, EPSILON) {
        return x;
    }
    if nearly_equal(p, ZERO, EPSILON) {
        return ONE;
    }
    if nearly_equal(x, TWO, EPSILON) {
        return pow2(p);
    }
    if nearly_equal(x, TEN, EPSILON) {
        return pow10(p);
    }
    if crate::float::le(ZERO, x) {
        let d: (u32, i32) = decompose(x);
        let (y, n): (u32, i32) = d;
        match trunc_fract(p) {
            Some(pif) => {
                let (pi, pf): (i32, u32) = pif;
                match reduce1(fmul(p, to_float(n))) {
                    Some(qif) => {
                        let (pni, pnf): (i32, u32) = qif;
                        scale(fmul(fmul(square_mul(y, pi), exp(fmul(pf, ln(y)))), pow2(pnf)), pni)
                    },
                    None => NAN,
                }
            },
            None => NAN,
        }
    } else {
        match reduce1(p) {
            Some(kz) => {
                let (k, z): (i32, u32) = kz;
                if (z & 0x7fff_ffff) == 0 {
                    proof {
                        lemma_fields(x);
                    }
                    let d: (u32, i32) = decompose(x);
                    let (y, n): (u32, i32) = d;
                    proof {
                        assert((n as int) * (k as int) <= 128 * 0x7fff_ffff && (n as int) * (
                        k as int) >= -(128 * 0x7fff_ffff)) by (nonlinear_arith)
                            requires
                                -127 <= n <= 128,
                                -0x7fff_ffff <= k <= 0x7fff_ffff,
                        ;
                    }
                    let nk: i64 = (n as i64) * (k as i64);
                    // the exact scaling clamps its exponent, so any multiplier
                    // beyond the field's range acts like a saturated one
                    let nkc: i32 = if nk > 300 {
                        300
                    } else if nk < -300 {
                        -300
                    } else {
                        nk as i32
                    };
                    let sq: u32 = square_mul(y, k);
                    proof {
                        lemma_fields(sq);
                        assert(scale_pat(sq, nkc as int) == scale_pat(sq, (n as int) * (k as int)));
                    }
                    scale(sq, nkc)
                } else {
                    NAN
                }
            },
            None => NAN,
        }
    }
}

} // verus!
