//! The binary logarithm.

use crate::arith::{fmul, mul_pat};
use crate::float::{
    exp_field, fval, int_val, is_finite, lemma_fields, lemma_fmag_bounds, lemma_normal_nonzero,
    man_field, sign_field, NAN, ONE,
};
use crate::math::data::LOG2_E;
use crate::math::ln::{ln, ln_pat};
use crate::utils::{decompose, decompose_pat, to_float, to_float_pat};
use vstd::arithmetic::power2::{lemma2_to64, lemma_pow2_adds, pow2};
use vstd::prelude::*;

verus! {

/// Pattern that [`log2`] computes: an exact power of two is detected by a
/// unit mantissa after decomposition and answered by its exponent; everything
/// else routes through the natural logarithm times `log2(e)`.
pub open spec fn log2_pat(x: u32) -> u32 {
    if !is_finite(x) || fval(x) <= 0 {
        NAN
    } else if decompose_pat(x) == ONE {
        to_float_pat((exp_field(x) - 127) as i32)
    } else {
        mul_pat(ln_pat(x), LOG2_E)
    }
}

/// Computes the binary logarithm of a number.
///
/// An input that is an exact power of two (a unit mantissa after the
/// decomposition `x = y * 2^n`) returns exactly `n`; otherwise the identity
/// `log2(x) = ln(x) * log2(e)` is used with the precomputed constant. Inputs
/// outside the domain (zero, negative values, NaNs and infinities) give NaN.
pub fn log2(x: u32) -> (r: u32)
    ensures
        r == log2_pat(x),
        forall|k: int|
            0 <= k < 32 && sign_field(x) == 0 && exp_field(x) == 127 + k && man_field(x) == 0
                ==> is_finite(r) && fval(r) == #[trigger] int_val(k),
{
    proof {
        lemma_fields(x);
        if is_finite(x) {
            lemma_fmag_bounds(x);
            if 1 <= exp_field(x) {
                lemma_normal_nonzero(x);
            }
        }
    }
    if ((x >> 23) & 0xff) == 255 || (x >> 31) == 1 || (x & 0x7fff_ffff) == 0 {
        return NAN;
    }
    let d: (u32, i32) = decompose(x);
    let (y, n): (u32, i32) = d;
    if y == ONE {
        let res: u32 = to_float(n);
        proof {
            lemma_fields(y);
            crate::utils::lemma_to_float_exact(n);
        }
        return res;
    }
    proof {
        // a unit mantissa with a zero sign always takes the exact branch
        lemma_fields(y);
    }
    fmul(ln(x), LOG2_E)
}

} // verus!
