//! The decimal logarithm.

use crate::arith::{fmul, mul_pat};
use crate::math::data::{EPSILON_16, LOG10_E};
use crate::math::ln::{ln, ln_pat};
use crate::utils::{
    fits_round_small, nearly_equal, nearly_equal_pat, round_small, round_small_ok,
    round_small_pat, to_float, to_float_pat,
};
use vstd::prelude::*;

verus! {

/// Pattern that [`log10`] computes: the natural logarithm scaled by
/// `log10(e)`, snapped to the nearest integer when it lands close enough to
/// one, which answers exact powers of ten exactly.
pub open spec fn log10_pat(x: u32) -> u32 {
    let t = mul_pat(ln_pat(x), LOG10_E);
    if round_small_ok(t) {
        let rounded = to_float_pat(round_small_pat(t) as i32);
        if nearly_equal_pat(t, rounded, EPSILON_16) {
            rounded
        } else {
            t
        }
    } else {
        t
    }
}

/// Computes the decimal logarithm of a number.
///
/// The identity `log10(x) = ln(x) * log10(e)` is used with the precomputed
/// constant. When the computed value falls within a slightly widened
/// tolerance of an integer, the input is taken to have been an exact power of
/// ten and the rounded integer is returned. Inputs outside the domain (zero,
/// negative values, NaNs and infinities) give NaN, which also skips the
/// snapping.
pub fn log10(x: u32) -> (r: u32)
    ensures
        r == log10_pat(x),
{
    let t: u32 = fmul(ln(x), LOG10_E);
    if fits_round_small(t) {
        let rounded: u32 = to_float(round_small(t));
        if nearly_equal(t, rounded, EPSILON_16) {
            rounded
        } else {
            t
        }
    } else {
        t
    }
}

} // verus!
