//! The cotangent function.

use crate::arith::{div_pat, fdiv};
use crate::float::ONE;
use crate::math::tan::{tan, tan_pat};
use vstd::prelude::*;

verus! {

/// Pattern that [`cot`] computes: the reciprocal of the tangent.
pub open spec fn cot_pat(x: u32) -> u32 {
    div_pat(ONE, tan_pat(x))
}

/// Computes the cotangent of a number in radians.
///
/// It is computed as `1 / tan(x)`, so it shares the tangent's reduction and
/// its domain limit of about `[-2.1e9, 2.1e9]`; inputs beyond it (and NaNs
/// and infinities) give NaN.
pub fn cot(x: u32) -> (r: u32)
    ensures
        r == cot_pat(x),
{
    fdiv(ONE, tan(x))
}

} // verus!
