//! The cosine function.

use crate::arith::{add_pat, fadd};
use crate::math::data::PI_HALF;
use crate::math::sin::{sin, sin_pat};
use vstd::prelude::*;

verus! {

/// Pattern that [`cos`] computes: the sine shifted by a quarter period.
pub open spec fn cos_pat(x: u32) -> u32 {
    sin_pat(add_pat(x, PI_HALF))
}

/// Computes the cosine of a number in radians.
///
/// It is computed as `sin(x + pi/2)`, so it shares the sine's reduction and
/// its domain limit of about `[-2.1e9, 2.1e9]`; inputs beyond it (and NaNs
/// and infinities) give NaN.
pub fn cos(x: u32) -> (r: u32)
    ensures
        r == cos_pat(x),
{
    sin(fadd(x, PI_HALF))
}

} // verus!
