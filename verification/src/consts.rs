//! A collection of mathematical constants, as exact bit patterns of the
//! nearest single-precision float.

use vstd::prelude::*;

verus! {

/// Archimedes' constant pi.
pub const PI: u32 = 0x4049_0fdb;

/// Euler's number e.
pub const E: u32 = 0x402d_f854;

} // verus!
