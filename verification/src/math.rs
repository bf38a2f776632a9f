//! The elementary functions: each follows the shared pattern of handling the
//! exact special cases, reducing the argument against a function-specific
//! constant, evaluating a calibrated polynomial on the bounded remainder and
//! reconstructing the result by exact scaling.

pub mod cos;
pub mod cot;
pub mod data;
pub mod log10;
pub mod log2;
pub mod pow;
pub mod pow10;
pub mod pow2;
pub mod sin;
pub mod tan;
pub mod exp;
pub mod ln;
