//! A small single-precision math library built from bit-level manipulation of
//! the IEEE 754 representation, together with the error-measurement harness
//! used to state and check its accuracy.

pub mod arith;
pub mod consts;
pub mod domain;
pub mod error;
pub mod float;
pub mod math;
pub mod utils;

pub use math::cos::cos;
pub use math::cot::cot;
pub use math::exp::exp;
pub use math::ln::ln;
pub use math::log10::log10;
pub use math::log2::log2;
pub use math::pow::pow;
pub use math::pow10::pow10;
pub use math::pow2::pow2;
pub use math::sin::sin;
pub use math::tan::tan;

