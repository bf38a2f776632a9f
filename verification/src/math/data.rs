//! Calibrated constants and minimax polynomial coefficients, as exact bit
//! patterns. They are supplied data: the library only evaluates against them
//! and never derives them at runtime.

use vstd::prelude::*;

verus! {

/// Euler's number e.
pub const E: u32 = 0x402d_f854;

/// ln(2).
pub const LN_2: u32 = 0x3f31_7218;

/// 1 / ln(2).
pub const LN_2_INV: u32 = 0x3fb8_aa3b;

/// sqrt(2).
pub const SQRT_2: u32 = 0x3fb5_04f3;

/// log2(e).
pub const LOG2_E: u32 = 0x3fb8_aa3b;

/// log10(e).
pub const LOG10_E: u32 = 0x3ede_5bd9;

/// pi / 2.
pub const PI_HALF: u32 = 0x3fc9_0fdb;

/// 2 / pi.
pub const PI_HALF_INV: u32 = 0x3f22_f983;

/// pi / 4.
pub const PI_QUARTER: u32 = 0x3f49_0fdb;

/// 0.5.
pub const HALF: u32 = 0x3f00_0000;

/// 2.0.
pub const TWO: u32 = 0x4000_0000;

/// 10.0.
pub const TEN: u32 = 0x4120_0000;

/// -1.0.
pub const MINUS_ONE: u32 = 0xbf80_0000;

/// Sixteen times the machine epsilon, 2^-19.
pub const EPSILON_16: u32 = 0x3600_0000;

/// Coefficients of the minimax polynomial for exp, least significant first.
pub const POLY_EXP_0: u32 = 0x3e2a_aa83;

/// Second coefficient of the exp polynomial.
pub const POLY_EXP_1: u32 = 0x3d2a_aa70;

/// Third coefficient of the exp polynomial.
pub const POLY_EXP_2: u32 = 0x3c08_c01f;

/// Fourth coefficient of the exp polynomial.
pub const POLY_EXP_3: u32 = 0x3ab6_aaed;

/// Fifth coefficient of the exp polynomial.
pub const POLY_EXP_4: u32 = 0x3906_3f86;

/// Coefficients of the minimax polynomial for ln(1 + z), least significant first.
pub const POLY_LN1P_0: u32 = 0x3eaa_95d3;

/// Second coefficient of the ln(1 + z) polynomial.
pub const POLY_LN1P_1: u32 = 0xbe7f_5a82;

/// Third coefficient of the ln(1 + z) polynomial.
pub const POLY_LN1P_2: u32 = 0x3e51_db4d;

/// Fourth coefficient of the ln(1 + z) polynomial.
pub const POLY_LN1P_3: u32 = 0xbe3d_687c;

/// Fifth coefficient of the ln(1 + z) polynomial.
pub const POLY_LN1P_4: u32 = 0x3def_c7b9;

/// Coefficients of the minimax polynomial for 2^z, least significant first.
pub const POLY_POW2_0: u32 = 0x3f31_721a;

/// Second coefficient of the 2^z polynomial.
pub const POLY_POW2_1: u32 = 0x3e75_fcfc;

/// Third coefficient of the 2^z polynomial.
pub const POLY_POW2_2: u32 = 0x3d63_7c2c;

/// Fourth coefficient of the 2^z polynomial.
pub const POLY_POW2_3: u32 = 0x3c1b_5267;

/// Fifth coefficient of the 2^z polynomial.
pub const POLY_POW2_4: u32 = 0x3acf_2bc8;

/// Coefficients of the minimax polynomial for 10^z, least significant first.
pub const POLY_POW10_0: u32 = 0x4013_623b;

/// Second coefficient of the 10^z polynomial.
pub const POLY_POW10_1: u32 = 0x4029_29c4;

/// Third coefficient of the 10^z polynomial.
pub const POLY_POW10_2: u32 = 0x4006_9c52;

/// Fourth coefficient of the 10^z polynomial.
pub const POLY_POW10_3: u32 = 0x3f69_4226;

/// Fifth coefficient of the 10^z polynomial.
pub const POLY_POW10_4: u32 = 0x3f77_49be;

/// Coefficients of the minimax polynomial for sin, least significant first.
pub const POLY_SIN_0: u32 = 0xbe2a_aaa8;

/// Second coefficient of the sin polynomial.
pub const POLY_SIN_1: u32 = 0x3c08_86a0;

/// Third coefficient of the sin polynomial.
pub const POLY_SIN_2: u32 = 0xb94e_294d;

/// Fourth coefficient of the sin polynomial.
pub const POLY_SIN_3: u32 = 0xb477_034f;

/// Fifth coefficient of the sin polynomial.
pub const POLY_SIN_4: u32 = 0x35ea_3ca9;

/// Coefficients of the minimax polynomial for cos, least significant first.
pub const POLY_COS_0: u32 = 0xbf00_0000;

/// Second coefficient of the cos polynomial.
pub const POLY_COS_1: u32 = 0x3d2a_aaab;

/// Third coefficient of the cos polynomial.
pub const POLY_COS_2: u32 = 0xbab6_0baa;

/// Fourth coefficient of the cos polynomial.
pub const POLY_COS_3: u32 = 0x37d0_33fe;

/// Fifth coefficient of the cos polynomial.
pub const POLY_COS_4: u32 = 0xb499_e1e4;

/// Coefficients of the minimax polynomial for tan, least significant first.
pub const POLY_TAN_0: u32 = 0x3eaa_af56;

/// Second coefficient of the tan polynomial.
pub const POLY_TAN_1: u32 = 0x3e07_e0db;

/// Third coefficient of the tan polynomial.
pub const POLY_TAN_2: u32 = 0x3d6d_3401;

/// Fourth coefficient of the tan polynomial.
pub const POLY_TAN_3: u32 = 0x3c37_50d4;

/// Fifth coefficient of the tan polynomial.
pub const POLY_TAN_4: u32 = 0x3cae_109d;

} // verus!
