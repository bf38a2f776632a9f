//! Bit-level primitives shared by all elementary functions: field extraction,
//! exact decomposition and scaling, and small integer helpers.

use crate::arith::{add_pat, fadd, fmul, fsub, mul_pat, sub_pat};
use crate::float::{
    exp_field, float_le, float_lt, fmag, fval, int_val, is_finite, is_nan, is_normal,
    lemma_fields, lemma_make_fields, lemma_sign_fields, make_pat, man_field, oval, sign_field, ONE, ZERO,
};
use vstd::arithmetic::mul::*;
use vstd::arithmetic::power2::*;
use vstd::prelude::*;

verus! {

/// Extracts bits from `x` using the given left-shifted mask, as an unsigned
/// integer (right-shifted back).
pub fn extract_bits(x: u32, mask: u32, shift: u32) -> (r: u32)
    requires
        shift < 32,
    ensures
        r == ((x >> shift) & mask),
{
    let m: u32 = mask << shift;
    let v: u32 = x & m;
    let r: u32 = v >> shift;
    proof {
        assert(((x & (mask << shift)) >> shift) == ((x >> shift) & mask)) by (bit_vector)
            requires
                shift < 32,
        ;
    }
    r
}

/// Returns the absolute value of `x`: the pattern with the sign bit cleared.
pub fn abs(x: u32) -> (r: u32)
    ensures
        r == (x & 0x7fff_ffff),
        sign_field(r) == 0,
        exp_field(r) == exp_field(x),
        man_field(r) == man_field(x),
        is_finite(x) ==> fval(r) == fmag(x),
{
    proof {
        lemma_sign_fields(x);
    }
    x & 0x7fff_ffff
}

/// Returns the absolute value and the sign of `x`, the sign as the pattern of
/// 1.0 or -1.0 (the sign bit composed with the bias for exponent zero).
pub fn abs_sgn(x: u32) -> (r: (u32, u32))
    ensures
        r.0 == (x & 0x7fff_ffff),
        sign_field(r.0) == 0,
        exp_field(r.0) == exp_field(x),
        man_field(r.0) == man_field(x),
        r.1 == (if sign_field(x) == 0 { ONE } else { 0xbf80_0000u32 }),
{
    proof {
        lemma_sign_fields(x);
        assert(((x >> 31) == 0 ==> ((x & 0x8000_0000) | 0x3f80_0000) == 0x3f80_0000u32) && ((x
            >> 31) == 1 ==> ((x & 0x8000_0000) | 0x3f80_0000) == 0xbf80_0000u32)) by (bit_vector);
    }
    let ybits: u32 = x & 0x7fff_ffff;
    let sbits: u32 = (x & 0x8000_0000) | 0x3f80_0000;
    (ybits, sbits)
}

/// Mantissa-normalized pattern of the decomposition of `x`: the exponent
/// field replaced by the bias, so the pattern denotes a value in [1, 2).
pub open spec fn decompose_pat(x: u32) -> u32 {
    (x & 0x807f_ffff) | 0x3f80_0000
}

/// Decomposes `x` into a value `y` with `1 <= |y| < 2` and an integer `n` such
/// that `x == y * 2^n`, exactly, by splitting the bit pattern. Zero and
/// subnormal inputs are outside the supported domain and give a pattern with
/// the same mantissa field but no meaningful value relation.
pub fn decompose(x: u32) -> (r: (u32, i32))
    ensures
        r.0 == decompose_pat(x),
        r.1 == exp_field(x) - 127,
        sign_field(r.0) == sign_field(x),
        exp_field(r.0) == 127,
        man_field(r.0) == man_field(x),
        is_normal(x) ==> pow2(149) <= fmag(r.0) < pow2(150) && fmag(x) * pow2(127) == fmag(r.0)
            * pow2(exp_field(x) as nat),
{
    let fbits: u32 = (x & 0x807f_ffff) | 0x3f80_0000;
    proof {
        lemma_fields(x);
        assert((fbits >> 31) == (x >> 31) && ((fbits >> 23) & 0xff) == 127 && (fbits & 0x007f_ffff)
            == (x & 0x007f_ffff)) by (bit_vector)
            requires
                fbits == ((x & 0x807f_ffff) | 0x3f80_0000),
        ;
        if is_normal(x) {
            lemma_decompose_value(x, fbits);
        }
    }
    let nbits: i32 = ((x >> 23) & 0xff) as i32 - 127;
    (fbits, nbits)
}

/// Value relation of the decomposition: with the mantissa kept and the
/// exponent field rebased to 127, `x == y * 2^(e - 127)` exactly, stated
/// without signed exponents as `mag(x) * 2^127 == mag(y) * 2^e`.
proof fn lemma_decompose_value(x: u32, y: u32)
    requires
        is_normal(x),
        sign_field(y) == sign_field(x),
        exp_field(y) == 127,
        man_field(y) == man_field(x),
    ensures
        pow2(149) <= fmag(y) < pow2(150),
        fmag(x) * pow2(127) == fmag(y) * pow2(exp_field(x) as nat),
{
    broadcast use lemma_pow2_pos;

    lemma_fields(x);
    lemma2_to64();
    let m: int = 0x80_0000 + man_field(x);
    let e: nat = (exp_field(x) - 1) as nat;
    // bounds: 2^149 <= m * 2^126 < 2^150
    lemma_mul_inequality(0x80_0000, m, pow2(126) as int);
    lemma_mul_strict_inequality(m, 0x100_0000, pow2(126) as int);
    lemma_pow2_adds(23, 126);
    lemma_pow2_adds(24, 126);
    // (m * 2^e) * 2^127 == (m * 2^126) * 2^(e + 1)
    lemma_mul_is_associative(m, pow2(e) as int, pow2(127) as int);
    lemma_pow2_adds(e, 127);
    lemma_mul_is_associative(m, pow2(126) as int, pow2((e + 1) as nat) as int);
    lemma_pow2_adds(126, (e + 1) as nat);
}

/// Restricts a value to a certain interval.
pub fn clamp(x: i32, min: i32, max: i32) -> (r: i32)
    ensures
        r == (if x < min { min } else if x > max { max } else { x }),
{
    if x < min {
        min
    } else if x > max {
        max
    } else {
        x
    }
}

/// Pattern of `x` with `n` added to its exponent field, the sum clamped to
/// the representable range instead of wrapping.
pub open spec fn scale_pat(x: u32, n: int) -> u32 {
    let e = exp_field(x) + n;
    let e2 = if e < 0 { 0 } else if e > 255 { 255 } else { e };
    ((x & 0x807f_ffff) | ((e2 as u32) << 23)) as u32
}

/// Multiplies `x` by `2^n`, exactly, by adding `n` to the exponent field; the
/// new exponent saturates at the ends of the representable range rather than
/// wrapping, so very large results flush to the maximal exponent and very
/// small ones to zero.
pub fn scale(x: u32, n: i32) -> (r: u32)
    ensures
        r == scale_pat(x, n as int),
        sign_field(r) == sign_field(x),
        man_field(r) == man_field(x),
        is_normal(x) && 1 <= exp_field(x) + n <= 254 ==> is_normal(r) && exp_field(r) == exp_field(
            x,
        ) + n && fmag(r) * pow2(255) == fmag(x) * pow2((255 + n) as nat),
{
    let e: i64 = (((x >> 23) & 0xff) as i64) + (n as i64);
    let e2: u32 = if e < 0 {
        0
    } else if e > 255 {
        255
    } else {
        e as u32
    };
    let r: u32 = (x & 0x807f_ffff) | (e2 << 23);
    proof {
        lemma_fields(x);
        assert((r >> 31) == (x >> 31) && ((r >> 23) & 0xff) == e2 && (r & 0x007f_ffff) == (x
            & 0x007f_ffff)) by (bit_vector)
            requires
                r == ((x & 0x807f_ffff) | (e2 << 23)),
                e2 <= 255,
        ;
        if is_normal(x) && 1 <= exp_field(x) + n <= 254 {
            lemma_scale_value(x, r, n as int);
        }
    }
    r
}

/// Value relation of exact scaling: adding `n` to the exponent field within
/// the normal range multiplies the magnitude by `2^n`, stated without signed
/// exponents as `mag(r) * 2^255 == mag(x) * 2^(255 + n)`.
proof fn lemma_scale_value(x: u32, r: u32, n: int)
    requires
        is_normal(x),
        1 <= exp_field(x) + n <= 254,
        exp_field(r) == exp_field(x) + n,
        man_field(r) == man_field(x),
    ensures
        fmag(r) * pow2(255) == fmag(x) * pow2((255 + n) as nat),
{
    let m: int = 0x80_0000 + man_field(x);
    let e: nat = (exp_field(x) - 1) as nat;
    let e2: nat = (exp_field(x) + n - 1) as nat;
    // (m * 2^e2) * 2^255 == (m * 2^e) * 2^(255 + n): both are m * 2^(e2 + 255).
    lemma_mul_is_associative(m, pow2(e2) as int, pow2(255) as int);
    lemma_pow2_adds(e2, 255);
    lemma_mul_is_associative(m, pow2(e) as int, pow2((255 + n) as nat) as int);
    lemma_pow2_adds(e, (255 + n) as nat);
}

/// The rounded value of `x` fits a 32-bit signed integer: `x` is finite and
/// its magnitude is below 2^31 (scaled: 2^180).
pub open spec fn round_small_ok(x: u32) -> bool {
    is_finite(x) && fmag(x) < pow2(180)
}

/// Checks whether [`round_small`] accepts `x`: every finite pattern whose
/// magnitude pattern is below that of 2^31 has its value below 2^31.
pub fn fits_round_small(x: u32) -> (r: bool)
    ensures
        r == round_small_ok(x),
{
    let finite: bool = ((x >> 23) & 0xff) != 255;
    let small: bool = (x & 0x7fff_ffff) < 0x4f00_0000;
    proof {
        if finite {
            lemma_sign_fields(x);
            lemma_fields(0x4f00_0000u32);
            lemma2_to64();
            lemma_pow2_adds(23, 157);
            assert(fmag(0x4f00_0000u32) == pow2(180));
            crate::float::lemma_emag_order(x & 0x7fff_ffff, 0x4f00_0000u32);
        }
    }
    finite && small
}

/// Nearest integer to the magnitude of a finite `x`, ties to even.
pub open spec fn round_mag(x: u32) -> int {
    let e = exp_field(x) as int;
    if e < 126 {
        0
    } else if e >= 150 {
        (0x80_0000 + man_field(x)) * pow2((e - 150) as nat)
    } else {
        let m24 = 0x80_0000 + man_field(x) as int;
        let s = (150 - e) as nat;
        let q = m24 / (pow2(s) as int);
        let rem = m24 % (pow2(s) as int);
        let half = pow2((s - 1) as nat) as int;
        if rem > half || (rem == half && q % 2 == 1) {
            q + 1
        } else {
            q
        }
    }
}

/// Nearest signed integer to the value of `x`, ties to even.
pub open spec fn round_small_pat(x: u32) -> int {
    if sign_field(x) == 0 {
        round_mag(x)
    } else {
        -round_mag(x)
    }
}

/// Rounds `x` to the nearest integer, ties to even; the result differs from
/// the value of `x` by at most one half. Hence it only works for the inputs
/// whose nearest integer fits in a 32-bit machine signed integer.
pub fn round_small(x: u32) -> (r: i32)
    requires
        round_small_ok(x),
    ensures
        r == round_small_pat(x),
        -0x7fff_ffff <= r <= 0x7fff_ffff,
        -(pow2(149) as int) <= 2 * (fval(x) - int_val(r as int)),
        2 * (fval(x) - int_val(r as int)) <= pow2(149),
{
    proof {
        lemma_fields(x);
        lemma2_to64();
        lemma_round_small_nearest(x);
        broadcast use lemma_pow2_pos;

    }
    let e: u32 = (x >> 23) & 0xff;
    let k: u32 = if e < 126 {
        0
    } else if e >= 150 {
        let m24: u32 = 0x80_0000 + (x & 0x007f_ffff);
        let sh: u32 = e - 150;
        proof {
            lemma_round_exp_bound(x);
            // fmag(x) == (m24 * 2^sh) * 2^149, so m24 * 2^sh < 2^31
            lemma_pow2_adds(sh as nat, 149);
            lemma_mul_is_associative(m24 as int, pow2(sh as nat) as int, pow2(149) as int);
            if m24 * pow2(sh as nat) >= 0x8000_0000 {
                lemma_mul_inequality(
                    0x8000_0000,
                    (m24 * pow2(sh as nat)) as int,
                    pow2(149) as int,
                );
                lemma_pow2_adds(31, 149);
            }
            vstd::bits::lemma_u32_shl_is_mul(m24, sh);
        }
        m24 << sh
    } else {
        let m24: u32 = 0x80_0000 + (x & 0x007f_ffff);
        let s: u32 = 150 - e;
        proof {
            vstd::bits::lemma_u32_pow2_no_overflow(s as nat);
            vstd::bits::lemma_u32_pow2_no_overflow((s - 1) as nat);
            vstd::bits::lemma_u32_shl_is_mul(1u32, s);
            vstd::bits::lemma_u32_shl_is_mul(1u32, (s - 1) as u32);
            vstd::bits::lemma_u32_shr_is_div(m24, s);
            vstd::bits::lemma_low_bits_mask_values();
            lemma_pow2_strictly_increases(0, s as nat);
            vstd::arithmetic::div_mod::lemma_fundamental_div_mod(
                m24 as int,
                pow2(s as nat) as int,
            );
            assert(0 <= (m24 as int) / (pow2(s as nat) as int) < 0x80_0000) by (nonlinear_arith)
                requires
                    (m24 as int) == pow2(s as nat) * ((m24 as int) / (pow2(s as nat) as int)) + (
                    m24 as int) % (pow2(s as nat) as int),
                    0 <= (m24 as int) % (pow2(s as nat) as int),
                    pow2(s as nat) >= 2,
                    m24 < 0x100_0000,
            ;
        }
        let q: u32 = m24 >> s;
        let mask: u32 = (1u32 << s) - 1;
        let rem: u32 = m24 & mask;
        let half: u32 = 1u32 << (s - 1);
        proof {
            vstd::bits::lemma_u32_low_bits_mask_is_mod(m24, s as nat);
            vstd::bits::lemma_u32_low_bits_mask_is_mod(q, 1);
            assert(mask == vstd::bits::low_bits_mask(s as nat));
        }
        if rem > half || (rem == half && (q & 1) == 1) {
            q + 1
        } else {
            q
        }
    };
    if (x >> 31) == 1 {
        (-(k as i64)) as i32
    } else {
        k as i32
    }
}

/// A pattern accepted by [`round_small`] has an exponent field of at most 157.
proof fn lemma_round_exp_bound(x: u32)
    requires
        round_small_ok(x),
    ensures
        exp_field(x) <= 157,
{
    lemma_fields(x);
    broadcast use lemma_pow2_pos;

    if exp_field(x) > 157 {
        let e: nat = (exp_field(x) - 1) as nat;
        lemma_mul_inequality(0x80_0000, 0x80_0000 + man_field(x), pow2(e) as int);
        lemma2_to64();
        lemma_pow2_adds(23, e);
        lemma_pow2_strictly_increases(180, (23 + e) as nat);
    }
}

/// An input whose value is exactly an integer rounds to that integer.
pub proof fn lemma_round_small_exact(x: u32, k: int)
    requires
        round_small_ok(x),
        fval(x) == int_val(k),
    ensures
        round_small_pat(x) == k,
{
    lemma_fields(x);
    crate::float::lemma_fmag_bounds(x);
    lemma2_to64();
    broadcast use lemma_pow2_pos;

    let a: int = if k >= 0 {
        k
    } else {
        -k
    };
    // the magnitude of x is |k| * 2^149 and the sign field follows the sign of k
    lemma_mul_unary_negation(k, pow2(149) as int);
    if k > 0 {
        lemma_mul_strictly_positive(k, pow2(149) as int);
    }
    if k < 0 {
        lemma_mul_strictly_positive(-k, pow2(149) as int);
    }
    assert(fmag(x) == a * pow2(149));
    let e: int = exp_field(x) as int;
    let m24: int = 0x80_0000 + man_field(x);
    if e < 126 {
        // the magnitude is below 2^148 < 2^149, so |k| < 1
        assert(fmag(x) < pow2(148)) by {
            if e == 0 {
                lemma_pow2_strictly_increases(23, 148);
            } else {
                lemma_mul_strict_inequality(m24, 0x100_0000, pow2((e - 1) as nat) as int);
                lemma_pow2_adds(24, (e - 1) as nat);
                if 23 + e < 148 {
                    lemma_pow2_strictly_increases((23 + e) as nat, 148);
                }
            }
        };
        lemma_pow2_strictly_increases(148, 149);
        if a >= 1 {
            lemma_mul_inequality(1, a, pow2(149) as int);
        }
    } else if e >= 150 {
        // exact: the rounded magnitude is m24 * 2^(e-150) and reproduces fmag
        let kk: int = m24 * (pow2((e - 150) as nat) as int);
        assert(fmag(x) == kk * pow2(149)) by {
            lemma_pow2_adds((e - 150) as nat, 149);
            lemma_mul_is_associative(m24, pow2((e - 150) as nat) as int, pow2(149) as int);
        };
        assert(kk == a) by {
            lemma_mul_is_commutative(kk, pow2(149) as int);
            lemma_mul_is_commutative(a, pow2(149) as int);
            lemma_mul_equality_converse(pow2(149) as int, kk, a);
        };
    } else {
        // m24 * 2^(e-1) == a * (2^s * 2^(e-1)), so m24 == a * 2^s exactly
        let s: nat = (150 - e) as nat;
        let p: int = pow2(s) as int;
        assert(fmag(x) == (a * p) * pow2((e - 1) as nat)) by {
            lemma_pow2_adds(s, (e - 1) as nat);
            lemma_mul_is_associative(a, p, pow2((e - 1) as nat) as int);
        };
        assert(m24 == a * p) by {
            lemma_mul_is_commutative(m24, pow2((e - 1) as nat) as int);
            lemma_mul_is_commutative(a * p, pow2((e - 1) as nat) as int);
            lemma_mul_equality_converse(pow2((e - 1) as nat) as int, m24, a * p);
        };
        vstd::arithmetic::div_mod::lemma_fundamental_div_mod_converse(m24, p, a, 0);
    }
}

/// The rounded value differs from the value of `x` by at most one half.
pub proof fn lemma_round_small_nearest(x: u32)
    requires
        round_small_ok(x),
    ensures
        -(pow2(149) as int) <= 2 * (fval(x) - int_val(round_small_pat(x))),
        2 * (fval(x) - int_val(round_small_pat(x))) <= pow2(149),
{
    lemma_round_mag_nearest(x);
    if sign_field(x) == 0 {
        assert(fval(x) == fmag(x));
        assert(int_val(round_small_pat(x)) == round_mag(x) * pow2(149));
    } else {
        lemma_mul_unary_negation(round_mag(x), pow2(149) as int);
        assert(fval(x) == -fmag(x));
        assert(int_val(round_small_pat(x)) == -(round_mag(x) * pow2(149)));
        assert(2 * (fval(x) - int_val(round_small_pat(x))) == -(2 * (fmag(x) - round_mag(x)
            * pow2(149))));
    }
}

/// The rounded magnitude differs from the magnitude by at most one half.
proof fn lemma_round_mag_nearest(x: u32)
    requires
        round_small_ok(x),
    ensures
        -(pow2(149) as int) <= 2 * (fmag(x) - round_mag(x) * pow2(149)),
        2 * (fmag(x) - round_mag(x) * pow2(149)) <= pow2(149),
{
    lemma_fields(x);
    lemma2_to64();
    broadcast use lemma_pow2_pos;

    let e: int = exp_field(x) as int;
    let m24: int = 0x80_0000 + man_field(x);
    if e < 126 {
        // the magnitude itself is below half: 2 * mag < 2^149
        assert(fmag(x) < pow2(148)) by {
            if e == 0 {
                lemma_pow2_strictly_increases(23, 148);
            } else {
                lemma_mul_strict_inequality(m24, 0x100_0000, pow2((e - 1) as nat) as int);
                lemma_pow2_adds(24, (e - 1) as nat);
                if 23 + e < 148 {
                    lemma_pow2_strictly_increases((23 + e) as nat, 148);
                }
            }
        };
        crate::float::lemma_fmag_bounds(x);
        lemma_pow2_adds(1, 148);
        lemma_mul_basics(pow2(149) as int);
    } else if e >= 150 {
        // exact: m24 * 2^(e-1) == (m24 * 2^(e-150)) * 2^149
        lemma_pow2_adds((e - 150) as nat, 149);
        lemma_mul_is_associative(m24, pow2((e - 150) as nat) as int, pow2(149) as int);
    } else {
        let s: nat = (150 - e) as nat;
        let p: int = pow2(s) as int;
        let pe: int = pow2((e - 1) as nat) as int;
        vstd::arithmetic::div_mod::lemma_fundamental_div_mod(m24, p);
        vstd::arithmetic::div_mod::lemma_mod_bound(m24, p);
        let q: int = m24 / p;
        let rem: int = m24 % p;
        let half: int = pow2((s - 1) as nat) as int;
        let k: int = round_mag(x);
        lemma_pow2_adds(1, (s - 1) as nat);
        lemma_pow2_adds(s, (e - 1) as nat);
        assert(fmag(x) - k * (pow2(149) as int) == (m24 - k * p) * pe) by (nonlinear_arith)
            requires
                fmag(x) == m24 * pe,
                (pow2(149) as int) == p * pe,
        ;
        assert(-half <= m24 - k * p <= half) by (nonlinear_arith)
            requires
                m24 == p * q + rem,
                0 <= rem < p,
                p == 2 * half,
                k == (if rem > half || (rem == half && q % 2 == 1) {
                    q + 1
                } else {
                    q
                }),
        ;
        assert(-(pow2(149) as int) <= 2 * ((m24 - k * p) * pe) <= pow2(149)) by (nonlinear_arith)
            requires
                -half <= m24 - k * p <= half,
                (pow2(149) as int) == p * pe,
                p == 2 * half,
                pe > 0,
                half > 0,
        ;
    }
}

/// Position of the highest set bit: the largest `t` with `2^t <= a`.
pub open spec fn floor_log2(a: nat) -> nat
    decreases a,
{
    if a <= 1 {
        0
    } else {
        1 + floor_log2(a / 2)
    }
}

/// The power at the highest set bit brackets the number.
pub proof fn lemma_floor_log2_bounds(a: nat)
    requires
        a >= 1,
    ensures
        pow2(floor_log2(a)) <= a < pow2(floor_log2(a) + 1),
    decreases a,
{
    lemma2_to64();
    if a <= 1 {
    } else {
        lemma_floor_log2_bounds(a / 2);
        let t: nat = floor_log2(a / 2);
        vstd::arithmetic::div_mod::lemma_fundamental_div_mod(a as int, 2);
        vstd::arithmetic::div_mod::lemma_mod_bound(a as int, 2);
        lemma_pow2_adds(1, t);
        lemma_pow2_adds(1, (t + 1) as nat);
    }
}

/// Pattern of the float nearest to the integer `k`, ties to even: the
/// magnitude is normalized to the highest set bit and, above 24 bits, rounded
/// into the 24-bit mantissa, carrying into the exponent when it overflows.
pub open spec fn to_float_pat(k: i32) -> u32 {
    let a = if k >= 0 {
        k as int
    } else {
        -(k as int)
    };
    let s: u32 = if k < 0 {
        1
    } else {
        0
    };
    if a == 0 {
        0
    } else {
        let t = floor_log2(a as nat);
        if t <= 23 {
            make_pat(s, (127 + t) as u32, (a * pow2((23 - t) as nat) - 0x80_0000) as u32)
        } else {
            let sh = (t - 23) as nat;
            let q = a / (pow2(sh) as int);
            let rem = a % (pow2(sh) as int);
            let half = pow2((sh - 1) as nat) as int;
            let q2 = if rem > half || (rem == half && q % 2 == 1) {
                q + 1
            } else {
                q
            };
            if q2 == 0x100_0000 {
                make_pat(s, (127 + t + 1) as u32, 0)
            } else {
                make_pat(s, (127 + t) as u32, (q2 - 0x80_0000) as u32)
            }
        }
    }
}

/// Converts an integer to the nearest float, ties to even; exact whenever the
/// magnitude has at most 24 bits.
pub fn to_float(k: i32) -> (r: u32)
    ensures
        r == to_float_pat(k),
{
    let a: u32 = if k >= 0 {
        k as u32
    } else {
        #[verifier::truncate] ((-(k as i64)) as u32)
    };
    let s: u32 = if k < 0 {
        1
    } else {
        0
    };
    if a == 0 {
        return 0;
    }
    proof {
        lemma2_to64();
        broadcast use lemma_pow2_pos;

        assert((a >> 0u32) == a) by (bit_vector);
    }
    let mut t: u32 = 0;
    while (a >> t) >= 2
        invariant
            t <= 31,
            (a >> t) >= 1,
            floor_log2(a as nat) == t + floor_log2((a >> t) as nat),
        decreases (a >> t),
    {
        proof {
            lemma2_to64();
            vstd::bits::lemma_u32_shr_is_div(a, t);
            assert((a as int) / (pow2(31) as int) <= 1) by (nonlinear_arith)
                requires
                    a <= 0xffff_ffffu32,
                    pow2(31) == 0x8000_0000,
            ;
            assert(t < 31);
            vstd::bits::lemma_u32_shr_is_div(a, (t + 1) as u32);
            lemma_pow2_adds(t as nat, 1);
            vstd::arithmetic::div_mod::lemma_div_denominator(
                a as int,
                pow2(t as nat) as int,
                2,
            );
        }
        t = t + 1;
    }
    proof {
        vstd::bits::lemma_u32_shr_is_div(a, t);
        lemma_floor_log2_bounds(a as nat);
        lemma_floor_log2_bounds((a >> t) as nat);
        assert(floor_log2((a >> t) as nat) == 0);
        // now t is the highest set bit: 2^t <= a < 2^(t+1)
        vstd::arithmetic::div_mod::lemma_fundamental_div_mod(a as int, pow2(t as nat) as int);
        vstd::arithmetic::div_mod::lemma_mod_bound(a as int, pow2(t as nat) as int);
    }
    if t <= 23 {
        let sh: u32 = 23 - t;
        proof {
            vstd::bits::lemma_u32_pow2_no_overflow(sh as nat);
            lemma_pow2_adds((t + 1) as nat, sh as nat);
            lemma_pow2_adds(t as nat, sh as nat);
            assert(a * pow2(sh as nat) < pow2(24)) by (nonlinear_arith)
                requires
                    a < pow2((t + 1) as nat),
                    pow2((t + 1) as nat) * pow2(sh as nat) == pow2(24),
                    pow2(sh as nat) > 0,
            ;
            assert(a * pow2(sh as nat) >= pow2(23)) by (nonlinear_arith)
                requires
                    a >= pow2(t as nat),
                    pow2(t as nat) * pow2(sh as nat) == pow2(23),
            ;
            vstd::bits::lemma_u32_shl_is_mul(a, sh);
            lemma_make_fields(s, (127 + t) as u32, ((a << sh) - 0x80_0000) as u32);
        }
        let man: u32 = (a << sh) - 0x80_0000;
        (s << 31) | ((127 + t) << 23) | man
    } else {
        let sh: u32 = t - 23;
        proof {
            vstd::bits::lemma_u32_pow2_no_overflow(sh as nat);
            vstd::bits::lemma_u32_pow2_no_overflow((sh - 1) as nat);
            vstd::bits::lemma_u32_shl_is_mul(1u32, sh);
            vstd::bits::lemma_u32_shl_is_mul(1u32, (sh - 1) as u32);
            vstd::bits::lemma_u32_shr_is_div(a, sh);
            vstd::bits::lemma_low_bits_mask_values();
            lemma_pow2_strictly_increases(0, sh as nat);
            lemma_pow2_adds(sh as nat, 23);
            lemma_pow2_adds(sh as nat, 24);
            vstd::arithmetic::div_mod::lemma_fundamental_div_mod(
                a as int,
                pow2(sh as nat) as int,
            );
            vstd::arithmetic::div_mod::lemma_mod_bound(a as int, pow2(sh as nat) as int);
            // the quotient keeps exactly 24 significant bits
            assert(pow2(23) <= (a as int) / (pow2(sh as nat) as int) < pow2(24)) by (nonlinear_arith)
                requires
                    (a as int) == pow2(sh as nat) * ((a as int) / (pow2(sh as nat) as int)) + (
                    a as int) % (pow2(sh as nat) as int),
                    0 <= (a as int) % (pow2(sh as nat) as int) < pow2(sh as nat),
                    pow2(t as nat) <= a < pow2((t + 1) as nat),
                    pow2(t as nat) == pow2(sh as nat) * pow2(23),
                    pow2((t + 1) as nat) == pow2(sh as nat) * pow2(24),
                    pow2(sh as nat) > 0,
            ;
        }
        let q: u32 = a >> sh;
        let mask: u32 = (1u32 << sh) - 1;
        let rem: u32 = a & mask;
        let half: u32 = 1u32 << (sh - 1);
        proof {
            vstd::bits::lemma_u32_low_bits_mask_is_mod(a, sh as nat);
            vstd::bits::lemma_u32_low_bits_mask_is_mod(q, 1);
            assert(mask == vstd::bits::low_bits_mask(sh as nat));
        }
        let q2: u32 = if rem > half || (rem == half && (q & 1) == 1) {
            q + 1
        } else {
            q
        };
        proof {
            lemma_make_fields(s, (127 + t + 1) as u32, 0);
            if q2 != 0x100_0000 {
                lemma_make_fields(s, (127 + t) as u32, (q2 - 0x80_0000) as u32);
            }
        }
        if q2 == 0x100_0000 {
            let man0: u32 = 0;
            (s << 31) | ((127 + t + 1) << 23) | man0
        } else {
            (s << 31) | ((127 + t) << 23) | (q2 - 0x80_0000)
        }
    }
}

/// Conversion is exact for every integer of at most 24 bits of magnitude.
pub proof fn lemma_to_float_exact(k: i32)
    requires
        -0x100_0000 <= k <= 0x100_0000,
    ensures
        is_finite(to_float_pat(k)),
        fval(to_float_pat(k)) == int_val(k as int),
        k > 0 ==> sign_field(to_float_pat(k)) == 0,
        k < 0 ==> sign_field(to_float_pat(k)) == 1,
        k == 0 ==> to_float_pat(k) == 0,
{
    lemma2_to64();
    broadcast use lemma_pow2_pos;

    let a: int = if k >= 0 {
        k as int
    } else {
        -(k as int)
    };
    let s: u32 = if k < 0 {
        1
    } else {
        0
    };
    lemma_mul_unary_negation(k as int, pow2(149) as int);
    if a == 0 {
        lemma_fields(0u32);
        assert(fmag(0u32) == 0);
    } else {
        lemma_floor_log2_bounds(a as nat);
        let t: nat = floor_log2(a as nat);
        // a <= 2^24 bounds the highest bit position by 24
        if t > 24 {
            lemma_pow2_strictly_increases(24, t);
        }
        if t <= 23 {
            let m: int = a * pow2((23 - t) as nat) - 0x80_0000;
            lemma_pow2_adds(t, (23 - t) as nat);
            lemma_pow2_adds((t + 1) as nat, (23 - t) as nat);
            assert(pow2(23) <= a * pow2((23 - t) as nat) < pow2(24)) by (nonlinear_arith)
                requires
                    pow2(t) <= a < pow2((t + 1) as nat),
                    pow2(t) * pow2((23 - t) as nat) == pow2(23),
                    pow2((t + 1) as nat) * pow2((23 - t) as nat) == pow2(24),
                    pow2((23 - t) as nat) > 0,
            ;
            lemma_make_fields(s, (127 + t) as u32, m as u32);
            let p: u32 = make_pat(s, (127 + t) as u32, m as u32);
            lemma_pow2_adds((23 - t) as nat, (126 + t) as nat);
            // fmag == (2^23 + m) * 2^(126 + t) == a * 2^(23 - t) * 2^(126 + t) == a * 2^149
            assert(fmag(p) == a * pow2(149)) by (nonlinear_arith)
                requires
                    fmag(p) == (0x80_0000 + m) * (pow2((126 + t) as nat) as int),
                    0x80_0000 + m == a * pow2((23 - t) as nat),
                    pow2((23 - t) as nat) * pow2((126 + t) as nat) == pow2(149),
            ;
        } else {
            // t == 24 and a == 2^24: one shift step with a zero remainder
            assert(a == 0x100_0000);
            let sh: nat = (t - 23) as nat;
            assert(pow2(sh) == 2);
            vstd::arithmetic::div_mod::lemma_fundamental_div_mod_converse(
                a,
                2,
                0x80_0000,
                0,
            );
            let p: u32 = make_pat(s, (127 + t) as u32, 0);
            lemma_make_fields(s, (127 + t) as u32, 0);
            assert(fmag(p) == 0x80_0000 * (pow2(150) as int));
            lemma_pow2_adds(1, 149);
            assert(0x80_0000 * (pow2(150) as int) == a * pow2(149)) by (nonlinear_arith)
                requires
                    pow2(150) == 2 * pow2(149),
                    a == 2 * 0x80_0000,
            ;
        }
    }
    if k != 0 {
        lemma_mul_strictly_positive(a, pow2(149) as int);
    }
}

/// The one-bit and two-bit masks accepted by [`modulo_mask`].
pub proof fn lemma_small_masks()
    ensures
        is_low_mask(1),
        is_low_mask(3),
{
    assert((1u32 & 2u32) == 0 && (3u32 & 4u32) == 0) by (bit_vector);
}

/// Determines if `n` is an even integer.
pub fn is_even(n: i32) -> (r: bool)
    ensures
        r == ((n as int) % 2 == 0),
{
    proof {
        lemma_small_masks();
        lemma_i32_mask_mod(n, 1);
    }
    n & 0x1 == 0x0
}

/// Determines if `n` is an odd integer.
pub fn is_odd(n: i32) -> (r: bool)
    ensures
        r == ((n as int) % 2 == 1),
{
    proof {
        lemma_small_masks();
        lemma_i32_mask_mod(n, 1);
    }
    n & 0x1 == 0x1
}

/// The mask has all ones in its low bits and nothing above: using it with a
/// bitwise `and` computes a remainder.
pub open spec fn is_low_mask(m: u32) -> bool {
    m & ((m + 1) as u32) == 0
}

/// Determines if `m` is of the low-bits form that [`modulo_mask`] accepts.
pub fn is_modulo_mask(m: u32) -> (r: bool)
    ensures
        r == is_low_mask(m),
{
    let next: u32 = if m == 0xffff_ffff {
        0
    } else {
        m + 1
    };
    proof {
        assert(next == ((m + 1) as u32)) by (bit_vector)
            requires
                next == (if m == 0xffff_ffff { 0u32 } else { (m + 1) as u32 }),
        ;
    }
    m & next == 0
}

/// Calculates `n` modulo `m + 1`, where `m` is a low-bits mask; the result is
/// always nonnegative.
pub fn modulo_mask(n: i32, m: u32) -> (r: u32)
    requires
        is_low_mask(m),
    ensures
        r == (n as int) % (m as int + 1),
{
    proof {
        lemma_i32_mask_mod(n, m);
    }
    #[verifier::truncate] ((n & (m as i32)) as u32)
}

/// Every low-bits mask is one less than a power of two.
proof fn lemma_low_mask_pow2(m: u32) -> (k: nat)
    requires
        is_low_mask(m),
    ensures
        k <= 32,
        m == pow2(k) - 1,
    decreases m,
{
    if m == 0 {
        lemma2_to64();
        0
    } else {
        assert((m & 1) == 1 && ((m >> 1) & (((m >> 1) + 1) as u32)) == 0 && m == 2 * (m >> 1) + 1
            && (m >> 1) < m && (m >> 1) <= 0x7fff_ffff) by (bit_vector)
            requires
                m & ((m + 1) as u32) == 0,
                m != 0,
        ;
        let k1 = lemma_low_mask_pow2(m >> 1);
        lemma_pow2_adds(1, k1);
        lemma2_to64();
        if k1 >= 32 {
            lemma_pow2_strictly_increases(31, k1);
        }
        (k1 + 1) as nat
    }
}

/// Masking a two's-complement integer with a low-bits mask computes its
/// (nonnegative) remainder modulo the mask plus one.
#[verifier::rlimit(50)]
proof fn lemma_i32_mask_mod(n: i32, m: u32)
    requires
        is_low_mask(m),
    ensures
        ((n & (m as i32)) as u32) == (n as int) % (m as int + 1),
        ((n & (m as i32)) as u32) == 0 <==> (n & (m as i32)) == 0,
        ((n & (m as i32)) as u32) == 1 <==> (n & (m as i32)) == 1,
{
    broadcast use lemma_pow2_pos;

    let nu: u32 = #[verifier::truncate] (n as u32);
    let q: int = m as int + 1;
    let k: nat = lemma_low_mask_pow2(m);
    lemma2_to64();
    assert(((n & (m as i32)) as u32) == (nu & m) && (n < 0 ==> nu == n + 0x1_0000_0000) && (n >= 0
        ==> nu == n) && (((n & (m as i32)) as u32) == 0 <==> (n & (m as i32)) == 0) && (((n & (
    m as i32)) as u32) == 1 <==> (n & (m as i32)) == 1)) by (bit_vector)
        requires
            nu == (n as u32),
    ;
    if k < 32 {
        lemma_pow2_strictly_increases(k, 32);
        assert(vstd::bits::low_bits_mask(k) == m as nat);
        vstd::bits::lemma_u32_low_bits_mask_is_mod(nu, k);
        assert((nu & m) == (nu as int) % q);
    } else {
        // m is the all-ones mask and q is 2^32.
        lemma2_to64();
        assert((nu & 0xffff_ffffu32) == nu) by (bit_vector);
        vstd::arithmetic::div_mod::lemma_small_mod(nu as nat, pow2(32));
        assert((nu & m) == (nu as int) % q);
    }
    // 2^32 == 2^(32-k) * 2^k, so shifting by a multiple of 2^32 keeps the remainder.
    lemma_pow2_adds((32 - k) as nat, k);
    lemma2_to64();
    let t: int = pow2((32 - k) as nat) as int;
    if n < 0 {
        vstd::arithmetic::div_mod::lemma_mod_multiples_vanish(-t, nu as int, q);
        assert(q * (-t) + nu == n as int) by {
            lemma_mul_is_commutative(q, -t);
            lemma_mul_is_commutative(q, t);
            lemma_mul_unary_negation(q, t);
        };
    }
}


/// The unique integer square root: the largest `s` with `s * s <= v`.
pub open spec fn isqrt_spec(v: int) -> int {
    choose|s: int| 0 <= s && #[trigger] (s * s) <= v < (s + 1) * (s + 1)
}

/// The integer square root is unique.
pub proof fn lemma_isqrt_unique(v: int, s: int)
    requires
        0 <= s,
        s * s <= v,
        v < (s + 1) * (s + 1),
    ensures
        isqrt_spec(v) == s,
{
    assert(exists|t: int| 0 <= t && #[trigger] (t * t) <= v < (t + 1) * (t + 1)) by {
        assert(0 <= s && s * s <= v < (s + 1) * (s + 1));
    };
    let t: int = isqrt_spec(v);
    if t < s {
        vstd::arithmetic::mul::lemma_mul_inequality(t + 1, s, s);
        vstd::arithmetic::mul::lemma_mul_inequality(t + 1, s, t + 1);
    }
    if s < t {
        vstd::arithmetic::mul::lemma_mul_inequality(s + 1, t, t);
        vstd::arithmetic::mul::lemma_mul_inequality(s + 1, t, s + 1);
    }
}

/// Integer square root by binary search.
fn isqrt64(v: u64) -> (r: u64)
    requires
        v < 0x8_0000_0000_0000,
    ensures
        r * r <= v < (r + 1) * (r + 1),
        r == isqrt_spec(v as int),
        r < 0x400_0000,
{
    let mut lo: u64 = 0;
    let mut hi: u64 = 0x400_0000;
    proof {
        assert((0x400_0000 * 0x400_0000) as int == 0x10_0000_0000_0000) by (nonlinear_arith);
    }
    while lo + 1 < hi
        invariant
            lo < hi <= 0x400_0000,
            lo * lo <= v,
            v < hi * hi,
        decreases hi - lo,
    {
        let mid: u64 = lo + (hi - lo) / 2;
        proof {
            assert(lo <= mid && mid < hi && mid * mid < 0x10_0000_0000_0000) by (nonlinear_arith)
                requires
                    mid == lo + (hi - lo) / 2,
                    lo + 1 < hi,
                    hi <= 0x400_0000,
            ;
        }
        if mid * mid <= v {
            lo = mid;
        } else {
            hi = mid;
        }
    }
    proof {
        lemma_isqrt_unique(v as int, lo as int);
    }
    lo
}

/// Pattern that [`sqrt`] computes: the magnitude normalized to an even power
/// of two, the integer square root of the shifted mantissa, rounded back into
/// a float and rescaled by half the exponent.
pub open spec fn sqrt_pat(x: u32) -> u32 {
    if is_nan(x) || (sign_field(x) == 1 && (x & 0x7fff_ffff) != 0) {
        crate::float::NAN
    } else if (x & 0x7fff_ffff) == 0 || exp_field(x) == 255 {
        x
    } else {
        let m24 = if exp_field(x) == 0 {
            man_field(x) as int
        } else {
            0x80_0000 + man_field(x)
        };
        let e0 = if exp_field(x) == 0 {
            1int
        } else {
            exp_field(x) as int
        };
        let sh = if e0 % 2 == 0 {
            26int
        } else {
            27int
        };
        let t = (if e0 % 2 == 0 {
            e0 / 2
        } else {
            (e0 - 1) / 2
        }) - 88;
        let s = isqrt_spec(m24 * pow2(sh as nat));
        scale_pat(to_float_pat(s as i32), t)
    }
}

/// Computes the square root of a number: the integer square root of the
/// mantissa shifted to an even exponent, rounded to the nearest float and
/// rescaled. Zeros and the positive infinity come back unchanged; negative
/// values and NaNs give NaN.
pub fn sqrt(x: u32) -> (r: u32)
    ensures
        r == sqrt_pat(x),
{
    proof {
        lemma_fields(x);
        lemma2_to64();
        broadcast use lemma_pow2_pos;

    }
    let e: u32 = (x >> 23) & 0xff;
    let m: u32 = x & 0x007f_ffff;
    let nan: bool = e == 255 && m != 0;
    if nan || ((x >> 31) == 1 && (x & 0x7fff_ffff) != 0) {
        return crate::float::NAN;
    }
    if (x & 0x7fff_ffff) == 0 || e == 255 {
        return x;
    }
    let m24: u32 = if e == 0 {
        m
    } else {
        0x80_0000 + m
    };
    let e0: i32 = if e == 0 {
        1
    } else {
        e as i32
    };
    let sh: u32 = if (e0 % 2) == 0 {
        26
    } else {
        27
    };
    let t: i32 = (if (e0 % 2) == 0 {
        e0 / 2
    } else {
        (e0 - 1) / 2
    }) - 88;
    proof {
        vstd::bits::lemma_u64_shl_is_mul(m24 as u64, sh as u64);
        assert((m24 as int) * (pow2(sh as nat) as int) < 0x8_0000_0000_0000) by (nonlinear_arith)
            requires
                m24 < 0x100_0000,
                pow2(sh as nat) <= 0x800_0000,
        ;
        if sh == 26 {
            lemma_pow2_strictly_increases(26, 27);
        }
    }
    let v: u64 = (m24 as u64) << sh;
    let s: u64 = isqrt64(v);
    let f: u32 = to_float(s as i32);
    scale(f, t)
}
/// Magnitude of `x` rounded to the nearest integer, ties away from zero;
/// meaningful below 2^24, where every result is exactly representable.
pub open spec fn round_mag_away(x: u32) -> int {
    let e = exp_field(x) as int;
    if e < 126 {
        0
    } else {
        let m24 = 0x80_0000 + man_field(x) as int;
        let s = (150 - e) as nat;
        let q = m24 / (pow2(s) as int);
        let rem = m24 % (pow2(s) as int);
        let half = pow2((s - 1) as nat) as int;
        if rem >= half {
            q + 1
        } else {
            q
        }
    }
}

/// Pattern of `x` rounded to the nearest integer-valued float, ties away
/// from zero; inputs at or above 2^23 in magnitude (and NaNs and infinities)
/// are already integral and come back unchanged.
pub open spec fn round_float_pat(x: u32) -> u32 {
    if exp_field(x) >= 150 {
        x
    } else {
        let s = sign_field(x);
        let k = round_mag_away(x);
        if k == 0 {
            (s << 31) as u32
        } else {
            (to_float_pat(k as i32) | (s << 31)) as u32
        }
    }
}

/// Rounds `x` to the nearest integer-valued float, ties away from zero.
pub fn round(x: u32) -> (r: u32)
    ensures
        r == round_float_pat(x),
{
    proof {
        lemma_fields(x);
        lemma2_to64();
        broadcast use lemma_pow2_pos;

    }
    let e: u32 = (x >> 23) & 0xff;
    if e >= 150 {
        return x;
    }
    let s: u32 = x >> 31;
    let k: u32 = if e < 126 {
        0
    } else {
        let m24: u32 = 0x80_0000 + (x & 0x007f_ffff);
        let sft: u32 = 150 - e;
        proof {
            vstd::bits::lemma_u32_pow2_no_overflow(sft as nat);
            vstd::bits::lemma_u32_pow2_no_overflow((sft - 1) as nat);
            vstd::bits::lemma_u32_shl_is_mul(1u32, sft);
            vstd::bits::lemma_u32_shl_is_mul(1u32, (sft - 1) as u32);
            vstd::bits::lemma_u32_shr_is_div(m24, sft);
            vstd::bits::lemma_low_bits_mask_values();
            lemma_pow2_strictly_increases(0, sft as nat);
            vstd::arithmetic::div_mod::lemma_fundamental_div_mod(
                m24 as int,
                pow2(sft as nat) as int,
            );
            assert(0 <= (m24 as int) / (pow2(sft as nat) as int) < 0x80_0000) by (nonlinear_arith)
                requires
                    (m24 as int) == pow2(sft as nat) * ((m24 as int) / (pow2(sft as nat) as int)) + (
                    m24 as int) % (pow2(sft as nat) as int),
                    0 <= (m24 as int) % (pow2(sft as nat) as int),
                    pow2(sft as nat) >= 2,
                    m24 < 0x100_0000,
            ;
        }
        let q: u32 = m24 >> sft;
        let mask: u32 = (1u32 << sft) - 1;
        let rem: u32 = m24 & mask;
        let half: u32 = 1u32 << (sft - 1);
        proof {
            vstd::bits::lemma_u32_low_bits_mask_is_mod(m24, sft as nat);
            assert(mask == vstd::bits::low_bits_mask(sft as nat));
        }
        if rem >= half {
            q + 1
        } else {
            q
        }
    };
    if k == 0 {
        s << 31
    } else {
        to_float(k as i32) | (s << 31)
    }
}

/// Remainder modulo two of the rounded value of `x`, with the semantics of
/// casting the rounded float to a 64-bit signed integer (which saturates far
/// outside its range and maps a NaN to zero) and taking the truncated
/// remainder: a negative odd value gives minus one.
pub open spec fn modulo2_pat(x: u32) -> int {
    let e = exp_field(x) as int;
    let neg = sign_field(x) == 1;
    if is_nan(x) {
        0
    } else if e >= 213 {
        if neg {
            0
        } else {
            1
        }
    } else if e >= 151 {
        0
    } else if e == 150 {
        if man_field(x) % 2 == 1 {
            if neg {
                -1
            } else {
                1
            }
        } else {
            0
        }
    } else {
        if round_mag_away(x) % 2 == 1 {
            if neg {
                -1
            } else {
                1
            }
        } else {
            0
        }
    }
}

/// Calculates the rounded value of `x` modulo two, as a cast of the rounded
/// float to a 64-bit signed integer followed by the truncated remainder
/// behaves.
pub fn modulo2(x: u32) -> (r: i64)
    ensures
        r == modulo2_pat(x),
{
    proof {
        lemma_fields(x);
        lemma2_to64();
        broadcast use lemma_pow2_pos;

    }
    let e: u32 = (x >> 23) & 0xff;
    let m: u32 = x & 0x007f_ffff;
    let neg: bool = (x >> 31) == 1;
    if e == 255 && m != 0 {
        return 0;
    }
    if e >= 213 {
        return if neg {
            0
        } else {
            1
        };
    }
    if e >= 151 {
        return 0;
    }
    let odd: bool = if e == 150 {
        m & 1 == 1
    } else {
        proof {
            lemma_round_props(x);
        }
        let rounded: u32 = round(x);
        parity_of_int_float(rounded)
    };
    proof {
        vstd::bits::lemma_u32_low_bits_mask_is_mod(m, 1);
        vstd::bits::lemma_low_bits_mask_values();
    }
    if odd {
        if neg {
            -1
        } else {
            1
        }
    } else {
        0
    }
}

/// Parity of the integer value of an integral float pattern below 2^24,
/// read from its fields.
pub open spec fn parity_pat(p: u32) -> int {
    let e = exp_field(p) as int;
    if e == 150 {
        (man_field(p) as int) % 2
    } else if 126 <= e < 150 {
        ((0x80_0000 + man_field(p) as int) / (pow2((150 - e) as nat) as int)) % 2
    } else {
        0
    }
}

/// Reads the parity of an integral float pattern below 2^24.
fn parity_of_int_float(p: u32) -> (r: bool)
    ensures
        r == (parity_pat(p) == 1),
{
    proof {
        lemma_fields(p);
        lemma2_to64();
        broadcast use lemma_pow2_pos;

    }
    let e: u32 = (p >> 23) & 0xff;
    if e == 150 {
        proof {
            vstd::bits::lemma_u32_low_bits_mask_is_mod(p & 0x007f_ffff, 1);
            vstd::bits::lemma_low_bits_mask_values();
        }
        return ((p & 0x007f_ffff) & 1) == 1;
    }
    if e > 150 || e < 126 {
        return false;
    }
    let m24: u32 = 0x80_0000 + (p & 0x007f_ffff);
    let sft: u32 = 150 - e;
    proof {
        vstd::bits::lemma_u32_shr_is_div(m24, sft);
        vstd::bits::lemma_u32_low_bits_mask_is_mod(m24 >> sft, 1);
        vstd::bits::lemma_low_bits_mask_values();
    }
    ((m24 >> sft) & 1) == 1
}

/// The rounded float holds exactly the rounded magnitude, with the parity of
/// that integer visible in the fields of the result.
proof fn lemma_round_props(x: u32)
    requires
        exp_field(x) < 150,
    ensures
        ({
            let rounded = round_float_pat(x);
            let k = round_mag_away(x);
            &&& 0 <= k <= 0x100_0000
            &&& (k % 2 == 1 ==> parity_pat(rounded) == 1)
            &&& (k % 2 == 0 ==> parity_pat(rounded) != 1)
        }),
{
    lemma_fields(x);
    lemma2_to64();
    broadcast use lemma_pow2_pos;

    let e: int = exp_field(x) as int;
    let k: int = round_mag_away(x);
    // the rounded magnitude is an integer of at most 24 bits
    if e >= 126 {
        let s: nat = (150 - e) as nat;
        let p: int = pow2(s) as int;
        lemma_pow2_strictly_increases(0, s);
        vstd::arithmetic::div_mod::lemma_fundamental_div_mod(0x80_0000 + man_field(x) as int, p);
        vstd::arithmetic::div_mod::lemma_mod_bound(0x80_0000 + man_field(x) as int, p);
        assert(0 <= (0x80_0000 + man_field(x) as int) / p < 0x100_0000) by (nonlinear_arith)
            requires
                (0x80_0000 + man_field(x) as int) == p * ((0x80_0000 + man_field(x) as int) / p) + (
                0x80_0000 + man_field(x) as int) % p,
                0 <= (0x80_0000 + man_field(x) as int) % p < p,
                p >= 2,
                (0x80_0000 + man_field(x) as int) < 0x100_0000,
        ;
    }
    let s0: u32 = sign_field(x);
    if k > 0 {
        let f: u32 = to_float_pat(k as i32);
        lemma_to_float_exact(k as i32);
        lemma_parity_from_value(f, k);
        lemma_sign_or(f, s0);
    } else {
        assert((((s0 << 31) >> 23) & 0xff) == 0 && ((s0 << 31) & 0x007f_ffff) == 0) by (bit_vector)
            requires
                s0 <= 1,
        ;
    }
}

/// Setting the sign bit of a sign-free pattern keeps its other fields.
proof fn lemma_sign_or(f: u32, s: u32)
    requires
        s <= 1,
        sign_field(f) == 0,
    ensures
        exp_field((f | (s << 31)) as u32) == exp_field(f),
        man_field((f | (s << 31)) as u32) == man_field(f),
{
    assert((((f | (s << 31)) >> 23) & 0xff) == ((f >> 23) & 0xff) && ((f | (s << 31)) & 0x007f_ffff)
        == (f & 0x007f_ffff)) by (bit_vector)
        requires
            s <= 1,
    ;
}

/// A pattern holding the exact positive integer `k` of at most 2^24 carries
/// the parity of `k` in its fields.
proof fn lemma_parity_from_value(f: u32, k: int)
    requires
        0 < k <= 0x100_0000,
        is_finite(f),
        sign_field(f) == 0,
        fval(f) == int_val(k),
    ensures
        parity_pat(f) == 1 <==> k % 2 == 1,
{
    lemma_fields(f);
    lemma2_to64();
    broadcast use lemma_pow2_pos;

    let e: int = exp_field(f) as int;
    if e == 0 {
        // a subnormal magnitude is below 2^23, far below the scaled integer
        lemma_pow2_strictly_increases(23, 149);
        lemma_mul_inequality(1, k, pow2(149) as int);
    } else {
        let m24: int = 0x80_0000 + man_field(f) as int;
        assert(fmag(f) == m24 * pow2((e - 1) as nat));
        if e < 126 {
            // a value below one half cannot be a positive integer
            lemma_mul_strict_inequality(m24, 0x100_0000, pow2((e - 1) as nat) as int);
            lemma_pow2_adds(24, (e - 1) as nat);
            if 23 + e < 149 {
                lemma_pow2_strictly_increases((23 + e) as nat, 149);
            }
            lemma_mul_inequality(1, k, pow2(149) as int);
        } else if e >= 150 {
            // the value is at least 2^24: k is a multiple of two
            let d: int = m24 * (pow2((e - 150) as nat) as int);
            assert(fmag(f) == d * pow2(149)) by {
                lemma_pow2_adds((e - 150) as nat, 149);
                lemma_mul_is_associative(m24, pow2((e - 150) as nat) as int, pow2(149) as int);
            };
            assert(k == d) by {
                lemma_mul_is_commutative(d, pow2(149) as int);
                lemma_mul_is_commutative(k, pow2(149) as int);
                lemma_mul_equality_converse(pow2(149) as int, d, k);
            };
            if e == 150 {
                // k == 2^23 + man: the parities of k and of the mantissa agree
                lemma_mul_basics(m24);
                vstd::arithmetic::div_mod::lemma_mod_multiples_vanish(
                    -0x40_0000,
                    k as int,
                    2,
                );
            } else {
                assert(k % 2 == 0) by {
                    // d == (m24 * 2^(e-151)) * 2
                    assert(d == (m24 * (pow2((e - 151) as nat) as int)) * 2) by {
                        lemma_pow2_adds((e - 151) as nat, 1);
                        lemma_mul_is_associative(m24, pow2((e - 151) as nat) as int, 2);
                    };
                    vstd::arithmetic::div_mod::lemma_fundamental_div_mod_converse(
                        k,
                        2,
                        m24 * (pow2((e - 151) as nat) as int),
                        0,
                    );
                };
            }
        } else {
            // 126 <= e < 150: k == m24 / 2^s exactly, with a zero remainder
            let s: nat = (150 - e) as nat;
            assert(fmag(f) == (k * pow2(s)) * pow2((e - 1) as nat)) by {
                lemma_pow2_adds(s, (e - 1) as nat);
                lemma_mul_is_associative(k, pow2(s) as int, pow2((e - 1) as nat) as int);
            };
            assert(m24 == k * pow2(s)) by {
                lemma_mul_is_commutative(m24, pow2((e - 1) as nat) as int);
                lemma_mul_is_commutative(k * (pow2(s) as int), pow2((e - 1) as nat) as int);
                lemma_mul_equality_converse(pow2((e - 1) as nat) as int, m24, k * (pow2(s) as int));
            };
            vstd::arithmetic::div_mod::lemma_fundamental_div_mod_converse(m24, pow2(s) as int, k, 0);
        }
    }
}


pub open spec fn fma_pat(x: u32, m: u32, a: u32) -> u32 {
    add_pat(mul_pat(x, m), a)
}

/// Multiply-add operation `x * m + a`, as two rounded operations; exact when
/// `x` is a zero: the addend comes back unchanged.
pub fn fma(x: u32, m: u32, a: u32) -> (r: u32)
    ensures
        r == fma_pat(x, m, a),
        is_finite(x) && fval(x) == 0 && is_finite(m) && is_finite(a) && fval(a) != 0 ==> r == a,
{
    fadd(fmul(x, m), a)
}

/// Pattern of the Horner evaluation of the degree-four polynomial with the
/// given coefficients, most significant last.
pub open spec fn poly_pat(x: u32, c0: u32, c1: u32, c2: u32, c3: u32, c4: u32) -> u32 {
    let p = c4;
    let p = fma_pat(x, p, c3);
    let p = fma_pat(x, p, c2);
    let p = fma_pat(x, p, c1);
    fma_pat(x, p, c0)
}

/// Horner evaluation of a degree-four polynomial, most significant coefficient
/// last, as a chain of multiply-adds. At zero the evaluation is exact: it
/// returns the constant coefficient.
pub fn poly(x: u32, coeffs: [u32; 5]) -> (r: u32)
    ensures
        r == poly_pat(x, coeffs[0], coeffs[1], coeffs[2], coeffs[3], coeffs[4]),
        is_finite(x) && fval(x) == 0 && is_finite(coeffs[4]) && is_finite(coeffs[3]) && fval(
            coeffs[3],
        ) != 0 && is_finite(coeffs[2]) && fval(coeffs[2]) != 0 && is_finite(coeffs[1]) && fval(
            coeffs[1],
        ) != 0 && is_finite(coeffs[0]) && fval(coeffs[0]) != 0 ==> r == coeffs[0],
{
    let p: u32 = coeffs[4];
    let p: u32 = fma(x, p, coeffs[3]);
    let p: u32 = fma(x, p, coeffs[2]);
    let p: u32 = fma(x, p, coeffs[1]);
    fma(x, p, coeffs[0])
}

/// Whether `x` is within `tol` of `a`: the pattern form of the comparison
/// `|x - a| <= tol`.
pub open spec fn nearly_equal_pat(x: u32, a: u32, tol: u32) -> bool {
    float_le(sub_pat(x, a) & 0x7fff_ffff, tol)
}

/// Compares `x` with `a` with the given tolerance. Two finite values that are
/// equal always compare as nearly equal when the tolerance is nonnegative,
/// and the exact cases of the difference are exported for callers that reason
/// about the comparison.
pub fn nearly_equal(x: u32, a: u32, tol: u32) -> (r: bool)
    ensures
        r == nearly_equal_pat(x, a, tol),
        is_finite(x) && is_finite(a) && fval(x) == fval(a) && !is_nan(tol) && oval(tol) >= 0
            ==> r,
        is_finite(x) && is_finite(a) && fval(x) == fval(a) && fval(x) != 0 ==> sub_pat(x, a)
            == 0,
        is_finite(x) && is_finite(a) && fval(x) == 0 && fval(a) == 0 ==> is_finite(
            sub_pat(x, a),
        ) && fval(sub_pat(x, a)) == 0,
        is_finite(x) && is_finite(a) && fval(a) == 0 && fval(x) != 0 ==> sub_pat(x, a) == x,
        is_finite(x) && is_finite(a) && fval(x) == 0 && fval(a) != 0 ==> sub_pat(x, a) == (a
            ^ 0x8000_0000),
{
    let d: u32 = fsub(x, a);
    let ad: u32 = abs(d);
    proof {
        if is_finite(x) && is_finite(a) && fval(x) == fval(a) {
            lemma_fields(0u32);
            crate::float::lemma_fmag_bounds(0u32);
            if fval(x) == 0 {
                // the difference of two zeros is a zero of either sign, whose
                // magnitude pattern is zero in any case
                crate::float::lemma_fmag_bounds(d);
            }
        }
        if is_finite(x) && is_finite(a) && fval(x) == 0 && fval(a) != 0 {
            lemma_sign_fields(a);
        }
    }
    crate::float::le(ad, tol)
}

/// Pattern result of the reduction `x = k * cst + y`: the multiplier is the
/// value of `x * cst_inv` rounded to the nearest integer and the remainder is
/// what subtracting `k * cst` leaves; empty when that multiplier would not
/// fit a 32-bit signed integer.
pub open spec fn reduce_pat(x: u32, cst: u32, cst_inv: u32) -> Option<(i32, u32)> {
    let t = mul_pat(x, cst_inv);
    if round_small_ok(t) {
        let k = round_small_pat(t) as i32;
        Some((k, sub_pat(x, mul_pat(to_float_pat(k), cst))))
    } else {
        None
    }
}

/// Decomposes `x` into an integer `k` and a remainder `y` with
/// `x = k * cst + y` and `|y| <= cst / 2` up to rounding. It must hold that
/// `cst_inv = 1 / cst` (an explicit inverse is required because it is more
/// precise to compute the inverse of a number that cannot be stored in finite
/// precision and then round it to nearest). Returns nothing when the
/// multiplier would overflow a 32-bit signed integer, the documented domain
/// limit of the reduction.
pub fn reduce(x: u32, cst: u32, cst_inv: u32) -> (r: Option<(i32, u32)>)
    ensures
        r == reduce_pat(x, cst, cst_inv),
        r matches Some(v) ==> -0x7fff_ffff <= v.0 <= 0x7fff_ffff,
        is_finite(x) && is_finite(cst) && is_finite(cst_inv) && fval(x) == 0 ==> (r matches Some(v)
            && v.0 == 0 && is_finite(v.1) && fval(v.1) == 0),
{
    let t: u32 = fmul(x, cst_inv);
    if fits_round_small(t) {
        let k: i32 = round_small(t);
        proof {
            if is_finite(x) && is_finite(cst) && is_finite(cst_inv) && fval(x) == 0 {
                lemma_mul_basics(pow2(149) as int);
                lemma_round_small_exact(t, 0);
                lemma_to_float_exact(0);
            }
        }
        let kd: u32 = to_float(k);
        let y: u32 = fsub(x, fmul(kd, cst));
        Some((k, y))
    } else {
        proof {
            if is_finite(x) && is_finite(cst) && is_finite(cst_inv) && fval(x) == 0 {
                broadcast use lemma_pow2_pos;

            }
        }
        None
    }
}

/// Pattern result of the unit reduction `x = k + y`: `x` itself rounded to
/// the nearest integer, and what subtracting that integer leaves.
pub open spec fn reduce1_pat(x: u32) -> Option<(i32, u32)> {
    if round_small_ok(x) {
        let k = round_small_pat(x) as i32;
        Some((k, sub_pat(x, to_float_pat(k))))
    } else {
        None
    }
}

/// Optimized version of the reduction against the constant one: decomposes
/// `x` into an integer `k` and a remainder `y` with `x = k + y` and
/// `|y| <= 1/2` up to rounding. Returns nothing when `x` is out of the 32-bit
/// integer range. An input that holds an exact small integer reduces to that
/// integer with a remainder of exactly zero.
pub fn reduce1(x: u32) -> (r: Option<(i32, u32)>)
    ensures
        r == reduce1_pat(x),
        r matches Some(v) ==> -0x7fff_ffff <= v.0 <= 0x7fff_ffff,
        forall|k: int|
            -0x100_0000 <= k <= 0x100_0000 && is_finite(x) && fval(x) == #[trigger] int_val(k)
                ==> (r matches Some(v) && v.0 == k as i32 && is_finite(v.1) && fval(v.1) == 0),
{
    if fits_round_small(x) {
        let k: i32 = round_small(x);
        proof {
            assert forall|j: int|
                -0x100_0000 <= j <= 0x100_0000 && is_finite(x) && fval(x) == #[trigger] int_val(j)
                implies k == j as i32 by {
                lemma_round_small_exact(x, j);
            };
        }
        let kd: u32 = to_float(k);
        let y: u32 = fsub(x, kd);
        proof {
            assert forall|j: int|
                -0x100_0000 <= j <= 0x100_0000 && is_finite(x) && fval(x) == #[trigger] int_val(j)
                implies is_finite(y) && fval(y) == 0 by {
                broadcast use lemma_pow2_pos;

                lemma_to_float_exact(j as i32);
                lemma_fields(0u32);
                if j > 0 {
                    lemma_mul_strictly_positive(j, pow2(149) as int);
                } else if j < 0 {
                    lemma_mul_strictly_positive(-j, pow2(149) as int);
                    lemma_mul_unary_negation(j, pow2(149) as int);
                } else {
                    lemma_mul_basics(pow2(149) as int);
                }
            };
        }
        Some((k, y))
    } else {
        proof {
            broadcast use lemma_pow2_pos;

            assert forall|j: int|
                -0x100_0000 <= j <= 0x100_0000 && is_finite(x) && fval(x) == #[trigger] int_val(j)
                implies false by {
                lemma2_to64();
                lemma_mul_unary_negation(j, pow2(149) as int);
                if j > 0 {
                    lemma_mul_strictly_positive(j, pow2(149) as int);
                    lemma_mul_inequality(j, 0x100_0000, pow2(149) as int);
                } else if j < 0 {
                    lemma_mul_strictly_positive(-j, pow2(149) as int);
                    lemma_mul_inequality(-j, 0x100_0000, pow2(149) as int);
                } else {
                    lemma_mul_basics(pow2(149) as int);
                }
                lemma_pow2_adds(24, 149);
                lemma_pow2_strictly_increases(173, 180);
                crate::float::lemma_fmag_bounds(x);
            };
        }
        None
    }
}

/// Pattern result of the split of `x` into its integral and fractional
/// parts, derived from the unit reduction by moving a negative remainder up
/// into `[0, 1)`.
pub open spec fn trunc_fract_pat(x: u32) -> Option<(i32, u32)> {
    match reduce1_pat(x) {
        Some(ky) => {
            if float_lt(ky.1, ZERO) {
                Some(((ky.0 - 1) as i32, add_pat(ky.1, ONE)))
            } else {
                Some(ky)
            }
        },
        None => None,
    }
}

/// Decomposes `x` into its integral and fractional parts: an integer `k` and
/// a remainder `y` with `x = k + y` and `0 <= y < 1` up to rounding. Returns
/// nothing when `x` is out of the 32-bit integer range.
pub fn trunc_fract(x: u32) -> (r: Option<(i32, u32)>)
    ensures
        r == trunc_fract_pat(x),
{
    match reduce1(x) {
        Some(ky) => {
            let (k, y): (i32, u32) = ky;
            if crate::float::lt(y, ZERO) {
                Some((k - 1, fadd(y, ONE)))
            } else {
                Some((k, y))
            }
        },
        None => None,
    }
}

} // verus!
