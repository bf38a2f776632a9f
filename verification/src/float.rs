//! Bit-pattern model of IEEE 754 single-precision floating point numbers.
//!
//! Throughout the crate a float is carried as its raw 32-bit pattern. Every
//! finite pattern denotes the exact rational value `m * 2^e` for integers `m`
//! and `e` with `e >= -149`, so the value scaled by `2^149` is an integer.
//! The spec function [`fval`] returns that integer; all value-level contracts
//! are stated over it.

use vstd::arithmetic::mul::*;
use vstd::arithmetic::power2::*;
use vstd::prelude::*;

verus! {

/// Sign mask in single-precision floating point number.
pub const SIGN_MASK: u32 = 0x8000_0000;

/// Mask for exponent value in single-precision floating point number.
pub const EXP_MASK: u32 = 0x7f80_0000;

/// Mask for the mantissa field in single-precision floating point number.
pub const MANTISSA_MASK: u32 = 0x007f_ffff;

/// Exponent bias in single-precision floating point number.
pub const EXP_BIAS: i32 = 127;

/// Maximum exponent value in single-precision floating point number.
pub const EXP_MAX: i32 = 255;

/// Right offset of exponent value in single-precision floating point number.
pub const MANTISSA_BITS: u32 = 23;

/// Bit pattern of positive zero.
pub const ZERO: u32 = 0x0000_0000;

/// Bit pattern of 1.0.
pub const ONE: u32 = 0x3f80_0000;

/// Bit pattern of the machine epsilon, 2^-23.
pub const EPSILON: u32 = 0x3400_0000;

/// Bit pattern of the canonical quiet NaN.
pub const NAN: u32 = 0x7fc0_0000;

/// Bit pattern of the largest finite value.
pub const MAX_FINITE: u32 = 0x7f7f_ffff;

/// Sign field of a pattern: 0 or 1.
pub open spec fn sign_field(p: u32) -> u32 {
    p >> 31
}

/// Exponent field of a pattern: 0 to 255.
pub open spec fn exp_field(p: u32) -> u32 {
    (p >> 23) & 0xff
}

/// Mantissa field of a pattern: 23 bits.
pub open spec fn man_field(p: u32) -> u32 {
    p & 0x007f_ffff
}

/// The pattern denotes a finite value (not an infinity and not a NaN).
pub open spec fn is_finite(p: u32) -> bool {
    exp_field(p) != 255
}

/// The pattern denotes a NaN.
pub open spec fn is_nan(p: u32) -> bool {
    exp_field(p) == 255 && man_field(p) != 0
}

/// The pattern denotes an infinity.
pub open spec fn is_inf(p: u32) -> bool {
    exp_field(p) == 255 && man_field(p) == 0
}

/// The pattern denotes a normal value (implicit leading mantissa bit).
pub open spec fn is_normal(p: u32) -> bool {
    1 <= exp_field(p) < 255
}

/// Magnitude of a finite pattern, scaled by 2^149: an exact integer.
///
/// A subnormal pattern denotes `m * 2^-149`; a normal one denotes
/// `(2^23 + m) * 2^(e - 150)`, which scaled by 2^149 is `(2^23 + m) * 2^(e-1)`.
pub open spec fn fmag(p: u32) -> int {
    if exp_field(p) == 0 {
        man_field(p) as int
    } else {
        (0x80_0000 + man_field(p)) * pow2((exp_field(p) - 1) as nat)
    }
}

/// Exact value of a finite pattern, scaled by 2^149.
pub open spec fn fval(p: u32) -> int {
    if sign_field(p) == 0 {
        fmag(p)
    } else {
        -fmag(p)
    }
}

/// The scaled value of the mathematical integer `k`, for comparison with [`fval`].
pub open spec fn int_val(k: int) -> int {
    k * pow2(149)
}

/// Signed index of a pattern in value order; both zeros share index 0 and
/// adjacent representable values have adjacent indices.
pub open spec fn rank(p: u32) -> int {
    if sign_field(p) == 0 {
        p as int
    } else {
        -((p & 0x7fff_ffff) as int)
    }
}

/// Magnitude for ordering purposes: finite patterns use the scaled value and
/// an infinite exponent field maps above every finite value.
pub open spec fn emag(p: u32) -> int {
    if exp_field(p) == 255 {
        pow2(300) as int
    } else {
        fmag(p)
    }
}

/// Order value of a non-NaN pattern: the scaled value with infinities at
/// plus or minus 2^300, beyond every finite magnitude.
pub open spec fn oval(p: u32) -> int {
    if sign_field(p) == 0 {
        emag(p)
    } else {
        -emag(p)
    }
}

/// IEEE `<` on patterns: false whenever either operand is a NaN.
pub open spec fn float_lt(a: u32, b: u32) -> bool {
    !is_nan(a) && !is_nan(b) && oval(a) < oval(b)
}

/// IEEE `<=` on patterns: false whenever either operand is a NaN.
pub open spec fn float_le(a: u32, b: u32) -> bool {
    !is_nan(a) && !is_nan(b) && oval(a) <= oval(b)
}

/// IEEE `==` on patterns: false whenever either operand is a NaN; the two
/// zero patterns are equal.
pub open spec fn float_eq(a: u32, b: u32) -> bool {
    !is_nan(a) && !is_nan(b) && oval(a) == oval(b)
}

/// Every pattern is the weighted sum of its three fields.
pub proof fn lemma_fields(p: u32)
    ensures
        p == sign_field(p) * 0x8000_0000 + exp_field(p) * 0x80_0000 + man_field(p),
        sign_field(p) <= 1,
        exp_field(p) <= 255,
        man_field(p) < 0x80_0000,
{
    assert(p == (p >> 31) * 0x8000_0000 + ((p >> 23) & 0xff) * 0x80_0000 + (p & 0x007f_ffff)
        && (p >> 31) <= 1 && ((p >> 23) & 0xff) <= 255 && (p & 0x007f_ffff) < 0x80_0000)
        by (bit_vector);
}

/// Clearing the sign bit keeps the exponent and mantissa fields.
pub proof fn lemma_sign_fields(p: u32)
    ensures
        sign_field(p & 0x7fff_ffff) == 0,
        exp_field(p & 0x7fff_ffff) == exp_field(p),
        man_field(p & 0x7fff_ffff) == man_field(p),
        sign_field(p ^ 0x8000_0000) == 1 - sign_field(p),
        exp_field(p ^ 0x8000_0000) == exp_field(p),
        man_field(p ^ 0x8000_0000) == man_field(p),
{
    assert(((p & 0x7fff_ffff) >> 31) == 0
        && (((p & 0x7fff_ffff) >> 23) & 0xff) == ((p >> 23) & 0xff)
        && ((p & 0x7fff_ffff) & 0x007f_ffff) == (p & 0x007f_ffff)
        && ((p ^ 0x8000_0000) >> 31) == 1 - (p >> 31)
        && (((p ^ 0x8000_0000) >> 23) & 0xff) == ((p >> 23) & 0xff)
        && ((p ^ 0x8000_0000) & 0x007f_ffff) == (p & 0x007f_ffff)) by (bit_vector);
}

/// Pattern assembled from a sign, an exponent field and a mantissa field.
pub open spec fn make_pat(s: u32, e: u32, m: u32) -> u32 {
    (s << 31) | (e << 23) | m
}

/// Fields of a pattern assembled from its three parts.
pub proof fn lemma_make_fields(s: u32, e: u32, m: u32)
    requires
        s <= 1,
        e <= 255,
        m < 0x80_0000,
    ensures
        sign_field(make_pat(s, e, m)) == s,
        exp_field(make_pat(s, e, m)) == e,
        man_field(make_pat(s, e, m)) == m,
{
    assert((((s << 31) | (e << 23) | m) >> 31) == s && ((((s << 31) | (e << 23) | m) >> 23) & 0xff)
        == e && (((s << 31) | (e << 23) | m) & 0x007f_ffff) == m) by (bit_vector)
        requires
            s <= 1,
            e <= 255,
            m < 0x80_0000,
    ;
}

/// The magnitude of a finite pattern is nonnegative, zero exactly on the two
/// zero patterns, and below 2^277.
pub proof fn lemma_fmag_bounds(p: u32)
    requires
        is_finite(p),
    ensures
        0 <= fmag(p),
        fmag(p) == 0 <==> (p & 0x7fff_ffff) == 0,
        fmag(p) < pow2(277),
{
    lemma_fields(p);
    broadcast use lemma_pow2_pos;

    if exp_field(p) == 0 {
        assert((p & 0x7fff_ffff) == 0 <==> (((p >> 23) & 0xff) == 0 && (p & 0x007f_ffff) == 0))
            by (bit_vector);
        lemma_pow2_strictly_increases(23, 277);
        lemma2_to64();
    } else {
        assert((p & 0x7fff_ffff) != 0 <==> (((p >> 23) & 0xff) != 0 || (p & 0x007f_ffff) != 0))
            by (bit_vector);
        let m: int = 0x80_0000 + man_field(p);
        let e: nat = (exp_field(p) - 1) as nat;
        lemma_mul_strictly_positive(m, pow2(e) as int);
        // upper bound: m * 2^e < 2^24 * 2^253 = 2^277
        lemma_mul_inequality(m, 0x100_0000, pow2(e) as int);
        lemma_pow2_adds(24, e);
        lemma2_to64();
        if e < 253 {
            lemma_pow2_strictly_increases((24 + e) as nat, 277);
        }
        lemma_mul_strict_inequality(m, 0x100_0000, pow2(e) as int);
    }
}

/// Ordering of magnitudes follows ordering of sign-cleared patterns.
proof fn lemma_emag_mono(a: u32, b: u32)
    requires
        sign_field(a) == 0,
        sign_field(b) == 0,
        a < b,
        !is_nan(b),
    ensures
        emag(a) < emag(b),
{
    lemma_fields(a);
    lemma_fields(b);
    broadcast use lemma_pow2_pos;

    let e1: int = exp_field(a) as int;
    let m1: int = man_field(a) as int;
    let e2: int = exp_field(b) as int;
    let m2: int = man_field(b) as int;
    // a == e1 * 2^23 + m1 and b == e2 * 2^23 + m2 with m1, m2 < 2^23,
    // so a < b forces e1 <= e2.
    assert(e1 <= e2);
    lemma2_to64();
    if e2 == 255 {
        // b is an infinity (or would be a NaN, excluded): emag(b) == 2^300.
        assert(is_finite(a));
        lemma_fmag_bounds(a);
        lemma_pow2_strictly_increases(277, 300);
    } else if e1 == e2 {
        assert(m1 < m2);
        if e1 != 0 {
            lemma_mul_strict_inequality(0x80_0000 + m1, 0x80_0000 + m2, pow2((e1 - 1) as nat) as int);
        }
    } else {
        // e1 < e2 <= 254: emag(a) < 2^(23 + e1) <= 2^(22 + e2) <= emag(b).
        assert(1 <= e2);
        // lower bound on emag(b): (2^23 + m2) * 2^(e2-1) >= 2^23 * 2^(e2-1) = 2^(22+e2)
        lemma_mul_inequality(0x80_0000, 0x80_0000 + m2, pow2((e2 - 1) as nat) as int);
        lemma_pow2_adds(23, (e2 - 1) as nat);
        if e1 == 0 {
            // emag(a) = m1 < 2^23 <= 2^(22 + e2)
            lemma_pow2_adds(23, (e2 - 1) as nat);
            if e2 > 1 {
                lemma_pow2_strictly_increases(23, (22 + e2) as nat);
            }
        } else {
            // emag(a) = (2^23 + m1) * 2^(e1-1) < 2^24 * 2^(e1-1) = 2^(23+e1)
            lemma_mul_strict_inequality(0x80_0000 + m1, 0x100_0000, pow2((e1 - 1) as nat) as int);
            lemma_pow2_adds(24, (e1 - 1) as nat);
            if 23 + e1 < 22 + e2 {
                lemma_pow2_strictly_increases((23 + e1) as nat, (22 + e2) as nat);
            }
        }
    }
}

/// Magnitude order of sign-cleared non-NaN patterns coincides with their
/// order as integers.
pub proof fn lemma_emag_order(a: u32, b: u32)
    requires
        sign_field(a) == 0,
        sign_field(b) == 0,
        !is_nan(a),
        !is_nan(b),
    ensures
        (a < b) <==> (emag(a) < emag(b)),
{
    if a < b {
        lemma_emag_mono(a, b);
    } else if b < a {
        lemma_emag_mono(b, a);
    }
}

/// Extended magnitude is nonnegative, and zero exactly on the zero patterns.
proof fn lemma_emag_zero(p: u32)
    ensures
        0 <= emag(p),
        emag(p) == 0 <==> (p & 0x7fff_ffff) == 0,
{
    broadcast use lemma_pow2_pos;

    if exp_field(p) == 255 {
        assert((p & 0x7fff_ffff) != 0 <==> (((p >> 23) & 0xff) != 0 || (p & 0x007f_ffff) != 0))
            by (bit_vector);
    } else {
        lemma_fmag_bounds(p);
    }
}

/// Value order of non-NaN patterns coincides with order of their ranks.
pub proof fn lemma_rank_order(a: u32, b: u32)
    requires
        !is_nan(a),
        !is_nan(b),
    ensures
        (oval(a) < oval(b)) <==> (rank(a) < rank(b)),
        (oval(a) == oval(b)) <==> (rank(a) == rank(b)),
{
    lemma_rank_order_one(a, b);
    lemma_rank_order_one(b, a);
}

/// One direction of [`lemma_rank_order`]: a strictly smaller rank gives a
/// strictly smaller order value.
proof fn lemma_rank_order_one(a: u32, b: u32)
    requires
        !is_nan(a),
        !is_nan(b),
    ensures
        rank(a) < rank(b) ==> oval(a) < oval(b),
        rank(a) == rank(b) ==> oval(a) == oval(b),
{
    lemma_fields(a);
    lemma_fields(b);
    lemma_sign_fields(a);
    lemma_sign_fields(b);
    lemma_emag_zero(a);
    lemma_emag_zero(b);
    let a1: u32 = a & 0x7fff_ffff;
    let b1: u32 = b & 0x7fff_ffff;
    assert(sign_field(a) == 0 ==> a1 == a && a < 0x8000_0000) by (bit_vector)
        requires a1 == (a & 0x7fff_ffff);
    assert(sign_field(b) == 0 ==> b1 == b && b < 0x8000_0000) by (bit_vector)
        requires b1 == (b & 0x7fff_ffff);
    assert(emag(a1) == emag(a));
    assert(emag(b1) == emag(b));
    assert(!is_nan(a1) && !is_nan(b1));
    if sign_field(a) == 0 && sign_field(b) == 0 {
        if a < b {
            lemma_emag_mono(a1, b1);
        }
    } else if sign_field(a) == 1 && sign_field(b) == 1 {
        if b1 < a1 {
            lemma_emag_mono(b1, a1);
        }
    } else if sign_field(a) == 1 && sign_field(b) == 0 {
        // rank(a) <= 0 <= rank(b); order values follow from emag signs.
        if a1 < b1 {
            lemma_emag_mono(a1, b1);
        } else if b1 < a1 {
            lemma_emag_mono(b1, a1);
        }
    } else {
        // sign_field(a) == 0 && sign_field(b) == 1: rank(a) >= 0 >= rank(b),
        // so only rank equality (both zero) matters.
        if a1 < b1 {
            lemma_emag_mono(a1, b1);
        } else if b1 < a1 {
            lemma_emag_mono(b1, a1);
        }
    }
}

/// Flipping the sign bit negates the rank and the value.
pub proof fn lemma_sign_flip(p: u32)
    ensures
        rank(p ^ 0x8000_0000) == -rank(p),
        is_nan(p ^ 0x8000_0000) == is_nan(p),
        is_finite(p ^ 0x8000_0000) == is_finite(p),
        oval(p ^ 0x8000_0000) == -oval(p),
        is_finite(p) ==> fval(p ^ 0x8000_0000) == -fval(p),
{
    lemma_sign_fields(p);
    let q: u32 = p ^ 0x8000_0000;
    assert((q & 0x7fff_ffff) == (p & 0x7fff_ffff) && ((p >> 31) == 0 ==> q == p + 0x8000_0000 && (p
        & 0x7fff_ffff) == p) && ((p >> 31) == 1 ==> p == q + 0x8000_0000 && (q & 0x7fff_ffff) == q))
        by (bit_vector)
        requires
            q == (p ^ 0x8000_0000),
    ;
    assert(emag(q) == emag(p));
    if sign_field(p) == 0 {
        assert(rank(q) == -((q & 0x7fff_ffff) as int));
        assert((q & 0x7fff_ffff) == p) by (bit_vector)
            requires q == (p ^ 0x8000_0000), (p >> 31) == 0;
    } else {
        assert((q & 0x7fff_ffff) == q) by (bit_vector)
            requires q == (p ^ 0x8000_0000), (p >> 31) == 1;
    }
}

/// A finite value is zero exactly on the two zero patterns.
pub proof fn lemma_fval_zero(p: u32)
    requires
        is_finite(p),
    ensures
        fval(p) == 0 <==> (p == 0 || p == 0x8000_0000),
{
    lemma_fmag_bounds(p);
    assert((p & 0x7fff_ffff) == 0 <==> (p == 0 || p == 0x8000_0000)) by (bit_vector);
}

/// Every rank lies within the 32-bit signed range.
pub proof fn lemma_rank_bounds(p: u32)
    ensures
        -0x7fff_ffff <= rank(p) <= 0x7fff_ffff,
{
    assert(((p >> 31) == 0 ==> p <= 0x7fff_ffff) && (p & 0x7fff_ffff) <= 0x7fff_ffff)
        by (bit_vector);
}

/// A normal pattern has a positive magnitude, so its value is not zero.
pub proof fn lemma_normal_nonzero(p: u32)
    requires
        is_normal(p),
    ensures
        is_finite(p),
        fmag(p) > 0,
        fval(p) != 0,
        sign_field(p) == 0 ==> fval(p) > 0,
        sign_field(p) == 1 ==> fval(p) < 0,
{
    broadcast use lemma_pow2_pos;

    lemma_fields(p);
    lemma_mul_strictly_positive(
        0x80_0000 + man_field(p),
        pow2((exp_field(p) - 1) as nat) as int,
    );
}

/// The value of the pattern of 1.0 is exactly one.
pub proof fn lemma_one_val()
    ensures
        is_finite(ONE),
        sign_field(ONE) == 0,
        exp_field(ONE) == 127,
        man_field(ONE) == 0,
        is_normal(ONE),
        fval(ONE) == int_val(1),
        fval(ONE) == pow2(149),
        fval(ONE) > 0,
{
    broadcast use lemma_pow2_pos;

    lemma_fields(ONE);
    lemma_pow2_adds(23, 126);
    lemma2_to64();
    lemma_mul_basics(pow2(149) as int);
}

/// IEEE `<` on raw patterns.
pub fn lt(a: u32, b: u32) -> (r: bool)
    ensures
        r == float_lt(a, b),
{
    let nan_a: bool = ((a >> 23) & 0xff) == 0xff && (a & 0x007f_ffff) != 0;
    let nan_b: bool = ((b >> 23) & 0xff) == 0xff && (b & 0x007f_ffff) != 0;
    if nan_a || nan_b {
        false
    } else {
        proof {
            lemma_rank_order(a, b);
        }
        rank_exec(a) < rank_exec(b)
    }
}

/// IEEE `<=` on raw patterns.
pub fn le(a: u32, b: u32) -> (r: bool)
    ensures
        r == float_le(a, b),
{
    let nan_a: bool = ((a >> 23) & 0xff) == 0xff && (a & 0x007f_ffff) != 0;
    let nan_b: bool = ((b >> 23) & 0xff) == 0xff && (b & 0x007f_ffff) != 0;
    if nan_a || nan_b {
        false
    } else {
        proof {
            lemma_rank_order(a, b);
        }
        rank_exec(a) <= rank_exec(b)
    }
}

/// IEEE `==` on raw patterns: the two zeros are equal and NaN equals nothing.
pub fn feq(a: u32, b: u32) -> (r: bool)
    ensures
        r == float_eq(a, b),
{
    let nan_a: bool = ((a >> 23) & 0xff) == 0xff && (a & 0x007f_ffff) != 0;
    let nan_b: bool = ((b >> 23) & 0xff) == 0xff && (b & 0x007f_ffff) != 0;
    if nan_a || nan_b {
        false
    } else {
        proof {
            lemma_rank_order(a, b);
        }
        rank_exec(a) == rank_exec(b)
    }
}

/// Rank of a pattern as a machine integer.
fn rank_exec(p: u32) -> (r: i64)
    ensures
        r == rank(p),
{
    if (p >> 31) == 0 {
        p as i64
    } else {
        -((p & 0x7fff_ffff) as i64)
    }
}

/// Pattern of the next machine number after `x`: both zeros step to the
/// smallest positive value.
pub open spec fn nextup_pat(x: u32) -> u32 {
    if x == 0x8000_0000 {
        1
    } else if sign_field(x) == 0 {
        (x + 1) as u32
    } else {
        (x - 1) as u32
    }
}

/// Pattern of the previous machine number before `x`: both zeros step to the
/// largest negative value.
pub open spec fn nextdown_pat(x: u32) -> u32 {
    nextup_pat(x ^ 0x8000_0000) ^ 0x8000_0000
}

/// Stepping up moves the rank up by exactly one; the result is finite except
/// from the largest finite value, and never a NaN.
pub proof fn lemma_nextup_rank(x: u32)
    requires
        is_finite(x),
    ensures
        rank(nextup_pat(x)) == rank(x) + 1,
        x != 0x7f7f_ffff ==> is_finite(nextup_pat(x)),
        !is_nan(nextup_pat(x)),
{
    let v: u32 = if x == 0x8000_0000 {
        0
    } else {
        x
    };
    assert(((v >> 31) == 0 || (v >> 31) == 1) && (((x >> 23) & 0xff) != 255 ==> ((v >> 31) == 0
        ==> v < 0x7f80_0000 && (((v + 1) as u32) >> 31) == 0 && (v < 0x7f7f_ffff ==> ((((v
        + 1) as u32) >> 23) & 0xff) != 255) && (v == 0x7f7f_ffff ==> ((v + 1) as u32)
        == 0x7f80_0000) && ((v + 1) as u32) == v + 1) && ((v >> 31) == 1 ==> v >= 0x8000_0001 && ((
    (v - 1) as u32) >> 31) == 1 && ((((v - 1) as u32) >> 23) & 0xff) != 255 && (((v - 1) as u32)
        & 0x7fff_ffff) == (v & 0x7fff_ffff) - 1))) by (bit_vector)
        requires
            v == (if x == 0x8000_0000 { 0u32 } else { x }),
    ;
    assert(x == 0x8000_0000 ==> ((x & 0x7fff_ffff) == 0 && (x >> 31) == 1 && (1u32 >> 31) == 0))
        by (bit_vector);
    lemma_fields(0x7f80_0000u32);
}

/// Stepping down moves the rank down by exactly one; the result is finite
/// except from the most negative finite value, and never a NaN.
pub proof fn lemma_nextdown_rank(x: u32)
    requires
        is_finite(x),
    ensures
        rank(nextdown_pat(x)) == rank(x) - 1,
        x != 0xff7f_ffff ==> is_finite(nextdown_pat(x)),
        !is_nan(nextdown_pat(x)),
{
    let nx: u32 = x ^ 0x8000_0000;
    lemma_sign_fields(x);
    lemma_sign_flip(x);
    assert(x != 0xff7f_ffff ==> nx != 0x7f7f_ffff) by (bit_vector)
        requires
            nx == (x ^ 0x8000_0000),
    ;
    lemma_nextup_rank(nx);
    lemma_sign_flip(nextup_pat(nx));
    lemma_sign_fields(nextup_pat(nx));
}

/// Law: stepping to the next machine number and back, in either order,
/// returns to the same value, with the two zeros counting as one point.
pub proof fn lemma_next_roundtrip(x: u32)
    requires
        is_finite(x),
    ensures
        x != 0x7f7f_ffff ==> float_eq(nextdown_pat(nextup_pat(x)), x),
        x != 0xff7f_ffff ==> float_eq(nextup_pat(nextdown_pat(x)), x),
{
    lemma_nextup_rank(x);
    lemma_nextdown_rank(x);
    if x != 0x7f7f_ffff {
        lemma_nextdown_rank(nextup_pat(x));
        lemma_rank_order(nextdown_pat(nextup_pat(x)), x);
    }
    if x != 0xff7f_ffff {
        lemma_nextup_rank(nextdown_pat(x));
        lemma_rank_order(nextup_pat(nextdown_pat(x)), x);
    }
}

/// Law: a finite value and the next machine number after it enclose exactly
/// two machine numbers, so counting the numbers between them gives two.
pub proof fn lemma_adjacent_pair(a: u32)
    requires
        is_finite(a),
        a != 0x7f7f_ffff,
    ensures
        is_finite(nextup_pat(a)),
        fval(a) < fval(nextup_pat(a)),
        rank(nextup_pat(a)) - rank(a) + 1 == 2,
{
    lemma_nextup_rank(a);
    lemma_rank_order(a, nextup_pat(a));
}

/// Gives the next machine number after `x`.
pub fn nextup(x: u32) -> (r: u32)
    requires
        is_finite(x),
    ensures
        r == nextup_pat(x),
        rank(r) == rank(x) + 1,
        x != 0x7f7f_ffff ==> is_finite(r),
{
    let v: u32 = if x == 0x8000_0000 {
        0
    } else {
        x
    };
    proof {
        assert(((v >> 31) == 0 || (v >> 31) == 1) && (((x >> 23) & 0xff) != 255 ==> ((v >> 31) == 0
            ==> v < 0x7f80_0000 && (((v + 1) as u32) >> 31) == 0 && (v < 0x7f7f_ffff ==> ((((v
            + 1) as u32) >> 23) & 0xff) != 255) && ((v + 1) as u32) == v + 1) && ((v >> 31) == 1
            ==> v >= 0x8000_0001 && (((v - 1) as u32) >> 31) == 1 && ((((v - 1) as u32) >> 23)
            & 0xff) != 255 && (((v - 1) as u32) & 0x7fff_ffff) == (v & 0x7fff_ffff) - 1)))
            by (bit_vector)
            requires
                v == (if x == 0x8000_0000 { 0u32 } else { x }),
        ;
        assert(x == 0x8000_0000 ==> ((x & 0x7fff_ffff) == 0 && (x >> 31) == 1 && (1u32 >> 31) == 0))
            by (bit_vector);
    }
    if (v >> 31) == 0 {
        v + 1
    } else {
        v - 1
    }
}

/// Gives the previous machine number before `x`.
pub fn nextdown(x: u32) -> (r: u32)
    requires
        is_finite(x),
    ensures
        r == nextdown_pat(x),
        rank(r) == rank(x) - 1,
        x != 0xff7f_ffff ==> is_finite(r),
{
    let nx: u32 = x ^ 0x8000_0000;
    proof {
        lemma_sign_fields(x);
        lemma_sign_flip(x);
        assert(x != 0xff7f_ffff ==> nx != 0x7f7f_ffff) by (bit_vector)
            requires
                nx == (x ^ 0x8000_0000),
        ;
    }
    let nr: u32 = nextup(nx);
    proof {
        lemma_sign_flip(nr);
        lemma_sign_fields(nr);
    }
    nr ^ 0x8000_0000
}

/// A finite pattern with a nonnegative value has its magnitude pattern as rank.
pub proof fn lemma_rank_nonneg(p: u32)
    requires
        is_finite(p),
        fval(p) >= 0,
    ensures
        rank(p) == (p & 0x7fff_ffff) as int,
{
    lemma_fmag_bounds(p);
    assert((p >> 31) == 0 ==> (p & 0x7fff_ffff) == p) by (bit_vector);
}

/// Gets the total number of machine numbers between `low` and `high`,
/// inclusive of both; the two zeros count as one number.
pub fn floats_between(low: u32, high: u32) -> (r: u64)
    requires
        is_finite(low),
        is_finite(high),
        fval(low) <= fval(high),
    ensures
        r == rank(high) - rank(low) + 1,
{
    proof {
        lemma_rank_order(low, high);
        lemma_fmag_bounds(low);
        lemma_fmag_bounds(high);
        lemma_fields(ZERO);
        lemma_fields(1u32);
    }
    if feq(low, high) {
        return 1;
    }
    let low_nonneg: bool = le(ZERO, low);
    let high_nonneg: bool = le(ZERO, high);
    if low_nonneg != high_nonneg {
        // The range crosses zero: count the negative part from `low` up to the
        // largest negative number, mirrored into the positive range, then the
        // part from zero to `high`; zero itself is counted once.
        proof {
            lemma_sign_flip(low);
            lemma_rank_nonneg(low ^ 0x8000_0000);
            lemma_rank_nonneg(high);
            lemma_rank_nonneg(ZERO);
            lemma_rank_nonneg(1u32);
        }
        let neg_part: u64 = fb_mag(1, low ^ 0x8000_0000);
        let pos_part: u64 = fb_mag(ZERO, high);
        neg_part + pos_part
    } else if !low_nonneg {
        // Entirely negative: magnitude-wise `low` is the greater one, so swap
        // and mirror into the positive range.
        proof {
            lemma_sign_flip(low);
            lemma_sign_flip(high);
            lemma_rank_nonneg(low ^ 0x8000_0000);
            lemma_rank_nonneg(high ^ 0x8000_0000);
        }
        fb_mag(high ^ 0x8000_0000, low ^ 0x8000_0000)
    } else {
        proof {
            lemma_rank_nonneg(low);
            lemma_rank_nonneg(high);
        }
        fb_mag(low, high)
    }
}

/// Counts representable magnitudes from `l` to `h` inclusive by decomposing
/// both endpoints and summing whole exponent ranges of 2^23 mantissas each,
/// plus the mantissa difference at the matching exponent. Signs are ignored.
fn fb_mag(l: u32, h: u32) -> (r: u64)
    requires
        is_finite(l),
        is_finite(h),
        (l & 0x7fff_ffff) <= (h & 0x7fff_ffff),
    ensures
        r == (h & 0x7fff_ffff) - (l & 0x7fff_ffff) + 1,
{
    proof {
        lemma_fields(l);
        lemma_fields(h);
        lemma_sign_fields(l);
        lemma_sign_fields(h);
        lemma_fields(l & 0x7fff_ffff);
        lemma_fields(h & 0x7fff_ffff);
    }
    let dl: (u32, i32) = crate::utils::decompose(l);
    let dh: (u32, i32) = crate::utils::decompose(h);
    let f_low: u64 = (dl.0 & MANTISSA_MASK) as u64;
    let f_high: u64 = (dh.0 & MANTISSA_MASK) as u64;
    let n_low: i64 = dl.1 as i64;
    let n_high: i64 = dh.1 as i64;
    proof {
        lemma_fields(dl.0);
        lemma_fields(dh.0);
    }
    // Make sure that f_high >= f_low, borrowing one exponent step if needed.
    let (f_high, n_high): (u64, i64) = if f_low > f_high {
        (f_high + 0x80_0000, n_high - 1)
    } else {
        (f_high, n_high)
    };
    // All numbers in the exponent range between the two, 2^23 per exponent.
    let floats: u64 = ((n_high - n_low) as u64) * 0x80_0000;
    floats + f_high - f_low + 1
}

} // verus!
