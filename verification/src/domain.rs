//! Producers of sample points over an input interval: uniform random sampling
//! and exhaustive enumeration of every machine number, with the filter
//! predicates that exclude singular points from a sweep.

use crate::arith::{add_pat, div_pat, fadd, fdiv, fmul, fsub, mul_pat, sub_pat};
use crate::float::{
    float_le, float_lt, is_finite, lemma_fields, lemma_rank_order, nextup, rank,
    EPSILON, ZERO,
};
use crate::utils::{modulo2, modulo2_pat, round, round_float_pat, scale, to_float};
use rand::RngCore;
use rand::SeedableRng;
use vstd::prelude::*;

verus! {

/// The small pseudorandom generator of the rand crate, kept as an opaque
/// value and used only as a source of raw bits.
#[verifier::external_type_specification]
#[verifier::external_body]
pub struct ExSmallRng(rand::rngs::SmallRng);

/// Relies on rand's `SeedableRng::seed_from_u64` for `SmallRng`: a generator
/// deterministically seeded from the given state.
#[verifier::external_body]
fn rng_seeded(seed: u64) -> rand::rngs::SmallRng {
    rand::rngs::SmallRng::seed_from_u64(seed)
}

/// Relies on rand's `RngCore::next_u32` for `SmallRng`: the next 32 raw bits
/// of the generator. Nothing is assumed of the value.
#[verifier::external_body]
fn rng_next(rng: &mut rand::rngs::SmallRng) -> u32 {
    rng.next_u32()
}

/// Uniformly samples values in a given interval; primarily used for
/// determining errors on a domain. The number of values is fixed up front and
/// the generator is seeded with a constant, so a sweep is reproducible across
/// runs of one build.
pub struct UniformSample {
    /// How many values are still to be produced.
    pub count: u64,
    /// Lower bound of the interval, inclusive.
    pub low: u32,
    /// Upper bound of the interval, inclusive.
    pub high: u32,
    /// The seeded generator driving the sampling.
    pub rng: rand::rngs::SmallRng,
}

/// Number of samples that a density fraction asks for: the number of machine
/// numbers in the interval times the fraction, rounded to nearest.
pub open spec fn fraction_count_pat(n: u64, fraction: u32) -> u64 {
    let e0 = if crate::float::exp_field(fraction) == 0 {
        1int
    } else {
        crate::float::exp_field(fraction) as int
    };
    let m24 = if crate::float::exp_field(fraction) == 0 {
        crate::float::man_field(fraction) as int
    } else {
        0x80_0000 + crate::float::man_field(fraction) as int
    };
    let s = (150 - e0) as nat;
    let prod = (n as int) * m24;
    if s >= 58 {
        0
    } else {
        ((prod + vstd::arithmetic::power2::pow2((s - 1) as nat)) / (vstd::arithmetic::power2::pow2(
            s,
        ) as int)) as u64
    }
}

impl UniformSample {
    /// Creates a new sampler producing a fixed count of values.
    pub fn with_count(low: u32, high: u32, count: u64) -> (r: Self)
        requires
            is_finite(low),
            is_finite(high),
            float_lt(low, high),
        ensures
            r.low == low,
            r.high == high,
            r.count == count,
    {
        UniformSample { count, low, high, rng: rng_seeded(3) }
    }

    /// Creates a new sampler whose count is the given fraction of the number
    /// of machine numbers within the interval. Be careful with intervals
    /// crossing zero: there are a lot of machine numbers around zero and the
    /// count may become infeasible. The fraction must be in (0, 1].
    pub fn with_fraction(low: u32, high: u32, fraction: u32) -> (r: Self)
        requires
            is_finite(low),
            is_finite(high),
            float_lt(low, high),
            is_finite(fraction),
            float_lt(ZERO, fraction),
            float_le(fraction, crate::float::ONE),
        ensures
            r.low == low,
            r.high == high,
            r.count == fraction_count_pat((rank(high) - rank(low) + 1) as u64, fraction),
    {
        proof {
            lemma_rank_order(low, high);
            lemma_fields(fraction);
            vstd::arithmetic::power2::lemma2_to64();
            broadcast use vstd::arithmetic::power2::lemma_pow2_pos;

            // a fraction of at most one has an exponent field of at most 127
            crate::float::lemma_one_val();
            lemma_fields(ZERO);
            crate::float::lemma_fmag_bounds(fraction);
            if crate::float::exp_field(fraction) >= 128 {
                vstd::arithmetic::mul::lemma_mul_inequality(
                    0x80_0000,
                    0x80_0000 + crate::float::man_field(fraction) as int,
                    vstd::arithmetic::power2::pow2(
                        (crate::float::exp_field(fraction) - 1) as nat,
                    ) as int,
                );
                vstd::arithmetic::power2::lemma_pow2_adds(
                    23,
                    (crate::float::exp_field(fraction) - 1) as nat,
                );
                vstd::arithmetic::power2::lemma_pow2_strictly_increases(
                    149,
                    (22 + crate::float::exp_field(fraction)) as nat,
                );
            }
        }
        let n: u64 = crate::float::floats_between(low, high);
        let fe: u32 = (fraction >> 23) & 0xff;
        let fm: u32 = fraction & 0x007f_ffff;
        let e0: u32 = if fe == 0 {
            1
        } else {
            fe
        };
        let m24: u64 = if fe == 0 {
            fm as u64
        } else {
            0x80_0000 + fm as u64
        };
        let s: u32 = 150 - e0;
        let count: u64 = if s >= 58 {
            0
        } else {
            proof {
                crate::float::lemma_rank_bounds(low);
                crate::float::lemma_rank_bounds(high);
                vstd::bits::lemma_u64_pow2_no_overflow(s as nat);
                vstd::bits::lemma_u64_pow2_no_overflow((s - 1) as nat);
                vstd::bits::lemma_u64_shl_is_mul(1u64, (s - 1) as u64);
                assert(n * m24 <= 0x2_0000_0000u64 * 0x100_0000) by (nonlinear_arith)
                    requires
                        n <= 0x2_0000_0000u64,
                        m24 <= 0x100_0000u64,
                ;
            }
            let prod: u64 = n * m24;
            let half: u64 = 1u64 << ((s - 1) as u64);
            let s64: u64 = s as u64;
            proof {
                vstd::arithmetic::power2::lemma2_to64_rest();
                vstd::arithmetic::power2::lemma_pow2_strictly_increases((s - 1) as nat, 57);
                vstd::bits::lemma_u64_shr_is_div((prod + half) as u64, s64);
            }
            (prod + half) >> s64
        };
        UniformSample { count, low, high, rng: rng_seeded(3) }
    }

    /// Produces the next sample, a value within the interval, until the count
    /// is exhausted.
    pub fn next(&mut self) -> (r: Option<u32>)
        ensures
            final(self).low == old(self).low,
            final(self).high == old(self).high,
            old(self).count == 0 ==> r is None && final(self).count == 0,
            old(self).count > 0 ==> final(self).count == old(self).count - 1 && r is Some,
            old(self).count > 0 && float_le(old(self).low, old(self).high) ==> (r matches Some(v)
                && float_le(old(self).low, v) && float_le(v, old(self).high)),
    {
        if self.count == 0 {
            return None;
        }
        self.count = self.count - 1;
        let bits: u32 = rng_next(&mut self.rng);
        proof {
            assert((bits >> 8) < 0x100_0000) by (bit_vector);
        }
        // 24 random bits, exactly converted into [0, 1)
        let u: u32 = scale(to_float((bits >> 8) as i32), -24);
        let x: u32 = fadd(self.low, fmul(u, fsub(self.high, self.low)));
        // rounding at the ends of a wide interval may leave the interval, and
        // a degenerate one may give no finite value at all: clamp back
        let lo: bool = crate::float::le(self.low, x);
        let hi: bool = crate::float::le(x, self.high);
        if lo && hi {
            Some(x)
        } else {
            Some(self.low)
        }
    }
}

/// Iterates over all machine numbers in a given interval, in increasing
/// order; useful to test values near an extreme of interest.
pub struct Exhaustive {
    /// The next value to produce.
    pub low: u32,
    /// Upper bound of the enumeration, inclusive.
    pub high: u32,
}

/// The enumeration state stays sound: the bound is finite and the cursor is
/// finite or just past the largest finite value.
pub open spec fn exhaustive_wf(e: Exhaustive) -> bool {
    is_finite(e.high) && (is_finite(e.low) || e.low == 0x7f80_0000)
}

impl Exhaustive {
    /// Creates a new iterator over a range specified exactly by the user.
    pub fn bounded(low: u32, high: u32) -> (r: Self)
        requires
            is_finite(low),
            is_finite(high),
            float_lt(low, high),
        ensures
            r == (Exhaustive { low, high }),
            exhaustive_wf(r),
    {
        Exhaustive { low, high }
    }

    /// Creates a new iterator over the interval symmetric around `value` with
    /// radius `eps`.
    pub fn near(value: u32, eps: u32) -> (r: Self)
        requires
            float_lt(ZERO, eps),
        ensures
            r == (Exhaustive { low: sub_pat(value, eps), high: add_pat(value, eps) }),
    {
        Exhaustive { low: fsub(value, eps), high: fadd(value, eps) }
    }

    /// Produces every value from the lower to the upper bound inclusive, in
    /// increasing order, stepping to the next machine number each time; the
    /// two zeros are visited as one point.
    pub fn next(&mut self) -> (r: Option<u32>)
        requires
            exhaustive_wf(*old(self)),
        ensures
            exhaustive_wf(*final(self)),
            final(self).high == old(self).high,
            float_le(old(self).low, old(self).high) ==> r == Some(old(self).low) && rank(
                final(self).low,
            ) == rank(old(self).low) + 1,
            !float_le(old(self).low, old(self).high) ==> r is None && *final(self) == *old(self),
    {
        proof {
            lemma_fields(self.low);
            lemma_fields(self.high);
        }
        if !crate::float::le(self.low, self.high) {
            return None;
        }
        let current: u32 = self.low;
        proof {
            lemma_rank_order(self.low, self.high);
        }
        self.low = nextup(self.low);
        Some(current)
    }

    /// Counts the values the enumeration produces: exactly the number of
    /// machine numbers in the interval, as `floats_between` computes it.
    pub fn count(self) -> (r: u64)
        requires
            exhaustive_wf(self),
        ensures
            r == (if rank(self.low) <= rank(self.high) {
                rank(self.high) - rank(self.low) + 1
            } else {
                0
            }),
    {
        let mut it: Exhaustive = self;
        let mut n: u64 = 0;
        proof {
            crate::float::lemma_rank_bounds(it.low);
            crate::float::lemma_rank_bounds(it.high);
        }
        loop
            invariant
                exhaustive_wf(it),
                it.high == self.high,
                -0x8000_0000 <= rank(it.low) <= 0x8000_0000,
                -0x8000_0000 <= rank(it.high) < 0x8000_0000,
                n + (if rank(it.low) <= rank(it.high) {
                    rank(it.high) - rank(it.low) + 1
                } else {
                    0
                }) == (if rank(self.low) <= rank(self.high) {
                    rank(self.high) - rank(self.low) + 1
                } else {
                    0
                }),
            decreases rank(it.high) - rank(it.low) + 1,
        {
            proof {
                lemma_fields(it.low);
                lemma_fields(it.high);
                lemma_rank_order(it.low, it.high);
            }
            match it.next() {
                Some(_) => {
                    n = n + 1;
                },
                None => {
                    return n;
                },
            }
        }
    }
}

/// Returns `x` minus the machine epsilon. For finer resolution, use the
/// previous machine number instead.
pub fn shift_left(x: u32) -> (r: u32)
    ensures
        r == sub_pat(x, EPSILON),
{
    fsub(x, EPSILON)
}

/// Returns `x` plus the machine epsilon. For finer resolution, use the next
/// machine number instead.
pub fn shift_right(x: u32) -> (r: u32)
    ensures
        r == add_pat(x, EPSILON),
{
    fadd(x, EPSILON)
}

/// Whether a sweep keeps `y` when this particular value `x` is to be avoided:
/// true outside the epsilon window around `x`.
pub open spec fn avoid_pat(x: u32, y: u32) -> bool {
    float_lt(y, sub_pat(x, EPSILON)) || float_lt(add_pat(x, EPSILON), y)
}

/// Keeps `y` unless it falls within the epsilon window around `x`.
pub fn avoid(x: u32, y: u32) -> (r: bool)
    ensures
        r == avoid_pat(x, y),
{
    let low: u32 = shift_left(x);
    let high: u32 = shift_right(x);
    crate::float::lt(y, low) || crate::float::lt(high, y)
}

/// Remainder of `y` against the nearest multiple of `x`.
pub open spec fn mult_rem_pat(x: u32, y: u32) -> u32 {
    sub_pat(y, mul_pat(round_float_pat(div_pat(y, x)), x))
}

/// Whether a sweep keeps `y` when all multiples of `x` are to be avoided:
/// true when the remainder against the nearest multiple leaves the epsilon
/// window around zero.
pub open spec fn avoid_mults_pat(x: u32, y: u32) -> bool {
    let z = mult_rem_pat(x, y);
    float_lt(z, sub_pat(ZERO, EPSILON)) || float_lt(add_pat(ZERO, EPSILON), z)
}

/// Keeps `y` unless it lies near a multiple of `x`.
pub fn avoid_mults(x: u32, y: u32) -> (r: bool)
    ensures
        r == avoid_mults_pat(x, y),
{
    let low: u32 = shift_left(ZERO);
    let high: u32 = shift_right(ZERO);
    let rounded: u32 = round(fdiv(y, x));
    let z: u32 = fsub(y, fmul(rounded, x));
    crate::float::lt(z, low) || crate::float::lt(high, z)
}

/// Whether a sweep keeps `y` when the even multiples of `x` are to be
/// avoided: multiples with an odd multiplier stay.
pub open spec fn avoid_even_mults_pat(x: u32, y: u32) -> bool {
    avoid_mults_pat(x, y) || modulo2_pat(round_float_pat(div_pat(y, x))) == 1
}

/// Keeps `y` unless it lies near an even multiple of `x`.
pub fn avoid_even_mults(x: u32, y: u32) -> (r: bool)
    ensures
        r == avoid_even_mults_pat(x, y),
{
    let rounded: u32 = round(fdiv(y, x));
    avoid_mults(x, y) || modulo2(rounded) == 1
}

/// Whether a sweep keeps `y` when the odd multiples of `x` are to be avoided:
/// multiples with an even multiplier stay.
pub open spec fn avoid_odd_mults_pat(x: u32, y: u32) -> bool {
    avoid_mults_pat(x, y) || modulo2_pat(round_float_pat(div_pat(y, x))) == 0
}

/// Keeps `y` unless it lies near an odd multiple of `x`.
pub fn avoid_odd_mults(x: u32, y: u32) -> (r: bool)
    ensures
        r == avoid_odd_mults_pat(x, y),
{
    let rounded: u32 = round(fdiv(y, x));
    avoid_mults(x, y) || modulo2(rounded) == 0
}

} // verus!
