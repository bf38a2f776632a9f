//! Checks of the bit-level primitives: neighbor stepping, counting machine
//! numbers, decomposition, scaling and the integer helpers.

use nikisas::float::{nextdown, nextup};
use nikisas::utils::{clamp, decompose, is_even, is_modulo_mask, is_odd, modulo_mask, scale};

fn b(x: f32) -> u32 {
    x.to_bits()
}

fn f(x: u32) -> f32 {
    f32::from_bits(x)
}

#[test]
fn next_special() {
    assert!(f(nextup(b(0.0))) > 0.0);
    assert!(f(nextdown(b(0.0))) < 0.0);
    assert!(f(nextup(nextup(nextdown(b(0.0))))) > 0.0);
}

#[test]
fn next_roundtrip() {
    let data = [0.0f32, -0.0, 1.0, -1.0, 3.14, -2.5e-40, 1.0e38];
    for &x in data.iter() {
        assert_eq!(f(nextdown(nextup(b(x)))), x);
        assert_eq!(f(nextup(nextdown(b(x)))), x);
    }
}

#[test]
fn floats_between() {
    let floats_per_exponent = 1u64 << 23;
    let bias = 127u64;

    assert_eq!(
        nikisas::float::floats_between(b(1.0), b(2.0)),
        floats_per_exponent + 1
    );
    assert_eq!(
        nikisas::float::floats_between(b(1.0), nextdown(b(2.0))),
        floats_per_exponent
    );
    assert_eq!(
        nikisas::float::floats_between(b(-2.0), b(-1.0)),
        floats_per_exponent + 1
    );
    assert_eq!(
        nikisas::float::floats_between(b(3.14), nextup(b(3.14))),
        2
    );
    assert_eq!(
        nikisas::float::floats_between(b(0.0), b(1.0)),
        bias * floats_per_exponent + 1
    );
    assert_eq!(
        nikisas::float::floats_between(b(-1.0), b(0.0)),
        bias * floats_per_exponent + 1
    );
}

#[test]
fn exhaustive_counts_every_float() {
    // the number of enumerated values must equal the count of machine numbers,
    // for intervals built from repeated upward steps around several centers
    let centers = [0.0f32, 1.0, -1.0, 3.14, 1.0e-40];
    for &x in centers.iter() {
        for k in [1usize, 2, 7, 50, 99] {
            let mut eps = 0.0f32.to_bits();
            for _ in 0..k {
                eps = nextup(eps);
            }
            let low = x - f(eps);
            let high = x + f(eps);
            let it = nikisas::domain::Exhaustive::near(b(x), eps);
            assert_eq!(it.count(), nikisas::float::floats_between(b(low), b(high)));
        }
    }
}

#[test]
fn exhaustive_visits_in_order() {
    let mut it = nikisas::domain::Exhaustive::bounded(b(1.0), nextup(nextup(b(1.0))));
    let mut seen = Vec::new();
    while let Some(v) = it.next() {
        seen.push(v);
    }
    assert_eq!(seen, vec![b(1.0), nextup(b(1.0)), nextup(nextup(b(1.0)))]);
}

#[test]
fn decompose_exact() {
    // decompose is exact: y * 2^n reproduces x bit for bit and 1 <= |y| < 2
    let data = [1.0f32, -1.0, 3.14, 1536.5, -0.0625, 2.5e-38, -3.0e38];
    for &x in data.iter() {
        let (y, n) = decompose(b(x));
        let y = f(y);
        assert!(y.abs() >= 1.0 && y.abs() < 2.0);
        assert_eq!((y * 2.0f32.powi(n)).to_bits(), b(x));
    }
}

#[test]
fn scale_reconstructs() {
    let mut y = 1.0f32;
    while y < 2.0 {
        for n in [-126i32, -40, -1, 0, 1, 17, 101, 127] {
            assert_eq!(f(scale(b(y), n)), y * 2.0f32.powi(n));
        }
        y += 0.0703125;
    }
}

#[test]
fn clamp_in_interval() {
    assert_eq!(clamp(5, -3, 10), 5);
    assert_eq!(clamp(-7, -3, 10), -3);
    assert_eq!(clamp(11, -3, 10), 10);
}

#[test]
fn integers() {
    let mask = 0x3;
    let m = 4;

    for n in -16..16 {
        let k = modulo_mask(n, mask);
        assert!(k < m);

        let even = is_even(n);
        let odd = is_odd(n);
        assert!(even || odd && !(even && odd));
    }

    assert!(!is_even(3));
    assert!(is_even(2));
    assert!(is_odd(3));
    assert!(!is_odd(2));

    assert!(is_modulo_mask(0x3));
    assert!(!is_modulo_mask(0x2));
}

#[test]
fn extract_bits() {
    assert_eq!(nikisas::utils::extract_bits(b(1.75), 0x3, 21), 3);
    assert_eq!(nikisas::utils::extract_bits(b(-0.875), 0x1, 31), 1);
    assert_eq!(
        nikisas::utils::extract_bits(b(1792.0), 0xff, 23) as i32 - 127,
        decompose(b(1792.0)).1
    );
}

#[test]
fn sqrt_matches_reference() {
    let data = [0.0f32, 1.0, 2.0, 4.0, 9.0, 3.14, 1e-3, 123456.78, 3.0e38];
    for &x in data.iter() {
        let got = f(nikisas::utils::sqrt(b(x)));
        let want = x.sqrt();
        // the integer square root keeps about 25 significant bits, so allow
        // two units in the last place
        assert!((got - want).abs() <= want.abs() * 2.5e-7 + f32::MIN_POSITIVE);
    }
    assert!(f(nikisas::utils::sqrt(b(-1.0))).is_nan());
}

#[test]
fn round_small_nearest_even() {
    let data = [
        (0.0f32, 0i32),
        (0.4, 0),
        (0.5, 0),
        (1.5, 2),
        (2.5, 2),
        (-2.5, -2),
        (-3.49, -3),
        (1234567.8, 1234568),
        (-2.1e9, -2100000000),
    ];
    for &(x, want) in data.iter() {
        assert_eq!(nikisas::utils::round_small(b(x)), want);
    }
}

#[test]
fn to_float_matches_cast() {
    let data = [
        0i32,
        1,
        -1,
        7,
        -333,
        16777215,
        16777217,
        0x40000001,
        i32::MAX,
        i32::MIN,
        -16777219,
    ];
    for &k in data.iter() {
        assert_eq!(f(nikisas::utils::to_float(k)), k as f32);
    }
}

#[test]
fn round_matches_reference() {
    let data = [0.0f32, 0.3, 0.5, -0.5, 1.49, 2.5, -2.5, 8388609.0, 1.0e30];
    for &x in data.iter() {
        assert_eq!(f(nikisas::utils::round(b(x))), x.round());
    }
}
