//! Checks of the reduction utilities and of the comparison helper.

use nikisas::utils::{reduce, reduce1, trunc_fract};

fn b(x: f32) -> u32 {
    x.to_bits()
}

fn f(x: u32) -> f32 {
    f32::from_bits(x)
}

#[test]
fn reduce_special() {
    let data = [
        (
            -2.1e+9f32,
            core::f32::consts::PI / 2.0,
            2.0 / core::f32::consts::PI,
        ),
        (
            2.1e+9,
            core::f32::consts::PI / 2.0,
            2.0 / core::f32::consts::PI,
        ),
    ];

    for &(x, cst, cst_inv) in data.iter() {
        let (k, y) = reduce(b(x), b(cst), b(cst_inv)).unwrap();
        let y = f(y);
        assert_eq!((k as f32) * cst + y, x);
        assert!(y.abs() <= cst / 2.0);
    }
}

#[test]
fn reduce_ordinary() {
    // the reduction identity holds exactly by construction over a spread of
    // arguments and constants
    let mut x = -100.0f32;
    while x < 100.0 {
        for cst in [1.0f32, 2.0, 3.5, 12.75] {
            let cst_inv = 1.0 / cst;
            let (k, y) = reduce(b(x), b(cst), b(cst_inv)).unwrap();
            let y = f(y);
            assert_eq!((k as f32) * cst + y, x);
            assert!(y.abs() <= cst / 2.0);
        }
        x += 0.713;
    }
}

#[test]
fn reduce_unit() {
    let mut x = -1000.0f32;
    while x < 1000.0 {
        let (k, y) = reduce1(b(x)).unwrap();
        let y = f(y);
        assert_eq!((k as f32) + y, x);
        assert!(y.abs() <= 0.5);
        assert_eq!((k, y.to_bits()), reduce(b(x), b(1.0), b(1.0)).unwrap());
        x += 1.37;
    }
}

#[test]
fn reduce_rejects_huge() {
    assert!(reduce1(b(3.0e9)).is_none());
    assert!(reduce1(b(f32::INFINITY)).is_none());
    assert!(reduce1(b(f32::NAN)).is_none());
    assert!(reduce(b(1.0e38), b(1.0), b(1.0)).is_none());
}

#[test]
fn trunc_fract_splits() {
    let mut x = -1000.0f32;
    while x < 1000.0 {
        let (k, y) = trunc_fract(b(x)).unwrap();
        let y = f(y);
        assert_eq!((k as f32) + y, x);
        assert!(y >= 0.0 && y < 1.0);
        x += 1.37;
    }
}

#[test]
fn nearly_equal() {
    let data = [0.0f32, 1.0, -1.0];
    let eps = f32::EPSILON;

    for &x in data.iter() {
        let up = f32::from_bits(nikisas::float::nextup(b(x)));
        let down = f32::from_bits(nikisas::float::nextdown(b(x)));
        assert!(nikisas::utils::nearly_equal(b(x), b(x), b(eps)));
        assert!(nikisas::utils::nearly_equal(b(up), b(x), b(eps)));
        assert!(nikisas::utils::nearly_equal(b(down), b(x), b(eps)));
    }
    assert!(!nikisas::utils::nearly_equal(b(1.5), b(1.0), b(eps)));
}

#[test]
fn comparisons_follow_ieee() {
    let nan = f32::NAN;
    assert!(nikisas::float::lt(b(1.0), b(2.0)));
    assert!(!nikisas::float::lt(b(2.0), b(1.0)));
    assert!(nikisas::float::le(b(-0.0), b(0.0)));
    assert!(nikisas::float::le(b(0.0), b(-0.0)));
    assert!(nikisas::float::feq(b(0.0), b(-0.0)));
    assert!(!nikisas::float::lt(b(nan), b(1.0)));
    assert!(!nikisas::float::le(b(1.0), b(nan)));
    assert!(!nikisas::float::feq(b(nan), b(nan)));
    assert!(nikisas::float::lt(b(f32::NEG_INFINITY), b(-3.0e38)));
    assert!(nikisas::float::lt(b(3.0e38), b(f32::INFINITY)));
}
