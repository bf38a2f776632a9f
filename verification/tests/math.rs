//! Checks of the elementary functions: exact special values and error sweeps
//! against the standard library as ground truth, with the bounds of 0.1%
//! relative or four decimal places absolute error.

use nikisas::domain::UniformSample;
use nikisas::error::{Error, ErrorBounds};

fn b(x: f32) -> u32 {
    x.to_bits()
}

fn f(x: u32) -> f32 {
    f32::from_bits(x)
}

fn error_bounds() -> ErrorBounds {
    ErrorBounds::new().rel(b(0.001)).abs(b(0.00005))
}

fn sweep<A: Fn(f32) -> f32, R: Fn(f32) -> f32>(
    low: f32,
    high: f32,
    count: u64,
    approx: A,
    reference: R,
) {
    let mut sampler = UniformSample::with_count(b(low), b(high), count);
    let mut err: Error<u32> = Error::with_bounds(error_bounds());
    while let Some(xb) = sampler.next() {
        let x = f(xb);
        let r = err.calculate(xb, b(approx(x)), b(reference(x)));
        assert!(r.is_ok(), "error exceeded at {}", x);
    }
    assert!(err.finalize().is_ok());
}

#[test]
fn exp() {
    assert_eq!(nikisas::exp(b(1.0)), nikisas::consts::E);
    assert_eq!(f(nikisas::exp(b(0.0))), 1.0);

    let half_ln2 = 2.0f32.ln() / 2.0;
    sweep(-half_ln2, half_ln2, 100000, |x| f(nikisas::exp(b(x))), |x| {
        x.exp()
    });
    sweep(-87.3, 88.7, 10000, |x| f(nikisas::exp(b(x))), |x| x.exp());
}

#[test]
fn ln() {
    assert_eq!(f(nikisas::ln(b(1.0))), 0.0);
    assert_eq!(f(nikisas::ln(nikisas::consts::E)), 1.0);
    assert!(f(nikisas::ln(b(-1.0))).is_nan());
    assert!(f(nikisas::ln(b(0.0))).is_nan());

    let root2 = 2.0f32.sqrt();
    sweep(1.0 / root2, root2, 100000, |x| f(nikisas::ln(b(x))), |x| {
        x.ln()
    });
    sweep(
        f32::EPSILON,
        3.4e+38,
        10000,
        |x| f(nikisas::ln(b(x))),
        |x| x.ln(),
    );
}

#[test]
fn log2() {
    for k in 0..32 {
        let x = (1u32 << k) as f32;
        assert_eq!(f(nikisas::log2(b(x))), k as f32);
    }

    sweep(
        f32::EPSILON,
        3.4e+38,
        10000,
        |x| f(nikisas::log2(b(x))),
        |x| x.log2(),
    );
}

#[test]
fn log10() {
    let mut err: Error<u32> = Error::with_bounds(error_bounds());
    for k in 0..32 {
        let x = 10.0f32.powi(k);
        let r = err.calculate(b(k as f32), nikisas::log10(b(x)), b(k as f32));
        assert!(r.is_ok());
    }
    assert!(err.finalize().is_ok());

    sweep(
        f32::EPSILON,
        3.4e+38,
        10000,
        |x| f(nikisas::log10(b(x))),
        |x| x.log10(),
    );
}

#[test]
fn pow2() {
    for k in 0..32 {
        let y = (1u32 << k) as f32;
        assert_eq!(f(nikisas::pow2(b(k as f32))), y);
    }

    sweep(-0.5, 0.5, 100000, |x| f(nikisas::pow2(b(x))), |x| x.exp2());
    sweep(-87.3, 88.7, 10000, |x| f(nikisas::pow2(b(x))), |x| x.exp2());
}

#[test]
fn pow10() {
    let mut err: Error<f32> = Error::with_bounds(error_bounds());
    for k in 0..32 {
        let y = 10.0f32.powi(k);
        let r = err.calculate(y, nikisas::pow10(b(k as f32)), b(y));
        assert!(r.is_ok());
    }
    assert!(err.finalize().is_ok());

    sweep(
        -0.5,
        0.5,
        100000,
        |x| f(nikisas::pow10(b(x))),
        |x| 10.0f32.powf(x),
    );
    sweep(
        -37.9,
        38.5,
        10000,
        |x| f(nikisas::pow10(b(x))),
        |x| 10.0f32.powf(x),
    );
}

#[test]
fn pow_special_values() {
    assert_eq!(f(nikisas::pow(b(3.14), b(0.0))), 1.0);
    assert_eq!(f(nikisas::pow(b(2.0), b(-1.0))), 0.5);
    assert_eq!(f(nikisas::pow(b(3.0), b(1.0))), 3.0);
    assert_eq!(f(nikisas::pow(b(1.0), b(17.3))), 1.0);
    // a negative base demands an integer exponent
    assert_eq!(f(nikisas::pow(b(-2.0), b(3.0))), -8.0);
    assert!(f(nikisas::pow(b(-2.0), b(0.5))).is_nan());
}

#[test]
fn pow_sweep() {
    let mut err: Error<(u32, u32)> = Error::with_bounds(error_bounds());
    let mut x = 0.05f32;
    while x < 32.0 {
        let mut p = -10.0f32;
        while p < 10.0 {
            if p.abs() > 2.0 * f32::EPSILON && x.powf(p).is_finite() {
                let r = err.calculate((b(x), b(p)), f(nikisas::pow(b(x), b(p))).to_bits(), b(
                    x.powf(p),
                ));
                assert!(r.is_ok(), "error exceeded at {}^{}", x, p);
            }
            p += 0.173;
        }
        x += 0.37;
    }
    assert!(err.finalize().is_ok());
}

#[test]
fn pow_large_exponents() {
    let mut err: Error<(u32, u32)> = Error::with_bounds(error_bounds());
    let mut x = 0.07f32;
    while x < 10.0 {
        let mut p = -64.0f32;
        while p < 64.0 {
            if p.abs() > 2.0 * f32::EPSILON && x.powf(p).is_finite() {
                let r = err.calculate((b(x), b(p)), f(nikisas::pow(b(x), b(p))).to_bits(), b(
                    x.powf(p),
                ));
                assert!(r.is_ok(), "error exceeded at {}^{}", x, p);
            }
            p += 1.731;
        }
        x += 0.23;
    }
    assert!(err.finalize().is_ok());
}

#[test]
fn pow_negative_base() {
    let mut err: Error<(u32, u32)> = Error::with_bounds(error_bounds());
    let mut x = -10.0f32;
    while x < 10.0 {
        for k in 1..100 {
            let p = k as f32;
            if x.powf(p).is_finite() {
                let r = err.calculate((b(x), b(p)), f(nikisas::pow(b(x), b(p))).to_bits(), b(
                    x.powf(p),
                ));
                assert!(r.is_ok(), "error exceeded at {}^{}", x, p);
            }
        }
        x += 0.83;
    }
    assert!(err.finalize().is_ok());
}

#[test]
fn sin() {
    assert_eq!(f(nikisas::sin(b(0.0))), 0.0);
    assert_eq!(f(nikisas::sin(b(core::f32::consts::PI * 0.5))), 1.0);
    assert_eq!(f(nikisas::sin(b(core::f32::consts::PI))), 0.0);
    assert_eq!(f(nikisas::sin(b(core::f32::consts::PI * 1.5))), -1.0);

    sweep(
        -core::f32::consts::PI,
        core::f32::consts::PI,
        100000,
        |x| f(nikisas::sin(b(x))),
        |x| x.sin(),
    );
}

#[test]
fn cos() {
    assert_eq!(f(nikisas::cos(b(0.0))), 1.0);
    assert_eq!(f(nikisas::cos(b(core::f32::consts::PI * 0.5))), 0.0);
    assert_eq!(f(nikisas::cos(b(core::f32::consts::PI))), -1.0);
    assert_eq!(f(nikisas::cos(b(core::f32::consts::PI * 1.5))), 0.0);

    sweep(
        -core::f32::consts::PI,
        core::f32::consts::PI,
        100000,
        |x| f(nikisas::cos(b(x))),
        |x| x.cos(),
    );
}

#[test]
fn tan() {
    assert_eq!(f(nikisas::tan(b(0.0))), 0.0);
    assert_eq!(f(nikisas::tan(b(core::f32::consts::PI * 0.25))), 1.0);
    assert_eq!(f(nikisas::tan(b(-core::f32::consts::PI * 0.25))), -1.0);

    // away from the asymptotes the polynomial stays within the bounds
    sweep(-0.75, 0.75, 100000, |x| f(nikisas::tan(b(x))), |x| x.tan());
}

#[test]
fn cot() {
    assert_eq!(f(nikisas::cot(b(core::f32::consts::PI * 0.25))), 1.0);

    sweep(
        0.15,
        1.0,
        100000,
        |x| f(nikisas::cot(b(x))),
        |x| 1.0 / x.tan(),
    );
}

#[test]
fn trig_domain_limit() {
    assert!(f(nikisas::sin(b(1.0e10))).is_nan());
    assert!(f(nikisas::cos(b(f32::INFINITY))).is_nan());
    assert!(f(nikisas::tan(b(f32::NAN))).is_nan());
}
