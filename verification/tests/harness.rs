//! Checks of the error-measurement harness: sampling, filtering and the
//! error aggregation itself.

use nikisas::domain::{avoid_even_mults, avoid_odd_mults, shift_left, shift_right, UniformSample};
use nikisas::error::{Error, ErrorBounds};
use std::collections::HashSet;

fn b(x: f32) -> u32 {
    x.to_bits()
}

fn f(x: u32) -> f32 {
    f32::from_bits(x)
}

#[test]
fn uniform_sample() {
    let count = 100000u64;
    let low = 1.0f32;
    let high = 2.0f32;

    let mut sampler = UniformSample::with_count(b(low), b(high), count);
    let mut values = HashSet::with_capacity(count as usize);
    while let Some(x) = sampler.next() {
        let v = f(x);
        assert!(v >= low && v <= high);
        values.insert(x);
    }

    // Sufficient spread?
    let uniqueness = values.len() as f64 / count as f64;
    assert!(uniqueness > 0.99);
}

#[test]
fn uniform_sample_fraction() {
    // a density fraction of the interval gives about that share of its count
    let sampler = UniformSample::with_fraction(b(1.0), b(2.0), b(0.5));
    let expected = ((1u64 << 23) + 1) / 2;
    assert!(sampler.count >= expected - 1 && sampler.count <= expected + 1);
}

#[test]
fn shift() {
    assert!(f(shift_right(b(1.0))) > 1.0);
    assert!(f(shift_right(b(1.0))) < 1.5);
    assert!(f(shift_left(b(1.0))) < 1.0);
    assert!(f(shift_left(b(1.0))) > 0.5);
}

#[test]
fn avoid() {
    assert_eq!(nikisas::domain::avoid(b(1.0), b(1.0)), false);
    assert_eq!(nikisas::domain::avoid(b(1.0), shift_right(b(1.0))), false);
    assert_eq!(nikisas::domain::avoid(b(1.0), shift_left(b(1.0))), false);
    assert_eq!(nikisas::domain::avoid(b(1.0), b(0.5)), true);
    assert_eq!(nikisas::domain::avoid(b(1.0), b(1.5)), true);
}

#[test]
fn avoid_mults() {
    assert_eq!(nikisas::domain::avoid_mults(b(2.0), b(2.0)), false);
    assert_eq!(nikisas::domain::avoid_mults(b(2.0), b(16.0)), false);
    assert_eq!(nikisas::domain::avoid_mults(b(2.0), b(-16.0)), false);
    assert_eq!(nikisas::domain::avoid_mults(b(2.0), shift_right(b(16.0))), false);
    assert_eq!(nikisas::domain::avoid_mults(b(2.0), shift_left(b(16.0))), false);
    assert_eq!(nikisas::domain::avoid_mults(b(2.0), b(1.5)), true);
    assert_eq!(nikisas::domain::avoid_mults(b(2.0), b(2.5)), true);
}

#[test]
fn avoid_even_or_odd_mults() {
    assert_eq!(avoid_even_mults(b(2.0), b(16.0)), false);
    assert_eq!(avoid_even_mults(b(2.0), b(14.0)), true);
    assert_eq!(avoid_even_mults(b(2.0), b(15.0)), true);

    assert_eq!(avoid_odd_mults(b(2.0), b(16.0)), true);
    assert_eq!(avoid_odd_mults(b(2.0), b(14.0)), false);
    assert_eq!(avoid_odd_mults(b(2.0), b(15.0)), true);
}

#[test]
fn error_tracks_maxima() {
    let mut err: Error<u32> = Error::new();
    assert!(err.calculate(b(1.0), b(1.5), b(1.0)).is_ok());
    assert!(err.calculate(b(2.0), b(2.1), b(2.0)).is_ok());
    assert_eq!(f(err.max_abs()), 0.5);
    assert_eq!(err.max_abs_arg(), Some(b(1.0)));
    assert_eq!(f(err.max_rel()), 0.5);
    assert_eq!(err.max_rel_arg(), Some(b(1.0)));
}

#[test]
fn error_rms_exact() {
    // two samples with relative errors 0.5 and 0.5: the root mean square is 0.5
    let mut err: Error<u32> = Error::new();
    assert!(err.calculate(b(1.0), b(1.5), b(1.0)).is_ok());
    assert!(err.calculate(b(1.0), b(0.5), b(1.0)).is_ok());
    assert_eq!(f(err.rms()), 0.5);
    assert!(err.finalize().is_ok());
}

#[test]
fn error_bounds_or_semantics() {
    // near zero the relative error is huge but the absolute error passes:
    // with both bounds set, either suffices
    let bounds = ErrorBounds::new().rel(b(0.001)).abs(b(0.5));
    let mut err: Error<u32> = Error::with_bounds(bounds);
    assert!(err.calculate(b(0.001), b(0.2), b(0.0001)).is_ok());

    // with only the relative bound set, the same sample fails and reports
    // the argument together with both magnitudes
    let bounds = ErrorBounds::new().rel(b(0.001));
    let mut err: Error<u32> = Error::with_bounds(bounds);
    let violation = err.calculate(b(0.001), b(0.2), b(0.0001)).unwrap_err();
    assert_eq!(violation.arg, b(0.001));
    assert!(violation.rel.is_some());
    assert!(f(violation.abs) > 0.19);
}

#[test]
fn error_zero_reference_uses_abs() {
    let bounds = ErrorBounds::new().rel(b(0.001)).abs(b(0.0001));
    let mut err: Error<u32> = Error::with_bounds(bounds);
    assert!(err.calculate(b(0.0), b(0.00005), b(0.0)).is_ok());
    assert!(err.calculate(b(0.0), b(0.2), b(0.0)).is_err());
}

#[test]
fn error_rms_bound_checked_at_end() {
    let bounds = ErrorBounds::new().rms(b(0.1));
    let mut err: Error<u32> = Error::with_bounds(bounds);
    assert!(err.calculate(b(1.0), b(1.5), b(1.0)).is_ok());
    assert_eq!(err.finalize().unwrap_err(), b(0.5));
}
