//! Computation and aggregation of approximation errors over a domain sweep.

use crate::arith::{add_pat, div_pat, fadd, fdiv, fmul, fsub, mul_pat, sub_pat};
use crate::float::{float_eq, float_lt, ONE, ZERO};
use crate::utils::{sqrt, sqrt_pat};
use vstd::prelude::*;

verus! {

/// Bounds for errors to be checked. By default all are empty and therefore
/// not checked; specifying a bound for a given error kind enables it.
pub struct ErrorBounds {
    /// Bound for the maximum relative error, when set.
    pub rel: Option<u32>,
    /// Bound for the maximum absolute error, when set.
    pub abs: Option<u32>,
    /// Bound for the root-mean-square error, when set.
    pub rms: Option<u32>,
}

/// Whether the relative and absolute errors satisfy the bounds: when both
/// bounds are set, a sample passes if either one holds.
pub open spec fn rel_or_abs_ok(b: ErrorBounds, rel_err: u32, abs_err: u32) -> bool {
    match (b.rel, b.abs) {
        (Some(rel), Some(abs)) => float_le_pat(rel_err, rel) || float_le_pat(abs_err, abs),
        (Some(rel), None) => float_le_pat(rel_err, rel),
        (None, Some(abs)) => float_le_pat(abs_err, abs),
        (None, None) => true,
    }
}

/// Whether the absolute error satisfies its bound; used alone when the
/// relative error is undefined because the reference was zero.
pub open spec fn abs_ok(b: ErrorBounds, abs_err: u32) -> bool {
    match b.abs {
        Some(abs) => float_le_pat(abs_err, abs),
        None => true,
    }
}

/// Whether the root-mean-square error satisfies its bound.
pub open spec fn rms_ok(b: ErrorBounds, rms_err: u32) -> bool {
    match b.rms {
        Some(rms) => float_le_pat(rms_err, rms),
        None => true,
    }
}

/// Shorthand for the IEEE comparison used by every bound.
pub open spec fn float_le_pat(a: u32, b: u32) -> bool {
    crate::float::float_le(a, b)
}

impl ErrorBounds {
    /// Creates empty bounds: none is checked.
    pub fn new() -> (r: Self)
        ensures
            r.rel is None,
            r.abs is None,
            r.rms is None,
    {
        ErrorBounds { rel: None, abs: None, rms: None }
    }

    /// Specifies the bound for the maximum relative error.
    pub fn rel(self, bound: u32) -> (r: Self)
        ensures
            r == (ErrorBounds { rel: Some(bound), ..self }),
    {
        ErrorBounds { rel: Some(bound), ..self }
    }

    /// Specifies the bound for the maximum absolute error.
    pub fn abs(self, bound: u32) -> (r: Self)
        ensures
            r == (ErrorBounds { abs: Some(bound), ..self }),
    {
        ErrorBounds { abs: Some(bound), ..self }
    }

    /// Specifies the bound for the root-mean-square error.
    pub fn rms(self, bound: u32) -> (r: Self)
        ensures
            r == (ErrorBounds { rms: Some(bound), ..self }),
    {
        ErrorBounds { rms: Some(bound), ..self }
    }

    /// Checks if the relative and absolute errors satisfy the bounds; when
    /// both are set, one suffices.
    pub fn check_rel_or_abs(&self, rel_err: u32, abs_err: u32) -> (r: bool)
        ensures
            r == rel_or_abs_ok(*self, rel_err, abs_err),
    {
        match (self.rel, self.abs) {
            (Some(rel), Some(abs)) => crate::float::le(rel_err, rel) || crate::float::le(
                abs_err,
                abs,
            ),
            (Some(rel), None) => crate::float::le(rel_err, rel),
            (None, Some(abs)) => crate::float::le(abs_err, abs),
            (None, None) => true,
        }
    }

    /// Checks if the absolute error satisfies its bound.
    pub fn check_abs(&self, abs_err: u32) -> (r: bool)
        ensures
            r == abs_ok(*self, abs_err),
    {
        match self.abs {
            Some(abs) => crate::float::le(abs_err, abs),
            None => true,
        }
    }

    /// Checks if the root-mean-square error satisfies its bound.
    pub fn check_rms(&self, rms_err: u32) -> (r: bool)
        ensures
            r == rms_ok(*self, rms_err),
    {
        match self.rms {
            Some(rms) => crate::float::le(rms_err, rms),
            None => true,
        }
    }
}

/// A sample whose errors exceeded the per-sample bounds: the offending
/// argument and both error magnitudes; the relative error is absent when the
/// reference value was zero.
pub struct BoundsViolation<In> {
    /// The argument that caused the violation.
    pub arg: In,
    /// The relative error of the sample, when defined.
    pub rel: Option<u32>,
    /// The absolute error of the sample.
    pub abs: u32,
}

/// Absolute error of a sample: `|computed - reference|`.
pub open spec fn abs_err_pat(computed: u32, reference: u32) -> u32 {
    sub_pat(computed, reference) & 0x7fff_ffff
}

/// Relative error of a sample: the absolute error over `|reference|`.
pub open spec fn rel_err_pat(computed: u32, reference: u32) -> u32 {
    div_pat(abs_err_pat(computed, reference), reference & 0x7fff_ffff)
}

/// Aggregator that compares computed and reference values input by input, computes
/// the corresponding errors and stores the running maxima, the sum of squared
/// relative errors and the sample count.
pub struct Error<In> {
    /// Argument of the worst absolute error seen, once any sample arrived.
    pub max_abs_arg: Option<In>,
    /// The worst absolute error seen.
    pub max_abs: u32,
    /// Argument of the worst relative error seen.
    pub max_rel_arg: Option<In>,
    /// The worst relative error seen.
    pub max_rel: u32,
    /// Sum of the squared relative errors.
    pub sum_rel: u32,
    /// Number of samples with a defined relative error, counted as a float.
    pub total: u32,
    /// The bounds every sample and the final sweep are held to.
    pub bounds: ErrorBounds,
}

/// The state and outcome of recording one sample: the maxima grow where
/// exceeded, the squared relative error joins the running sum when the
/// reference is nonzero, and the sample fails immediately when it violates
/// the per-sample bounds.
pub open spec fn record_pat<In>(e: Error<In>, arg: In, computed: u32, reference: u32) -> (
    Error<In>,
    Result<(), BoundsViolation<In>>,
) {
    let ae = abs_err_pat(computed, reference);
    let e1 = if float_lt(e.max_abs, ae) {
        Error { max_abs_arg: Some(arg), max_abs: ae, ..e }
    } else {
        e
    };
    if !float_eq(reference, ZERO) {
        let rel = rel_err_pat(computed, reference);
        let e2 = if float_lt(e1.max_rel, rel) {
            Error { max_rel_arg: Some(arg), max_rel: rel, ..e1 }
        } else {
            e1
        };
        let e3 = Error {
            sum_rel: add_pat(e2.sum_rel, mul_pat(rel, rel)),
            total: add_pat(e2.total, ONE),
            ..e2
        };
        if rel_or_abs_ok(e.bounds, rel, ae) {
            (e3, Ok(()))
        } else {
            (e3, Err(BoundsViolation { arg, rel: Some(rel), abs: ae }))
        }
    } else {
        if abs_ok(e.bounds, ae) {
            (e1, Ok(()))
        } else {
            (e1, Err(BoundsViolation { arg, rel: None, abs: ae }))
        }
    }
}

impl<In: Copy> Error<In> {
    /// Initializes the aggregator without any bounds.
    pub fn new() -> (r: Self)
        ensures
            r == Error::<In>::empty(ErrorBounds { rel: None, abs: None, rms: None }),
    {
        Error::with_bounds(ErrorBounds::new())
    }

    /// The empty aggregator state for the given bounds.
    pub open spec fn empty(bounds: ErrorBounds) -> Error<In> {
        Error {
            max_abs_arg: None,
            max_abs: ZERO,
            max_rel_arg: None,
            max_rel: ZERO,
            sum_rel: ZERO,
            total: ZERO,
            bounds,
        }
    }

    /// Initializes the aggregator with the given bounds.
    pub fn with_bounds(bounds: ErrorBounds) -> (r: Self)
        ensures
            r == Error::<In>::empty(bounds),
    {
        Error {
            max_abs_arg: None,
            max_abs: ZERO,
            max_rel_arg: None,
            max_rel: ZERO,
            sum_rel: ZERO,
            total: ZERO,
            bounds,
        }
    }

    /// Calculates the errors between the computed and the reference value and
    /// folds them into the running state; if the sample violates the
    /// per-sample bounds, the violation is returned together with the
    /// offending argument and both error magnitudes.
    pub fn calculate(&mut self, arg: In, computed: u32, reference: u32) -> (r: Result<
        (),
        BoundsViolation<In>,
    >)
        ensures
            (*final(self), r) == record_pat(*old(self), arg, computed, reference),
    {
        let ae: u32 = crate::utils::abs(fsub(computed, reference));
        if crate::float::lt(self.max_abs, ae) {
            self.max_abs_arg = Some(arg);
            self.max_abs = ae;
        }
        if !crate::float::feq(reference, ZERO) {
            let rel: u32 = fdiv(ae, crate::utils::abs(reference));
            if crate::float::lt(self.max_rel, rel) {
                self.max_rel_arg = Some(arg);
                self.max_rel = rel;
            }
            self.sum_rel = fadd(self.sum_rel, fmul(rel, rel));
            self.total = fadd(self.total, ONE);
            if self.bounds.check_rel_or_abs(rel, ae) {
                Ok(())
            } else {
                Err(BoundsViolation { arg, rel: Some(rel), abs: ae })
            }
        } else {
            if self.bounds.check_abs(ae) {
                Ok(())
            } else {
                Err(BoundsViolation { arg, rel: None, abs: ae })
            }
        }
    }

    /// Returns the maximum relative error encountered.
    pub fn max_rel(&self) -> (r: u32)
        ensures
            r == self.max_rel,
    {
        self.max_rel
    }

    /// Returns the argument of the maximum relative error, once any sample
    /// with a defined relative error arrived.
    pub fn max_rel_arg(&self) -> (r: Option<In>)
        ensures
            r == self.max_rel_arg,
    {
        self.max_rel_arg
    }

    /// Returns the maximum absolute error encountered.
    pub fn max_abs(&self) -> (r: u32)
        ensures
            r == self.max_abs,
    {
        self.max_abs
    }

    /// Returns the argument of the maximum absolute error, once any sample
    /// arrived.
    pub fn max_abs_arg(&self) -> (r: Option<In>)
        ensures
            r == self.max_abs_arg,
    {
        self.max_abs_arg
    }

    /// Returns the root-mean-square error over all samples encountered whose
    /// relative error was defined.
    pub fn rms(&self) -> (r: u32)
        ensures
            r == sqrt_pat(div_pat(self.sum_rel, self.total)),
    {
        sqrt(fdiv(self.sum_rel, self.total))
    }

    /// Checks the root-mean-square bound over the whole sweep; the per-sample
    /// bounds were already enforced while recording. Fails with the offending
    /// aggregate value.
    pub fn finalize(&self) -> (r: Result<(), u32>)
        ensures
            ({
                let rms = sqrt_pat(div_pat(self.sum_rel, self.total));
                r == (if rms_ok(self.bounds, rms) {
                    Result::<(), u32>::Ok(())
                } else {
                    Result::<(), u32>::Err(rms)
                })
            }),
    {
        let rms: u32 = self.rms();
        if self.bounds.check_rms(rms) {
            Ok(())
        } else {
            Err(rms)
        }
    }
}

} // verus!
