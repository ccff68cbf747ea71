//! Ordinary least squares.
//!
//! The coefficients solve the normal equations `(XᵀX) β = Xᵀy` of the design
//! matrix `X`, the features with a column of ones appended for the intercept.

use vstd::prelude::*;

verus! {

/// Estimator of an ordinary least squares regression.
#[derive(Debug, Clone, Copy)]
pub struct OrdinaryLeastSquaresEstimator;

impl OrdinaryLeastSquaresEstimator {
    /// Whether `n_rows` records of `n_features` features with `n_targets`
    /// targets can determine the `n_features + 1` coefficients: one target per
    /// record, and at least as many records as coefficients, without which
    /// the Gram matrix of the design is singular.
    pub fn shape_admits_fit(&self, n_rows: usize, n_features: usize, n_targets: usize) -> (r: bool)
        ensures
            r == (n_rows == n_targets && n_rows >= n_features + 1),
    {
        n_rows == n_targets && n_features < n_rows
    }
}

} // verus!
