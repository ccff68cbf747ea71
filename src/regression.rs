//! Regression models.

use vstd::prelude::*;

pub mod linear;

verus! {

/// A fitted regression model.
pub trait Regressor<Input, Output> {
    /// Predicts the output for `input`, or `None` when `input` does not fit
    /// the model.
    fn predict(&self, input: &Input) -> Option<Output>;
}

} // verus!
