//! Transformers: fitted maps from input data to transformed data.

use vstd::prelude::*;

use crate::Estimator;

pub mod embedding;
pub mod scalers;

verus! {

/// Maps input data to transformed data with what was learned in fitting.
pub trait Transformer<Input, Output> {
    /// Transforms `input`, or returns `None` when it does not fit the
    /// transformer.
    fn transform(&self, input: &Input) -> Option<Output>;
}

/// An estimator whose fitted model is a transformer.
pub trait FitTransform<Input, Output, T: Transformer<Input, Output>>: Estimator<Input, Estimator = T> {
    /// Fits to `input` and transforms it, in one step.
    ///
    /// A result comes from `transform` on the model that `fit` returned; when
    /// `fit` gives `None`, so does this.
    fn fit_transform(&self, input: &Input) -> (r: Option<Output>)
        ensures
            exists|f: Option<T>|
                {
                    &&& call_ensures(Self::fit, (self, input), f)
                    &&& f is None ==> r is None
                    &&& f matches Some(t) ==> call_ensures(T::transform, (&t, input), r)
                },
    {
        match self.fit(input) {
            None => None,
            Some(transformer) => transformer.transform(input),
        }
    }
}

impl<Input, Output, T: Transformer<Input, Output>, E: Estimator<Input, Estimator = T>> FitTransform<
    Input,
    Output,
    T,
> for E {

}

} // verus!
