//! Classical statistical models behind a uniform fit / transform / predict
//! interface: Gaussian Naive Bayes, principal component analysis, ordinary
//! least squares, scalers and categorical encoders.
//!
//! This crate holds the decisions of those models that need no floating point:
//! how records group into classes (with the shape checks of that grouping),
//! which components are kept, which label a row of scores selects, how a
//! dataset is split, how categories are encoded, the observed range of a
//! min-max scaler, and whether a regression's shape admits a fit. The
//! floating-point statistics, and the shape checks made on numeric arrays at
//! transform time, are left to the code that computes them.

use vstd::prelude::*;

use classification::ClassificationDataSet;

pub mod classification;
pub mod dimensionality_reduction;
pub mod distinct;
pub mod metrics;
pub mod order;
pub mod regression;
pub mod transformer;

verus! {

/// Fits a model or a transformer to input data.
///
/// The implementing type holds the hyperparameters; `fit` produces the fitted
/// model, or `None` when the data do not admit one.
pub trait Estimator<Input> {
    /// Model or transformer produced by a successful fit.
    type Estimator;

    /// Fits to `input`, or returns `None` when no model can be fitted.
    fn fit(&self, input: &Input) -> Option<Self::Estimator>;
}

/// A split of features and labels: training features, testing features,
/// training labels, testing labels.
#[derive(Debug, Clone)]
pub struct SplitDataset<Feature, Label>(
    pub Vec<Feature>,
    pub Vec<Feature>,
    pub Vec<Label>,
    pub Vec<Label>,
);

/// Relies on `rand::random_ratio`: a draw from the thread-local generator that
/// is `true` with probability `numerator / denominator`; the documentation
/// guarantees `false` for a zero numerator and `true` when the numerator equals
/// the denominator, and a panic for a zero denominator or a numerator above it.
pub assume_specification[ rand::random_ratio ](numerator: u32, denominator: u32) -> (r: bool)
    requires
        denominator > 0,
        numerator <= denominator,
    ensures
        numerator == 0 ==> !r,
        numerator == denominator ==> r,
;

/// The elements of `items[..n]` whose draw in `draws` is `pick`, in order.
pub open spec fn drawn<R>(items: Seq<R>, draws: Seq<bool>, pick: bool, n: nat) -> Seq<R>
    decreases n,
{
    if n == 0 {
        Seq::empty()
    } else {
        let rest = drawn(items, draws, pick, (n - 1) as nat);
        if draws[n - 1] == pick {
            rest.push(items[n - 1])
        } else {
            rest
        }
    }
}

/// Splits `records` in order: those whose draw is `false` go to the first
/// part, those whose draw is `true` to the second.
pub fn split_by_draws<R>(records: Vec<R>, draws: &Vec<bool>) -> (r: (Vec<R>, Vec<R>))
    requires
        draws.len() == records.len(),
    ensures
        r.0@ == drawn(records@, draws@, false, records.len() as nat),
        r.1@ == drawn(records@, draws@, true, records.len() as nat),
{
    let ghost all = records@;
    let n = records.len();
    let mut rest = records;
    let mut first: Vec<R> = Vec::new();
    let mut second: Vec<R> = Vec::new();
    let mut i: usize = 0;
    while i < n
        invariant
            n == all.len() == draws.len(),
            i <= n,
            rest@ == all.subrange(i as int, n as int),
            first@ == drawn(all, draws@, false, i as nat),
            second@ == drawn(all, draws@, true, i as nat),
        decreases n - i,
    {
        let record = rest.remove(0);
        if draws[i] {
            second.push(record);
        } else {
            first.push(record);
        }
        i += 1;
    }
    (first, second)
}

/// Splits `dataset` into a training and a testing set: each record goes to the
/// testing set, independently of the others, with probability
/// `test_numerator / test_denominator`, a fraction strictly between 0 and 1.
/// The records keep their order.
pub fn train_test_split<Feature, Label>(
    dataset: ClassificationDataSet<Feature, Label>,
    test_numerator: u32,
    test_denominator: u32,
) -> (r: (ClassificationDataSet<Feature, Label>, ClassificationDataSet<Feature, Label>))
    requires
        0 < test_numerator < test_denominator,
    ensures
        exists|draws: Seq<bool>|
            draws.len() == dataset.dataset.len() && r.0.dataset@ == drawn(
                dataset.dataset@,
                draws,
                false,
                dataset.dataset.len() as nat,
            ) && r.1.dataset@ == drawn(dataset.dataset@, draws, true, dataset.dataset.len() as nat),
{
    let records = dataset.consume_records();
    let n = records.len();
    let mut draws: Vec<bool> = Vec::new();
    while draws.len() < n
        invariant
            draws.len() <= n,
            0 < test_numerator < test_denominator,
        decreases n - draws.len(),
    {
        let d = rand::random_ratio(test_numerator, test_denominator);
        draws.push(d);
    }
    let (train, test) = split_by_draws(records, &draws);
    (ClassificationDataSet { dataset: train }, ClassificationDataSet { dataset: test })
}

} // verus!
