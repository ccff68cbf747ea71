//! Scalers that bring values into a common range.
//!
//! The scaling arithmetic runs on floating-point values; what is decided here
//! is what a fit observes: which input values bound the range.

use vstd::prelude::*;
use vstd::std_specs::cmp::PartialOrdSpec;
use vstd::std_specs::convert::FromSpec;

use crate::order::{less_than, lemma_less_than_transitive, lemma_total, ordered, total_order};
use crate::Estimator;

verus! {

/// Estimator of a standard scaler: zero mean and unit (sample) standard
/// deviation per column.
#[derive(Debug, Clone, Copy)]
pub struct StandardScalerEstimator;

/// Target range of a min-max scaler.
#[derive(Debug, Clone, Copy)]
pub struct MinMaxScalerParams<F> {
    min: F,
    max: F,
}

/// A fitted min-max scaler: the target range, and the smallest and largest
/// values observed in fitting.
#[derive(Debug, Clone)]
pub struct MinMaxScaler<F> {
    min: F,
    max: F,
    min_value: F,
    max_value: F,
}

impl<F> MinMaxScalerParams<F> {
    /// Lower end of the target range.
    pub closed spec fn spec_min(&self) -> F {
        self.min
    }

    /// Upper end of the target range.
    pub closed spec fn spec_max(&self) -> F {
        self.max
    }

    /// Parameters that scale into `[min, max]`.
    pub fn new(min: F, max: F) -> (r: Self)
        ensures
            r.spec_min() == min,
            r.spec_max() == max,
    {
        MinMaxScalerParams { min, max }
    }
}

impl<F: From<u8>> Default for MinMaxScalerParams<F> {
    /// Parameters that scale into `[0, 1]`.
    fn default() -> (r: Self)
        ensures
            F::obeys_from_spec() ==> r.spec_min() == F::from_spec(0u8) && r.spec_max()
                == F::from_spec(1u8),
    {
        MinMaxScalerParams { min: F::from(0u8), max: F::from(1u8) }
    }
}

impl<F: Copy> MinMaxScaler<F> {
    /// Lower end of the target range.
    pub closed spec fn spec_target_min(&self) -> F {
        self.min
    }

    /// Upper end of the target range.
    pub closed spec fn spec_target_max(&self) -> F {
        self.max
    }

    /// Smallest value observed in fitting.
    pub closed spec fn spec_min_value(&self) -> F {
        self.min_value
    }

    /// Largest value observed in fitting.
    pub closed spec fn spec_max_value(&self) -> F {
        self.max_value
    }

    /// Lower end of the target range.
    pub fn target_min(&self) -> (r: F)
        ensures
            r == self.spec_target_min(),
    {
        self.min
    }

    /// Upper end of the target range.
    pub fn target_max(&self) -> (r: F)
        ensures
            r == self.spec_target_max(),
    {
        self.max
    }

    /// Smallest value observed in fitting.
    pub fn min_value(&self) -> (r: F)
        ensures
            r == self.spec_min_value(),
    {
        self.min_value
    }

    /// Largest value observed in fitting.
    pub fn max_value(&self) -> (r: F)
        ensures
            r == self.spec_max_value(),
    {
        self.max_value
    }
}

impl<F: PartialOrd + Copy> Estimator<Vec<F>> for MinMaxScalerParams<F> {
    type Estimator = MinMaxScaler<F>;

    /// Observes the smallest and the largest value of `input`; `None` for an
    /// empty input, and for one whose values span no range (no value is less
    /// than another), which leaves nothing to scale by.
    fn fit(&self, input: &Vec<F>) -> (r: Option<MinMaxScaler<F>>)
        ensures
            input.len() == 0 ==> r is None,
            r matches Some(s) ==> F::obeys_partial_cmp_spec() ==> less_than(
                s.spec_min_value(),
                s.spec_max_value(),
            ),
            ordered::<F>() && (forall|i: int, j: int|
                0 <= i < input.len() && 0 <= j < input.len() ==> !less_than(
                    #[trigger] input@[i],
                    #[trigger] input@[j],
                )) ==> r is None,
            total_order::<F>() ==> (r is None <==> input.len() == 0 || forall|i: int, j: int|
                0 <= i < input.len() && 0 <= j < input.len() ==> !less_than(
                    #[trigger] input@[i],
                    #[trigger] input@[j],
                )),
            r matches Some(s) ==> {
                &&& s.spec_target_min() == self.spec_min()
                &&& s.spec_target_max() == self.spec_max()
                &&& input@.contains(s.spec_min_value())
                &&& input@.contains(s.spec_max_value())
            },
            r matches Some(s) ==> ordered::<F>() ==> forall|i: int|
                0 <= i < input.len() ==> !less_than(#[trigger] input@[i], s.spec_min_value())
                    && !less_than(s.spec_max_value(), input@[i]),
    {
        if input.len() == 0 {
            return None;
        }
        let mut lo: usize = 0;
        let mut hi: usize = 0;
        let mut i: usize = 1;
        proof {
            if ordered::<F>() {
                crate::order::lemma_less_than_irreflexive(input@[0]);
            }
        }
        while i < input.len()
            invariant
                1 <= i <= input.len(),
                lo < i,
                hi < i,
                ordered::<F>() ==> forall|j: int|
                    0 <= j < i ==> !less_than(#[trigger] input@[j], input@[lo as int]) && !less_than(
                        input@[hi as int],
                        input@[j],
                    ),
            decreases input.len() - i,
        {
            if input[i] < input[lo] {
                proof {
                    if ordered::<F>() {
                        assert forall|j: int| 0 <= j <= i implies !less_than(
                            #[trigger] input@[j],
                            input@[i as int],
                        ) by {
                            if j == i {
                                crate::order::lemma_less_than_irreflexive(input@[j]);
                            } else if less_than(input@[j], input@[i as int]) {
                                lemma_less_than_transitive(input@[j], input@[i as int], input@[lo as int]);
                            }
                        }
                    }
                }
                lo = i;
            }
            if input[hi] < input[i] {
                proof {
                    if ordered::<F>() {
                        assert forall|j: int| 0 <= j <= i implies !less_than(
                            input@[i as int],
                            #[trigger] input@[j],
                        ) by {
                            if j == i {
                                crate::order::lemma_less_than_irreflexive(input@[j]);
                            } else if less_than(input@[i as int], input@[j]) {
                                lemma_less_than_transitive(input@[hi as int], input@[i as int], input@[j]);
                            }
                        }
                    }
                }
                hi = i;
            }
            i += 1;
        }
        if !(input[lo] < input[hi]) {
            proof {
                if total_order::<F>() {
                    assert forall|a: int, b: int|
                        0 <= a < input.len() && 0 <= b < input.len() implies !less_than(
                            #[trigger] input@[a],
                            #[trigger] input@[b],
                        ) by {
                        let x_lo = input@[lo as int];
                        let x_hi = input@[hi as int];
                        lemma_total(input@[a], x_lo);
                        lemma_total(input@[b], x_hi);
                        if less_than(input@[a], input@[b]) {
                            if less_than(x_lo, input@[a]) {
                                lemma_less_than_transitive(x_lo, input@[a], input@[b]);
                                if less_than(input@[b], x_hi) {
                                    lemma_less_than_transitive(x_lo, input@[b], x_hi);
                                }
                            } else {
                                if less_than(input@[b], x_hi) {
                                    lemma_less_than_transitive(x_lo, input@[b], x_hi);
                                }
                            }
                        }
                    }
                }
            }
            return None;
        }
        proof {
            if ordered::<F>() {
                assert(less_than(input@[lo as int], input@[hi as int]));
            }
        }
        let scaler = MinMaxScaler {
            min: self.min,
            max: self.max,
            min_value: input[lo],
            max_value: input[hi],
        };
        assert(input@.contains(scaler.min_value)) by {
            assert(input@[lo as int] == scaler.min_value);
        }
        assert(input@.contains(scaler.max_value)) by {
            assert(input@[hi as int] == scaler.max_value);
        }
        Some(scaler)
    }
}

} // verus!
