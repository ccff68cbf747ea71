//! Metrics that compare predictions with the ground truth.

use vstd::prelude::*;
use vstd::std_specs::cmp::PartialEqSpec;

verus! {

/// An accuracy as an exact fraction: `correct` matches out of `total` pairs.
#[derive(Debug, Clone, Copy, PartialEq, Eq)]
pub struct Accuracy {
    /// Number of positions where the prediction equals the ground truth.
    pub correct: usize,
    /// Number of positions compared.
    pub total: usize,
}

/// Number of positions below `n` where `a` and `b` hold equal values.
pub open spec fn count_equal<T: PartialEq>(a: Seq<T>, b: Seq<T>, n: nat) -> nat
    decreases n,
{
    if n == 0 {
        0
    } else {
        count_equal(a, b, (n - 1) as nat) + if a[n - 1].eq_spec(&b[n - 1]) {
            1nat
        } else {
            0nat
        }
    }
}

/// Number of positions below `n` where `a` and `b` hold strings with the
/// same characters.
pub open spec fn count_same_strings(a: Seq<String>, b: Seq<String>, n: nat) -> nat
    decreases n,
{
    if n == 0 {
        0
    } else {
        count_same_strings(a, b, (n - 1) as nat) + if a[n - 1]@ == b[n - 1]@ {
            1nat
        } else {
            0nat
        }
    }
}

/// Share of positions where the prediction equals the ground truth.
///
/// `None` when the two sequences differ in length or are empty: no pair is
/// dropped and nothing is divided by zero.
pub fn accuracy<T: PartialEq>(ground_truth: &Vec<T>, inference: &Vec<T>) -> (r: Option<Accuracy>)
    ensures
        r is None <==> ground_truth.len() != inference.len() || ground_truth.len() == 0,
        r matches Some(a) ==> a.total == ground_truth.len() && a.correct <= a.total,
        r matches Some(a) ==> T::obeys_eq_spec() ==> a.correct == count_equal(
            ground_truth@,
            inference@,
            ground_truth.len() as nat,
        ),
{
    let n = ground_truth.len();
    if n != inference.len() || n == 0 {
        return None;
    }
    let mut correct: usize = 0;
    let mut i: usize = 0;
    while i < n
        invariant
            n == ground_truth.len() == inference.len(),
            i <= n,
            correct <= i,
            T::obeys_eq_spec() ==> correct == count_equal(ground_truth@, inference@, i as nat),
        decreases n - i,
    {
        if ground_truth[i] == inference[i] {
            correct += 1;
        }
        i += 1;
    }
    Some(Accuracy { correct, total: n })
}

/// Share of positions where the predicted string equals the true one.
///
/// `None` when the two sequences differ in length or are empty.
pub fn accuracy_of_strings(ground_truth: &Vec<String>, inference: &Vec<String>) -> (r: Option<
    Accuracy,
>)
    ensures
        r is None <==> ground_truth.len() != inference.len() || ground_truth.len() == 0,
        r matches Some(a) ==> a.total == ground_truth.len() && a.correct == count_same_strings(
            ground_truth@,
            inference@,
            ground_truth.len() as nat,
        ),
{
    let n = ground_truth.len();
    if n != inference.len() || n == 0 {
        return None;
    }
    let mut correct: usize = 0;
    let mut i: usize = 0;
    while i < n
        invariant
            n == ground_truth.len() == inference.len(),
            i <= n,
            correct <= i,
            correct == count_same_strings(ground_truth@, inference@, i as nat),
        decreases n - i,
    {
        if ground_truth[i] == inference[i] {
            correct += 1;
        }
        i += 1;
    }
    Some(Accuracy { correct, total: n })
}

} // verus!
