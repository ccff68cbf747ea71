//! Classification data and the classifier interface.

use vstd::prelude::*;
use vstd::std_specs::cmp::PartialOrdSpec;

use crate::order::{
    less_than,
    lemma_less_than_irreflexive,
    lemma_less_than_transitive,
    lemma_total,
    total_order,
};

pub mod naive_bayes;

verus! {

/// A single training record: the features and the label of one observation.
#[derive(Debug)]
pub struct ClassificationRecord<Features, Label> {
    /// Features of the record.
    pub features: Features,
    /// Label of the record.
    pub label: Label,
}

/// An ordered collection of classification records.
#[derive(Debug)]
pub struct ClassificationDataSet<Features, Label> {
    /// The records, in the order in which they were given.
    pub dataset: Vec<ClassificationRecord<Features, Label>>,
}

impl<Features, Label> From<(Features, Label)> for ClassificationRecord<Features, Label> {
    fn from(value: (Features, Label)) -> Self {
        ClassificationRecord { features: value.0, label: value.1 }
    }
}

impl<Features, Label> vstd::std_specs::convert::FromSpecImpl<(Features, Label)> for ClassificationRecord<Features, Label> {
    open spec fn obeys_from_spec() -> bool {
        true
    }

    open spec fn from_spec(v: (Features, Label)) -> Self {
        ClassificationRecord { features: v.0, label: v.1 }
    }
}

impl<Features, Label> From<Vec<ClassificationRecord<Features, Label>>> for ClassificationDataSet<Features, Label> {
    fn from(value: Vec<ClassificationRecord<Features, Label>>) -> Self {
        ClassificationDataSet { dataset: value }
    }
}

impl<Features, Label> vstd::std_specs::convert::FromSpecImpl<Vec<ClassificationRecord<Features, Label>>> for ClassificationDataSet<Features, Label> {
    open spec fn obeys_from_spec() -> bool {
        true
    }

    open spec fn from_spec(v: Vec<ClassificationRecord<Features, Label>>) -> Self {
        ClassificationDataSet { dataset: v }
    }
}

impl<Features, Label> ClassificationDataSet<Features, Label> {
    /// The labels of the records, in order.
    pub open spec fn label_seq(&self) -> Seq<Label> {
        self.dataset@.map_values(|r: ClassificationRecord<Features, Label>| r.label)
    }

    /// The features of the records, in order.
    pub open spec fn feature_seq(&self) -> Seq<Features> {
        self.dataset@.map_values(|r: ClassificationRecord<Features, Label>| r.features)
    }

    /// The label of each record, in order.
    pub fn get_labels(&self) -> (r: Vec<&Label>)
        ensures
            r.len() == self.dataset.len(),
            forall|i: int| 0 <= i < r.len() ==> *(#[trigger] r@[i]) == self.dataset@[i].label,
    {
        let mut r: Vec<&Label> = Vec::new();
        let mut i: usize = 0;
        while i < self.dataset.len()
            invariant
                i <= self.dataset.len(),
                r.len() == i,
                forall|j: int| 0 <= j < i ==> *(#[trigger] r@[j]) == self.dataset@[j].label,
            decreases self.dataset.len() - i,
        {
            r.push(&self.dataset[i].label);
            i += 1;
        }
        r
    }

    /// The features of each record, in order.
    pub fn get_features(&self) -> (r: Vec<&Features>)
        ensures
            r.len() == self.dataset.len(),
            forall|i: int| 0 <= i < r.len() ==> *(#[trigger] r@[i]) == self.dataset@[i].features,
    {
        let mut r: Vec<&Features> = Vec::new();
        let mut i: usize = 0;
        while i < self.dataset.len()
            invariant
                i <= self.dataset.len(),
                r.len() == i,
                forall|j: int| 0 <= j < i ==> *(#[trigger] r@[j]) == self.dataset@[j].features,
            decreases self.dataset.len() - i,
        {
            r.push(&self.dataset[i].features);
            i += 1;
        }
        r
    }

    /// The records.
    pub fn get_records(&self) -> (r: &Vec<ClassificationRecord<Features, Label>>)
        ensures
            r@ == self.dataset@,
    {
        &self.dataset
    }

    /// Gives up the dataset for its records.
    pub fn consume_records(self) -> (r: Vec<ClassificationRecord<Features, Label>>)
        ensures
            r@ == self.dataset@,
    {
        self.dataset
    }

    /// Builds a dataset with one record per item: its features and its label
    /// are what the two extraction functions make of the item.
    pub fn from_struct<S, FE, LE>(items: &Vec<S>, feature_extraction: FE, label_extraction: LE) -> (r:
        Self) where FE: Fn(&S) -> Features, LE: Fn(&S) -> Label
        requires
            forall|i: int| 0 <= i < items.len() ==> feature_extraction.requires((&items@[i],)),
            forall|i: int| 0 <= i < items.len() ==> label_extraction.requires((&items@[i],)),
        ensures
            r.dataset.len() == items.len(),
            forall|i: int|
                0 <= i < items.len() ==> feature_extraction.ensures(
                    (&items@[i],),
                    (#[trigger] r.dataset@[i]).features,
                ) && label_extraction.ensures((&items@[i],), r.dataset@[i].label),
    {
        let mut dataset: Vec<ClassificationRecord<Features, Label>> = Vec::new();
        let mut i: usize = 0;
        while i < items.len()
            invariant
                i <= items.len(),
                dataset.len() == i,
                forall|j: int| 0 <= j < items.len() ==> feature_extraction.requires((&items@[j],)),
                forall|j: int| 0 <= j < items.len() ==> label_extraction.requires((&items@[j],)),
                forall|j: int|
                    0 <= j < i ==> feature_extraction.ensures(
                        (&items@[j],),
                        (#[trigger] dataset@[j]).features,
                    ) && label_extraction.ensures((&items@[j],), dataset@[j].label),
            decreases items.len() - i,
        {
            let features = feature_extraction(&items[i]);
            let label = label_extraction(&items[i]);
            dataset.push(ClassificationRecord { features, label });
            i += 1;
        }
        ClassificationDataSet { dataset }
    }
}

/// The position that a left-to-right scan of `row[..n]` ends on, when it
/// starts on position 0 and moves to a later position only when the value
/// there is strictly greater than the current one: the first maximum, ties
/// going to the earlier position.
pub open spec fn scan_max<S: PartialOrd>(row: Seq<S>, n: nat) -> int
    decreases n,
{
    if n <= 1 {
        0
    } else {
        let b = scan_max(row, (n - 1) as nat);
        if less_than(row[b], row[n - 1]) {
            n - 1
        } else {
            b
        }
    }
}

/// Under a total order, the scan ends on the first maximum of `row[..n]`: no
/// value exceeds the one there, and every earlier value is less than it.
pub proof fn lemma_scan_max_is_first_maximum<S: PartialOrd>(row: Seq<S>, n: nat)
    requires
        total_order::<S>(),
        1 <= n <= row.len(),
    ensures
        0 <= scan_max(row, n) < n,
        forall|j: int| 0 <= j < n ==> !less_than(row[scan_max(row, n)], #[trigger] row[j]),
        forall|j: int| 0 <= j < scan_max(row, n) ==> less_than(#[trigger] row[j], row[scan_max(row, n)]),
    decreases n,
{
    if n == 1 {
        lemma_less_than_irreflexive(row[0]);
    } else {
        lemma_scan_max_is_first_maximum(row, (n - 1) as nat);
        let b = scan_max(row, (n - 1) as nat);
        let last = row[n - 1];
        if less_than(row[b], last) {
            assert forall|j: int| 0 <= j < n implies !less_than(last, #[trigger] row[j]) by {
                if j == n - 1 {
                    lemma_less_than_irreflexive(last);
                } else if less_than(last, row[j]) {
                    lemma_less_than_transitive(row[b], last, row[j]);
                }
            }
            assert forall|j: int| 0 <= j < n - 1 implies less_than(#[trigger] row[j], last) by {
                lemma_total(row[j], row[b]);
                if less_than(row[j], row[b]) {
                    lemma_less_than_transitive(row[j], row[b], last);
                }
            }
        }
    }
}

/// `x` is a clone of one of the `labels`.
pub open spec fn is_clone_of_one<Label: Clone>(labels: Seq<Label>, x: Label) -> bool {
    exists|k: int| 0 <= k < labels.len() && cloned(labels[k], x)
}

/// Position of the first maximum of a non-empty row.
pub fn first_max_position<S: PartialOrd>(row: &[S]) -> (r: usize)
    requires
        row.len() > 0,
    ensures
        r < row.len(),
        S::obeys_partial_cmp_spec() ==> r == scan_max(row@, row.len() as nat),
{
    let mut best: usize = 0;
    let mut j: usize = 1;
    while j < row.len()
        invariant
            1 <= j <= row.len(),
            best < j,
            S::obeys_partial_cmp_spec() ==> best == scan_max(row@, j as nat),
        decreases row.len() - j,
    {
        if row[best] < row[j] {
            best = j;
        }
        j += 1;
    }
    best
}

/// For each row of per-class scores, the label of its first highest score.
///
/// `None` when there are no labels or when a row does not hold one score per
/// label.
pub fn most_likely_labels<S: PartialOrd, Label: Clone>(scores: &Vec<Vec<S>>, labels: &[Label]) -> (r:
    Option<Vec<Label>>)
    ensures
        r is None <==> labels.len() == 0 || exists|i: int|
            0 <= i < scores.len() && (#[trigger] scores@[i]).len() != labels.len(),
        r matches Some(v) ==> v.len() == scores.len(),
        r matches Some(v) ==> forall|i: int|
            0 <= i < v.len() ==> is_clone_of_one(labels@, #[trigger] v@[i]),
        r matches Some(v) ==> S::obeys_partial_cmp_spec() ==> forall|i: int|
            0 <= i < v.len() ==> cloned(
                labels@[scan_max(scores@[i]@, labels.len() as nat)],
                #[trigger] v@[i],
            ),
{
    if labels.len() == 0 {
        return None;
    }
    let mut i: usize = 0;
    while i < scores.len()
        invariant
            i <= scores.len(),
            forall|m: int| 0 <= m < i ==> (#[trigger] scores@[m]).len() == labels.len(),
        decreases scores.len() - i,
    {
        if scores[i].len() != labels.len() {
            return None;
        }
        i += 1;
    }
    let mut v: Vec<Label> = Vec::new();
    let mut i: usize = 0;
    while i < scores.len()
        invariant
            i <= scores.len(),
            labels.len() > 0,
            forall|m: int| 0 <= m < scores.len() ==> (#[trigger] scores@[m]).len() == labels.len(),
            v.len() == i,
            forall|m: int| 0 <= m < i ==> is_clone_of_one(labels@, #[trigger] v@[m]),
            S::obeys_partial_cmp_spec() ==> forall|m: int|
                0 <= m < i ==> cloned(
                    labels@[scan_max(scores@[m]@, labels.len() as nat)],
                    #[trigger] v@[m],
                ),
        decreases scores.len() - i,
    {
        let b = first_max_position(scores[i].as_slice());
        let label = labels[b].clone();
        v.push(label);
        i += 1;
    }
    Some(v)
}

/// A fitted classification model.
pub trait Classifier<Features, Label: Clone> {
    /// Type of the per-class scores.
    type Score: PartialOrd;

    /// Labels that the model was fitted on, in the order of the score columns.
    fn labels(&self) -> &[Label];

    /// Likelihood of each class for each record: one row per record, one
    /// column per label, in the order of `labels`.
    fn predict_proba(&self, records: &Vec<Features>) -> Option<Vec<Vec<Self::Score>>>;

    /// The most likely label of each record: per row of `predict_proba`, the
    /// label of the first highest score.
    fn predict(&self, records: &Vec<Features>) -> (r: Option<Vec<Label>>)
        ensures
            exists|labels: &[Label], p: Option<Vec<Vec<Self::Score>>>|
                {
                    &&& call_ensures(Self::labels, (self,), labels)
                    &&& call_ensures(Self::predict_proba, (self, records), p)
                    &&& p is None ==> r is None
                    &&& p matches Some(scores) ==> (r is None <==> labels@.len() == 0 || exists|i: int|
                        0 <= i < scores.len() && (#[trigger] scores@[i]).len() != labels@.len())
                    &&& p matches Some(scores) ==> r matches Some(v) ==> v.len() == scores.len()
                    &&& p matches Some(scores) ==> r matches Some(v) ==> Self::Score::obeys_partial_cmp_spec()
                        ==> forall|i: int|
                        0 <= i < v.len() ==> cloned(
                            labels@[scan_max(scores@[i]@, labels@.len() as nat)],
                            #[trigger] v@[i],
                        )
                },
    {
        let labels = self.labels();
        let p = self.predict_proba(records);
        match p {
            None => None,
            Some(scores) => most_likely_labels(&scores, labels),
        }
    }
}

} // verus!
