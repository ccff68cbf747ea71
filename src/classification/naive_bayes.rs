//! Gaussian Naive Bayes: how a training set splits into classes.
//!
//! The per-class statistics (means, variances, priors) are computed from the
//! groups made here; fitting fails cleanly when a class has too few records
//! to give a variance.

use vstd::laws_eq::obeys_concrete_eq;
use vstd::prelude::*;
use vstd::std_specs::cmp::PartialEqSpec;

use crate::classification::ClassificationDataSet;
use crate::distinct::{
    as_ints,
    derefs,
    first_seen,
    first_seen_positions,
    first_seen_string_positions,
    increasing_below,
    kept_positions,
    lemma_kept_positions_cover,
    lemma_positions_equal_to_contains,
    positions_equal_to,
    positions_equal_to_one_at,
    positions_holding,
    string_positions_equal_to_one_at,
    views,
};

verus! {

/// Estimator of a Gaussian Naive Bayes classifier.
#[derive(Debug, Clone, Copy)]
pub struct GaussianNBEstimator;

/// How the records of a training set fall into classes.
#[derive(Debug)]
pub struct ClassGroups<Label> {
    /// The distinct labels, in the order of their first occurrence.
    pub labels: Vec<Label>,
    /// For each label, the positions of its records, in increasing order.
    pub members: Vec<Vec<usize>>,
    /// Number of records in the training set.
    pub n_records: usize,
    /// Number of features of every record.
    pub n_features: usize,
}

/// Every record of `data` has `d` features.
pub open spec fn all_rows_have_width<T, Label>(data: ClassificationDataSet<Vec<T>, Label>, d: nat) -> bool {
    forall|i: int| 0 <= i < data.dataset.len() ==> (#[trigger] data.dataset@[i]).features.len() == d
}

/// Every distinct label of `labels` occurs at least twice.
pub open spec fn every_class_has_two<Label: PartialEq>(labels: Seq<Label>) -> bool {
    let k = kept_positions(labels, labels.len());
    forall|c: int|
        0 <= c < k.len() ==> (#[trigger] positions_equal_to(labels, labels[k[c]], labels.len())).len()
            >= 2
}

/// `data` is non-empty, its records have the same number of features, and
/// each of its labels occurs at least twice.
pub open spec fn can_group<T, Label: PartialEq>(data: ClassificationDataSet<Vec<T>, Label>) -> bool {
    &&& data.dataset.len() > 0
    &&& all_rows_have_width(data, data.dataset@[0].features@.len())
    &&& every_class_has_two(data.label_seq())
}

/// Every distinct string of `labels` occurs at least twice.
pub open spec fn every_string_class_has_two(labels: Seq<Seq<char>>) -> bool {
    let k = first_seen(labels, labels.len());
    forall|c: int|
        0 <= c < k.len() ==> (#[trigger] positions_holding(labels, labels[k[c]], labels.len())).len()
            >= 2
}

/// `data` is non-empty, its records have the same number of features, and
/// each of its string labels occurs at least twice.
pub open spec fn can_group_strings<T>(data: ClassificationDataSet<Vec<T>, String>) -> bool {
    &&& data.dataset.len() > 0
    &&& all_rows_have_width(data, data.dataset@[0].features@.len())
    &&& every_string_class_has_two(views(data.label_seq()))
}

/// The smallest number of records a class needs: its variance divides by one
/// less than its count.
pub const MIN_RECORDS_PER_CLASS: usize = 2;

impl GaussianNBEstimator {
    /// Splits the records of `data` by label.
    ///
    /// `None` when `data` is empty, when its records differ in their number
    /// of features, or when some label occurs only once.
    pub fn group_classes<T, Label: PartialEq + Clone>(
        &self,
        data: &ClassificationDataSet<Vec<T>, Label>,
    ) -> (r: Option<ClassGroups<Label>>)
        ensures
            data.dataset.len() == 0 ==> r is None,
            data.dataset.len() > 0 && !all_rows_have_width(
                *data,
                data.dataset@[0].features@.len(),
            ) ==> r is None,
            Label::obeys_eq_spec() ==> (r is Some <==> can_group(*data)),
            r matches Some(g) ==> {
                &&& g.n_records == data.dataset.len() > 0
                &&& g.n_features == data.dataset@[0].features.len()
                &&& all_rows_have_width(*data, g.n_features as nat)
                &&& g.labels.len() == g.members.len()
                &&& forall|c: int|
                    0 <= c < g.members.len() ==> increasing_below(
                        as_ints(#[trigger] g.members@[c]@),
                        g.n_records as int,
                    ) && g.members@[c].len() >= MIN_RECORDS_PER_CLASS
            },
            r matches Some(g) ==> Label::obeys_eq_spec() ==> {
                let ls = data.label_seq();
                let k = kept_positions(ls, ls.len());
                &&& g.labels.len() == k.len()
                &&& forall|c: int|
                    0 <= c < k.len() ==> cloned(ls[k[c]], #[trigger] g.labels@[c]) && as_ints(
                        g.members@[c]@,
                    ) == positions_equal_to(ls, ls[k[c]], ls.len())
            },
    {
        let n = data.dataset.len();
        if n == 0 {
            return None;
        }
        let d = data.dataset[0].features.len();
        assert(d as nat == data.dataset@[0].features@.len());
        let mut i: usize = 0;
        while i < n
            invariant
                n == data.dataset.len(),
                n > 0,
                d as nat == data.dataset@[0].features@.len(),
                i <= n,
                forall|m: int| 0 <= m < i ==> (#[trigger] data.dataset@[m]).features.len() == d,
            decreases n - i,
        {
            if data.dataset[i].features.len() != d {
                assert(!all_rows_have_width(*data, d as nat)) by {
                    assert(data.dataset@[i as int].features.len() != d);
                }
                return None;
            }
            i += 1;
        }
        let refs = data.get_labels();
        let ghost ls = data.label_seq();
        assert(derefs(refs@) =~= ls);
        let firsts = first_seen_positions(&refs);
        let mut labels: Vec<Label> = Vec::new();
        let mut members: Vec<Vec<usize>> = Vec::new();
        let mut c: usize = 0;
        while c < firsts.len()
            invariant
                n == data.dataset.len() == refs.len() == ls.len(),
                n > 0,
                d as nat == data.dataset@[0].features@.len(),
                all_rows_have_width(*data, d as nat),
                ls == data.label_seq(),
                derefs(refs@) == ls,
                increasing_below(as_ints(firsts@), n as int),
                Label::obeys_eq_spec() ==> as_ints(firsts@) == kept_positions(ls, n as nat),
                c <= firsts.len(),
                labels.len() == c,
                members.len() == c,
                forall|m: int|
                    0 <= m < c ==> increasing_below(as_ints(#[trigger] members@[m]@), n as int)
                        && members@[m].len() >= MIN_RECORDS_PER_CLASS,
                forall|m: int|
                    0 <= m < c ==> cloned(ls[as_ints(firsts@)[m]], #[trigger] labels@[m]),
                Label::obeys_eq_spec() ==> forall|m: int|
                    0 <= m < c ==> as_ints(#[trigger] members@[m]@) == positions_equal_to(
                        ls,
                        ls[as_ints(firsts@)[m]],
                        n as nat,
                    ),
            decreases firsts.len() - c,
        {
            let p = firsts[c];
            assert(as_ints(firsts@)[c as int] == p);
            let group = positions_equal_to_one_at(&refs, p);
            if group.len() < MIN_RECORDS_PER_CLASS {
                proof {
                    if Label::obeys_eq_spec() {
                        let k = kept_positions(ls, ls.len());
                        assert(positions_equal_to(ls, ls[k[c as int]], ls.len()).len() < 2);
                        assert(!every_class_has_two(ls));
                    }
                }
                return None;
            }
            let label = data.dataset[p].label.clone();
            labels.push(label);
            members.push(group);
            c += 1;
        }
        proof {
            if Label::obeys_eq_spec() {
                let k = kept_positions(ls, ls.len());
                assert forall|m: int| 0 <= m < k.len() implies (#[trigger] positions_equal_to(
                    ls,
                    ls[k[m]],
                    ls.len(),
                )).len() >= 2 by {
                    assert(as_ints(members@[m]@).len() == members@[m]@.len());
                }
            }
        }
        Some(ClassGroups { labels, members, n_records: n, n_features: d })
    }

    /// Splits the records of `data` by their string label; two labels are the
    /// same class when their characters are equal.
    ///
    /// `None` when `data` is empty, when its records differ in their number
    /// of features, or when some label occurs only once.
    pub fn group_string_classes<T>(
        &self,
        data: &ClassificationDataSet<Vec<T>, String>,
    ) -> (r: Option<ClassGroups<String>>)
        ensures
            data.dataset.len() == 0 ==> r is None,
            data.dataset.len() > 0 && !all_rows_have_width(
                *data,
                data.dataset@[0].features@.len(),
            ) ==> r is None,
            r is Some <==> can_group_strings(*data),
            r matches Some(g) ==> {
                &&& g.n_records == data.dataset.len() > 0
                &&& g.n_features == data.dataset@[0].features.len()
                &&& all_rows_have_width(*data, g.n_features as nat)
                &&& g.labels.len() == g.members.len()
                &&& forall|c: int|
                    0 <= c < g.members.len() ==> increasing_below(
                        as_ints(#[trigger] g.members@[c]@),
                        g.n_records as int,
                    ) && g.members@[c].len() >= MIN_RECORDS_PER_CLASS
            },
            r matches Some(g) ==> {
                let ls = views(data.label_seq());
                let k = first_seen(ls, ls.len());
                &&& g.labels.len() == k.len()
                &&& forall|c: int|
                    0 <= c < k.len() ==> (#[trigger] g.labels@[c])@ == ls[k[c]] && as_ints(
                        g.members@[c]@,
                    ) == positions_holding(ls, ls[k[c]], ls.len())
            },
    {
        let n = data.dataset.len();
        if n == 0 {
            return None;
        }
        let d = data.dataset[0].features.len();
        assert(d as nat == data.dataset@[0].features@.len());
        let mut i: usize = 0;
        while i < n
            invariant
                n == data.dataset.len(),
                n > 0,
                d as nat == data.dataset@[0].features@.len(),
                i <= n,
                forall|m: int| 0 <= m < i ==> (#[trigger] data.dataset@[m]).features.len() == d,
            decreases n - i,
        {
            if data.dataset[i].features.len() != d {
                assert(!all_rows_have_width(*data, d as nat)) by {
                    assert(data.dataset@[i as int].features.len() != d);
                }
                return None;
            }
            i += 1;
        }
        let refs = data.get_labels();
        let ghost ls = views(data.label_seq());
        assert(derefs(refs@) =~= data.label_seq());
        let firsts = first_seen_string_positions(&refs);
        let mut labels: Vec<String> = Vec::new();
        let mut members: Vec<Vec<usize>> = Vec::new();
        let mut c: usize = 0;
        while c < firsts.len()
            invariant
                n == data.dataset.len() == refs.len() == ls.len(),
                n > 0,
                d as nat == data.dataset@[0].features@.len(),
                all_rows_have_width(*data, d as nat),
                ls == views(data.label_seq()),
                derefs(refs@) == data.label_seq(),
                increasing_below(as_ints(firsts@), n as int),
                as_ints(firsts@) == first_seen(ls, n as nat),
                c <= firsts.len(),
                labels.len() == c,
                members.len() == c,
                forall|m: int|
                    0 <= m < c ==> increasing_below(as_ints(#[trigger] members@[m]@), n as int)
                        && members@[m].len() >= MIN_RECORDS_PER_CLASS,
                forall|m: int|
                    0 <= m < c ==> (#[trigger] labels@[m])@ == ls[as_ints(firsts@)[m]],
                forall|m: int|
                    0 <= m < c ==> as_ints(#[trigger] members@[m]@) == positions_holding(
                        ls,
                        ls[as_ints(firsts@)[m]],
                        n as nat,
                    ),
            decreases firsts.len() - c,
        {
            let p = firsts[c];
            assert(as_ints(firsts@)[c as int] == p);
            let group = string_positions_equal_to_one_at(&refs, p);
            if group.len() < MIN_RECORDS_PER_CLASS {
                proof {
                    let k = first_seen(ls, ls.len());
                    assert(positions_holding(ls, ls[k[c as int]], ls.len()).len() < 2);
                    assert(!every_string_class_has_two(ls));
                }
                return None;
            }
            let label = data.dataset[p].label.clone();
            labels.push(label);
            members.push(group);
            c += 1;
        }
        proof {
            let k = first_seen(ls, ls.len());
            assert forall|m: int| 0 <= m < k.len() implies (#[trigger] positions_holding(
                ls,
                ls[k[m]],
                ls.len(),
            )).len() >= 2 by {
                assert(as_ints(members@[m]@).len() == members@[m]@.len());
            }
        }
        Some(ClassGroups { labels, members, n_records: n, n_features: d })
    }
}

/// Record `i` lies in the class of the `c`-th distinct label of `labels`.
pub open spec fn in_class<Label: PartialEq>(labels: Seq<Label>, c: int, i: int) -> bool {
    let k = kept_positions(labels, labels.len());
    &&& 0 <= c < k.len()
    &&& positions_equal_to(labels, labels[k[c]], labels.len()).contains(i)
}

/// Record `i` lies in the class of some distinct label of `labels`.
pub open spec fn in_some_class<Label: PartialEq>(labels: Seq<Label>, i: int) -> bool {
    exists|c: int| #[trigger] in_class(labels, c, i)
}

/// Where equality of labels is the identity of their values, the classes
/// that `group_classes` forms partition the records: each record lies in the
/// class of exactly one label, the one equal to its own.
pub proof fn lemma_classes_partition_records<Label: PartialEq>(labels: Seq<Label>)
    requires
        obeys_concrete_eq::<Label>(),
    ensures
        forall|i: int| 0 <= i < labels.len() ==> #[trigger] in_some_class(labels, i),
        forall|i: int, c1: int, c2: int|
            #[trigger] in_class(labels, c1, i) && #[trigger] in_class(labels, c2, i) ==> c1 == c2,
{
    let n = labels.len();
    let k = kept_positions(labels, n);
    lemma_kept_positions_cover(labels, n);
    assert forall|i: int| 0 <= i < n implies #[trigger] in_some_class(labels, i) by {
        let c = choose|c: int| 0 <= c < k.len() && labels[k[c]] == labels[i];
        lemma_positions_equal_to_contains(labels, labels[k[c]], n, i);
        assert(in_class(labels, c, i));
    }
    assert forall|i: int, c1: int, c2: int|
        #[trigger] in_class(labels, c1, i) && #[trigger] in_class(labels, c2, i) implies c1 == c2 by {
        lemma_positions_equal_to_contains(labels, labels[k[c1]], n, i);
        lemma_positions_equal_to_contains(labels, labels[k[c2]], n, i);
    }
}

} // verus!
