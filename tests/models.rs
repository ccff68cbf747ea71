use rs_ml::classification::first_max_position;
use rs_ml::classification::most_likely_labels;
use rs_ml::classification::naive_bayes::GaussianNBEstimator;
use rs_ml::classification::ClassificationDataSet;
use rs_ml::classification::ClassificationRecord;
use rs_ml::classification::Classifier;
use rs_ml::dimensionality_reduction::pca::PCAEstimator;
use rs_ml::regression::linear::OrdinaryLeastSquaresEstimator;
use rs_ml::transformer::scalers::MinMaxScalerParams;
use rs_ml::Estimator;

fn nb_dataset(labels: Vec<bool>) -> ClassificationDataSet<Vec<f64>, bool> {
    let rows = vec![
        vec![0., 1., 2.],
        vec![9., 77., 3.],
        vec![3., 2., 10.],
        vec![2., 2., 90.],
        vec![8., 24., 100.],
    ];
    let records: Vec<_> = rows
        .into_iter()
        .zip(labels)
        .map(|(row, label)| ClassificationRecord::from((row, label)))
        .collect();
    ClassificationDataSet::from(records)
}

#[test]
fn naive_bayes_groups_classes_in_first_seen_order() {
    let dataset = nb_dataset(vec![true, false, true, false, false]);
    let groups = GaussianNBEstimator.group_classes(&dataset).unwrap();
    assert_eq!(groups.labels, vec![true, false]);
    assert_eq!(groups.members, vec![vec![0, 2], vec![1, 3, 4]]);
    assert_eq!(groups.n_records, 5);
    assert_eq!(groups.n_features, 3);
}

#[test]
fn naive_bayes_groups_partition_the_records() {
    let mut dataset = nb_dataset(vec![false, true, true, false, true]);
    dataset.dataset.push(ClassificationRecord::from((vec![1., 1., 1.], false)));
    let groups = GaussianNBEstimator.group_classes(&dataset).unwrap();
    assert_eq!(groups.labels, vec![false, true]);
    let mut seen: Vec<usize> = groups.members.concat();
    seen.sort();
    assert_eq!(seen, vec![0, 1, 2, 3, 4, 5]);
    for (c, members) in groups.members.iter().enumerate() {
        for &i in members {
            assert_eq!(dataset.dataset[i].label, groups.labels[c]);
        }
    }
}

#[test]
fn naive_bayes_groups_string_labels() {
    let labels = ["setosa", "virginica", "setosa", "virginica", "virginica"];
    let records: Vec<_> = labels
        .iter()
        .enumerate()
        .map(|(i, l)| ClassificationRecord::from((vec![i as f64, 1.0], l.to_string())))
        .collect();
    let dataset = ClassificationDataSet::from(records);
    let groups = GaussianNBEstimator.group_string_classes(&dataset).unwrap();
    assert_eq!(groups.labels, vec!["setosa".to_string(), "virginica".to_string()]);
    assert_eq!(groups.members, vec![vec![0, 2], vec![1, 3, 4]]);
    let mut lonely = dataset;
    lonely.dataset[0].label = "versicolor".to_string();
    assert!(GaussianNBEstimator.group_string_classes(&lonely).is_none());
}

#[test]
fn naive_bayes_single_record_class_fails() {
    let dataset = nb_dataset(vec![true, false, false, false, false]);
    assert!(GaussianNBEstimator.group_classes(&dataset).is_none());
}

#[test]
fn naive_bayes_ragged_or_empty_input_fails() {
    let mut dataset = nb_dataset(vec![true, false, true, false, false]);
    dataset.dataset[3].features.push(1.0);
    assert!(GaussianNBEstimator.group_classes(&dataset).is_none());
    let empty: ClassificationDataSet<Vec<f64>, bool> = ClassificationDataSet::from(vec![]);
    assert!(GaussianNBEstimator.group_classes(&empty).is_none());
}

#[test]
fn first_max_prefers_earlier_ties() {
    assert_eq!(first_max_position(&[0.2, 0.5, 0.5, 0.1]), 1);
    assert_eq!(first_max_position(&[0.9]), 0);
    assert_eq!(first_max_position(&[0.1, 0.2, 0.7]), 2);
}

#[test]
fn most_likely_labels_per_row() {
    let scores = vec![vec![0.1, 0.7, 0.2], vec![0.4, 0.4, 0.2], vec![0.0, 0.0, 1.0]];
    let labels = ["a", "b", "c"];
    assert_eq!(most_likely_labels(&scores, &labels), Some(vec!["b", "a", "c"]));
}

#[test]
fn most_likely_labels_shape_mismatch_fails() {
    let scores = vec![vec![0.1, 0.9], vec![0.3, 0.3, 0.4]];
    assert_eq!(most_likely_labels(&scores, &["a", "b"]), None);
    let no_labels: [&str; 0] = [];
    let empty_rows: Vec<Vec<f64>> = vec![vec![]];
    assert_eq!(most_likely_labels(&empty_rows, &no_labels), None);
}

struct Threshold {
    labels: Vec<&'static str>,
}

impl Classifier<f64, &'static str> for Threshold {
    type Score = f64;

    fn labels(&self) -> &[&'static str] {
        &self.labels
    }

    fn predict_proba(&self, records: &Vec<f64>) -> Option<Vec<Vec<f64>>> {
        Some(records.iter().map(|x| vec![1.0 - x, *x]).collect())
    }
}

#[test]
fn classifier_predict_takes_most_likely_label() {
    let model = Threshold { labels: vec!["low", "high"] };
    assert_eq!(model.predict(&vec![0.1, 0.9, 0.5]), Some(vec!["low", "high", "low"]));
}

#[test]
fn pca_zero_components_rejected() {
    assert!(PCAEstimator::new(0).is_none());
    assert!(PCAEstimator::new(2).is_some());
}

#[test]
fn pca_components_in_descending_eigenvalue_order() {
    let estimator = PCAEstimator::new(2).unwrap();
    assert_eq!(estimator.component_order(&vec![0.5, 3.0, 1.0, 2.0]), Some(vec![1, 3]));
    let all = PCAEstimator::new(3).unwrap();
    assert_eq!(all.component_order(&vec![0.0, 4.0, 1.0]), Some(vec![1, 2, 0]));
}

#[test]
fn pca_more_components_than_dimensions_fails() {
    let estimator = PCAEstimator::new(4).unwrap();
    assert_eq!(estimator.component_order(&vec![1.0, 2.0, 3.0]), None);
}

#[test]
fn ols_shape_checks() {
    let ols = OrdinaryLeastSquaresEstimator;
    assert!(ols.shape_admits_fit(3, 1, 3));
    assert!(ols.shape_admits_fit(2, 1, 2));
    assert!(!ols.shape_admits_fit(1, 1, 1));
    assert!(!ols.shape_admits_fit(4, 1, 3));
}

#[test]
fn min_max_fit_observes_range() {
    let arr = vec![
        0., 1., 2., 9., 77., 3., 3., 2., 10., 2., 2., 90., 8., 24., 100.,
    ];
    let scaler = MinMaxScalerParams::new(0.0, 1.0).fit(&arr).unwrap();
    assert_eq!(scaler.min_value(), 0.0);
    assert_eq!(scaler.max_value(), 100.0);
    assert_eq!(scaler.target_min(), 0.0);
    assert_eq!(scaler.target_max(), 1.0);
}

#[test]
fn min_max_default_targets_unit_range() {
    let scaler = MinMaxScalerParams::<f64>::default().fit(&vec![3.0, -2.0, 7.5]).unwrap();
    assert_eq!((scaler.target_min(), scaler.target_max()), (0.0, 1.0));
    assert_eq!((scaler.min_value(), scaler.max_value()), (-2.0, 7.5));
}

#[test]
fn min_max_fit_on_empty_input_fails() {
    let empty: Vec<f64> = vec![];
    assert!(MinMaxScalerParams::new(-1.0, 1.0).fit(&empty).is_none());
}

#[test]
fn min_max_fit_on_constant_input_fails() {
    assert!(MinMaxScalerParams::new(-1.0, 1.0).fit(&vec![5.0]).is_none());
    assert!(MinMaxScalerParams::new(0.0, 1.0).fit(&vec![2.0, 2.0, 2.0]).is_none());
    let scaler = MinMaxScalerParams::new(0.0, 1.0).fit(&vec![2.0, 2.0, 2.5]).unwrap();
    assert_eq!((scaler.min_value(), scaler.max_value()), (2.0, 2.5));
}

struct NoScores;

impl Classifier<f64, &'static str> for NoScores {
    type Score = f64;

    fn labels(&self) -> &[&'static str] {
        &["a"]
    }

    fn predict_proba(&self, _records: &Vec<f64>) -> Option<Vec<Vec<f64>>> {
        None
    }
}

#[test]
fn classifier_predict_fails_without_scores() {
    assert_eq!(NoScores.predict(&vec![1.0]), None);
}
