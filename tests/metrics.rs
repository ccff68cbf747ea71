use rs_ml::classification::ClassificationDataSet;
use rs_ml::classification::ClassificationRecord;
use rs_ml::metrics::accuracy;
use rs_ml::metrics::accuracy_of_strings;
use rs_ml::metrics::Accuracy;
use rs_ml::split_by_draws;
use rs_ml::train_test_split;

fn dataset(n: usize) -> ClassificationDataSet<Vec<f64>, usize> {
    ClassificationDataSet::from(
        (0..n)
            .map(|i| ClassificationRecord::from((vec![i as f64], i)))
            .collect::<Vec<_>>(),
    )
}

#[test]
fn accuracy_is_an_exact_fraction() {
    let a = accuracy(&vec!["a", "b", "a"], &vec!["a", "b", "b"]).unwrap();
    assert_eq!(a, Accuracy { correct: 2, total: 3 });
    assert_eq!(a.correct as f64 / a.total as f64, 2.0 / 3.0);
}

#[test]
fn accuracy_mismatched_or_empty_fails() {
    assert_eq!(accuracy(&vec!["a", "b", "a"], &vec!["a", "b"]), None);
    assert_eq!(accuracy::<&str>(&vec![], &vec![]), None);
    assert_eq!(accuracy(&vec![1, 2], &vec![1, 2]), Some(Accuracy { correct: 2, total: 2 }));
}

#[test]
fn split_by_draws_keeps_order() {
    let (first, second) = split_by_draws(vec![10, 11, 12, 13, 14], &vec![false, true, true, false, true]);
    assert_eq!(first, vec![10, 13]);
    assert_eq!(second, vec![11, 12, 14]);
}

#[test]
fn train_test_split_of_empty_dataset() {
    let (train, test) = train_test_split(dataset(0), 1, 2);
    assert!(train.dataset.is_empty());
    assert!(test.dataset.is_empty());
}

#[test]
fn train_test_split_partitions_in_order() {
    let (train, test) = train_test_split(dataset(50), 1, 4);
    assert_eq!(train.dataset.len() + test.dataset.len(), 50);
    let train_labels: Vec<usize> = train.get_labels().into_iter().cloned().collect();
    let test_labels: Vec<usize> = test.get_labels().into_iter().cloned().collect();
    assert!(train_labels.windows(2).all(|w| w[0] < w[1]));
    assert!(test_labels.windows(2).all(|w| w[0] < w[1]));
    let mut all: Vec<usize> = train_labels.into_iter().chain(test_labels).collect();
    all.sort();
    assert_eq!(all, (0..50).collect::<Vec<_>>());
}

fn strings(ws: &[&str]) -> Vec<String> {
    ws.iter().map(|w| w.to_string()).collect()
}

#[test]
fn accuracy_of_strings_is_an_exact_fraction() {
    let a = accuracy_of_strings(&strings(&["a", "b", "a"]), &strings(&["a", "b", "b"])).unwrap();
    assert_eq!(a, Accuracy { correct: 2, total: 3 });
    assert_eq!(accuracy_of_strings(&strings(&["a", "b"]), &strings(&["a"])), None);
    assert_eq!(accuracy_of_strings(&vec![], &vec![]), None);
}
