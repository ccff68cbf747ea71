use rs_ml::distinct::first_seen_positions;
use rs_ml::distinct::position_of;
use rs_ml::distinct::positions_equal_to_one_at;
use rs_ml::transformer::embedding::OneHotEmbeddingEstimator;
use rs_ml::transformer::embedding::OneHotEmbeddingTransformer;
use rs_ml::transformer::embedding::OrderedEnumEmbeddingTransformer;
use rs_ml::transformer::FitTransform;
use rs_ml::transformer::Transformer;
use rs_ml::Estimator;

fn words(ws: &[&str]) -> Vec<String> {
    ws.iter().map(|w| w.to_string()).collect()
}

#[test]
fn one_hot_rows_follow_first_seen_vocabulary() {
    let data = words(&["one", "two", "three", "four"]);
    let test = words(&["one", "one", "two", "two"]);
    let transformer: OneHotEmbeddingTransformer<String> =
        OneHotEmbeddingEstimator.fit(&data).unwrap();
    let m = transformer.transform(&test).unwrap();
    assert_eq!(
        m,
        vec![
            vec![1, 0, 0, 0],
            vec![1, 0, 0, 0],
            vec![0, 1, 0, 0],
            vec![0, 1, 0, 0],
        ]
    );
    for row in &m {
        assert_eq!(row.iter().filter(|x| **x == 1).count(), 1);
    }
}

#[test]
fn one_hot_repeated_categories_share_a_column() {
    let data = words(&["b", "a", "b", "c", "a"]);
    let transformer: OneHotEmbeddingTransformer<String> =
        OneHotEmbeddingEstimator.fit(&data).unwrap();
    let m = transformer.transform(&words(&["c", "b", "a"])).unwrap();
    assert_eq!(m, vec![vec![0, 0, 1], vec![1, 0, 0], vec![0, 1, 0]]);
}

#[test]
fn one_hot_unknown_category_fails() {
    let data = words(&["one", "two"]);
    let transformer: OneHotEmbeddingTransformer<String> =
        OneHotEmbeddingEstimator.fit(&data).unwrap();
    assert_eq!(transformer.transform(&words(&["one", "five"])), None);
}

#[test]
fn one_hot_fit_on_empty_input_fails() {
    let data: Vec<String> = vec![];
    let fitted: Option<OneHotEmbeddingTransformer<String>> = OneHotEmbeddingEstimator.fit(&data);
    assert!(fitted.is_none());
}

#[test]
fn one_hot_fit_transform_in_one_step() {
    let data = words(&["x", "y", "x"]);
    let m: Option<Vec<Vec<u8>>> = OneHotEmbeddingEstimator.fit_transform(&data);
    assert_eq!(m, Some(vec![vec![1, 0], vec![0, 1], vec![1, 0]]));
}

#[test]
fn ordered_enum_negative_value_fails() {
    assert_eq!(OrderedEnumEmbeddingTransformer.transform(&vec![3, -1]), None);
    assert_eq!(OrderedEnumEmbeddingTransformer.transform(&vec![7, 0, 42]), Some(vec![7, 0, 42]));
    assert_eq!(OrderedEnumEmbeddingTransformer.transform(&Vec::<i64>::new()), Some(vec![]));
}

#[test]
fn first_seen_positions_of_labels() {
    let labels = vec![3, 1, 3, 2, 1, 2];
    let refs: Vec<&i32> = labels.iter().collect();
    assert_eq!(first_seen_positions(&refs), vec![0, 1, 3]);
    assert_eq!(positions_equal_to_one_at(&refs, 1), vec![1, 4]);
    assert_eq!(position_of(&labels, &2), Some(3));
    assert_eq!(position_of(&labels, &9), None);
}

#[test]
fn one_hot_strings_follow_first_seen_vocabulary() {
    let data = words(&["one", "two", "three", "four"]);
    let test = words(&["one", "one", "two", "two"]);
    let transformer = OneHotEmbeddingEstimator.fit_strings(&data).unwrap();
    let m = transformer.transform_strings(&test).unwrap();
    assert_eq!(
        m,
        vec![
            vec![1, 0, 0, 0],
            vec![1, 0, 0, 0],
            vec![0, 1, 0, 0],
            vec![0, 1, 0, 0],
        ]
    );
}

#[test]
fn one_hot_strings_unknown_or_empty_fails() {
    assert!(OneHotEmbeddingEstimator.fit_strings(&vec![]).is_none());
    let transformer = OneHotEmbeddingEstimator
        .fit_strings(&words(&["b", "a", "b"]))
        .unwrap();
    assert_eq!(transformer.transform_strings(&words(&["a", "c"])), None);
    assert_eq!(
        transformer.transform_strings(&words(&["a", "b"])),
        Some(vec![vec![0, 1], vec![1, 0]])
    );
}
