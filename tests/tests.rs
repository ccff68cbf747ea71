use rs_ml::classification::ClassificationDataSet;
use rs_ml::classification::ClassificationRecord;
use rs_ml::transformer::embedding::OneHotEmbeddingEstimator;
use rs_ml::transformer::embedding::OneHotEmbeddingTransformer;
use rs_ml::transformer::embedding::OrderedEnumEmbeddingTransformer;
use rs_ml::transformer::Transformer;
use rs_ml::Estimator;

#[test]
fn test_one_hot_encoding() {
    let data = vec![
        "one".to_owned(),
        "two".to_owned(),
        "three".to_owned(),
        "four".to_owned(),
    ];

    let test = vec![
        "one".to_owned(),
        "one".to_owned(),
        "two".to_owned(),
        "two".to_owned(),
    ];

    let transformer: OneHotEmbeddingTransformer<String> =
        OneHotEmbeddingEstimator.fit(&data).unwrap();
    let new_data: Vec<Vec<u8>> = transformer.transform(&test).unwrap();

    assert_eq!((new_data.len(), new_data[0].len()), (4, 4));
}

#[derive(Clone, Copy)]
enum Enum {
    A,
    B,
    C,
}

struct Flower {
    petal: f64,
    species: String,
}

#[test]
fn test_ordered_enum_encoding() {
    let v: Vec<i64> = vec![Enum::A, Enum::B, Enum::C]
        .into_iter()
        .map(|e| e as i64)
        .collect();

    let transformed = OrderedEnumEmbeddingTransformer.transform(&v);

    assert_eq!(transformed, Some(vec![0, 1, 2]))
}

#[test]
fn dataset_from_records_keeps_order() {
    let records = vec![
        ClassificationRecord::from((vec![1.0, 2.0], "a")),
        ClassificationRecord::from((vec![3.0, 4.0], "b")),
    ];
    let dataset = ClassificationDataSet::from(records);
    assert_eq!(dataset.get_labels(), vec![&"a", &"b"]);
    assert_eq!(dataset.get_features(), vec![&vec![1.0, 2.0], &vec![3.0, 4.0]]);
    assert_eq!(dataset.get_records().len(), 2);
    let records = dataset.consume_records();
    assert_eq!(records[1].label, "b");
    assert_eq!(records[1].features, vec![3.0, 4.0]);
}

#[test]
fn dataset_from_struct_extracts_each_item() {
    let items = vec![
        Flower { petal: 1.5, species: "setosa".to_owned() },
        Flower { petal: 4.5, species: "virginica".to_owned() },
        Flower { petal: 2.5, species: "setosa".to_owned() },
    ];
    let dataset = ClassificationDataSet::from_struct(
        &items,
        |f: &Flower| vec![f.petal, f.petal * 2.0],
        |f: &Flower| f.species.clone(),
    );
    assert_eq!(dataset.dataset.len(), 3);
    assert_eq!(dataset.dataset[1].features, vec![4.5, 9.0]);
    assert_eq!(dataset.dataset[2].label, "setosa");
}
