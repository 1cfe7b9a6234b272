use quant_lab_engine::{Column, ColumnType, EngineError, ExperimentResult, ExperimentResultBatch, Field, Float64};

fn fl(x: f64) -> Float64 {
    Float64::from_bits(x.to_bits())
}

fn result(index: usize, total_return: f64) -> ExperimentResult {
    ExperimentResult {
        id: format!("exp-{index:04}"),
        window: 3 + index % 2,
        entry_z: fl(0.8),
        fee_bps: fl(2.0),
        seed: 42,
        final_equity: fl(100_000.0 * (1.0 + total_return)),
        total_return: fl(total_return),
        max_drawdown: fl(0.01),
    }
}

fn results() -> Vec<ExperimentResult> {
    [0.02, -0.01, 0.0, 0.05, -0.03, 0.01, 0.0, 0.04]
        .iter()
        .enumerate()
        .map(|(i, r)| result(i + 1, *r))
        .collect()
}

#[test]
fn columnar_rejects_schema_column_count_mismatch() {
    assert_eq!(
        ExperimentResultBatch::try_new(
            vec![Field::new("id", ColumnType::Utf8)],
            vec![Column::Utf8(Vec::new()), Column::F64(Vec::new())],
        ),
        Err(EngineError::LengthMismatch { context: "schema and columns", expected: 1, actual: 2 })
    );
}

#[test]
fn columnar_rejects_row_length_mismatch() {
    assert_eq!(
        ExperimentResultBatch::try_new(
            vec![Field::new("id", ColumnType::Utf8), Field::new("equity", ColumnType::F64)],
            vec![Column::Utf8(vec!["a".to_string(), "b".to_string()]), Column::F64(vec![fl(1.0)])],
        ),
        Err(EngineError::LengthMismatch { context: "column lengths", expected: 2, actual: 1 })
    );
}

#[test]
fn columnar_rejects_dtype_mismatch() {
    assert_eq!(
        ExperimentResultBatch::try_new(vec![Field::new("equity", ColumnType::F64)], vec![Column::U64(vec![100])]),
        Err(EngineError::InvalidConfig { context: "column dtype must match schema" })
    );
}

#[test]
fn projection_validation_rejects_empty_and_missing_columns() {
    let batch = ExperimentResultBatch::try_new(
        vec![Field::new("id", ColumnType::Utf8), Field::new("total_return", ColumnType::F64)],
        vec![Column::Utf8(vec!["a".to_string()]), Column::F64(vec![fl(0.01)])],
    )
    .expect("valid batch");

    assert_eq!(batch.project(&[]), Err(EngineError::EmptyInput { context: "projection columns" }));
    assert_eq!(
        batch.project(&["missing"]),
        Err(EngineError::InvalidConfig { context: "projection column must exist" })
    );
}

#[test]
fn columnar_result_batch_projects_and_filters_results() {
    let results = results();
    let batch = ExperimentResultBatch::from_results(&results).expect("batch builds");
    let projected = batch.project(&["id", "total_return"]).expect("projection works");

    assert_eq!(projected.rows, results.len());
    assert_eq!(projected.schema.len(), 2);

    let filtered = batch.filter_total_return_gt(fl(0.0)).expect("filter should work");
    let Column::F64(total_returns) = &filtered.columns[6] else {
        panic!("total_return should be f64");
    };

    assert!(total_returns.iter().all(|value| f64::from_bits(value.to_bits()) > 0.0));
}

#[test]
fn batch_from_results_has_the_result_schema() {
    let batch = ExperimentResultBatch::from_results(&results()).expect("batch builds");
    let names: Vec<&str> = batch.schema.iter().map(|f| f.name.as_str()).collect();
    assert_eq!(
        names,
        vec!["id", "window", "entry_z", "fee_bps", "seed", "final_equity", "total_return", "max_drawdown"]
    );
    assert_eq!(batch.schema[1].dtype, ColumnType::U64);
    assert_eq!(batch.rows, 8);
    assert_eq!(batch.column_index("seed"), Some(4));
    assert_eq!(batch.column_index("nope"), None);
}

#[test]
fn filter_keeps_rows_strictly_above_threshold_in_order() {
    let batch = ExperimentResultBatch::from_results(&results()).expect("batch builds");
    let filtered = batch.filter_total_return_gt(fl(0.0)).expect("filter should work");

    assert_eq!(filtered.rows, 4);
    let Column::Utf8(ids) = &filtered.columns[0] else {
        panic!("id should be utf8");
    };
    assert_eq!(ids, &vec!["exp-0001", "exp-0004", "exp-0006", "exp-0008"]);
    let Column::U64(windows) = &filtered.columns[1] else {
        panic!("window should be u64");
    };
    assert_eq!(windows, &vec![4, 3, 3, 3]);
}

#[test]
fn filter_requires_a_total_return_column() {
    let batch = ExperimentResultBatch::try_new(vec![Field::new("id", ColumnType::Utf8)], vec![Column::Utf8(vec![
        "a".to_string(),
    ])])
    .expect("valid batch");

    assert!(batch.filter_total_return_gt(fl(0.0)).is_err());
}

#[test]
fn projection_keeps_requested_order() {
    let batch = ExperimentResultBatch::from_results(&results()).expect("batch builds");
    let projected = batch.project(&["seed", "id"]).expect("projection works");
    assert_eq!(projected.schema[0].name, "seed");
    assert_eq!(projected.schema[1].name, "id");
    assert_eq!(projected.columns[0], Column::U64(vec![42; 8]));
}

#[test]
fn column_filter_keeps_masked_values() {
    let column = Column::U64(vec![1, 2, 3, 4]);
    assert_eq!(column.filter(&[true, false, true, false]), Column::U64(vec![1, 3]));
    assert_eq!(column.len(), 4);
    assert!(!column.is_empty());
    assert_eq!(column.dtype(), ColumnType::U64);
}
