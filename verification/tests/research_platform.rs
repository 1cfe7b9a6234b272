use quant_lab_engine::{
    EngineError, ExperimentConfig, ExperimentGrid, ExperimentTaskKey, Float64, GridCell, MarketBar, MarketPartition,
    MarketSeries, MarketUniverse,
};

fn fl(x: f64) -> Float64 {
    Float64::from_bits(x.to_bits())
}

fn series(symbol: &str, closes: &[f64]) -> MarketSeries {
    let bars = closes.iter().enumerate().map(|(index, close)| MarketBar::new(index as u64 + 10, fl(*close))).collect();

    MarketSeries::new(symbol, bars).expect("test market series is valid")
}

fn config() -> ExperimentConfig {
    ExperimentConfig {
        id: "exp-demo".to_string(),
        window: 3,
        entry_z: fl(0.8),
        exit_z: fl(0.2),
        fee_bps: fl(1.5),
        seed: 42,
    }
}

fn scaled(x: f64) -> i64 {
    (x * 10_000.0).round() as i64
}

fn task_key(config: &ExperimentConfig, strategy: &str, partition: &MarketPartition) -> Result<ExperimentTaskKey, EngineError> {
    let entry_z = f64::from_bits(config.entry_z.to_bits());
    let fee_bps = f64::from_bits(config.fee_bps.to_bits());
    ExperimentTaskKey::new(strategy, partition, config, scaled(entry_z), scaled(fee_bps))
}

#[test]
fn market_series_rejects_empty_symbol() {
    assert_eq!(
        MarketSeries::new("  ", vec![MarketBar::new(1, fl(100.0))]),
        Err(EngineError::InvalidConfig { context: "symbol must not be empty" })
    );
}

#[test]
fn universe_rejects_duplicate_symbols() {
    assert_eq!(
        MarketUniverse::new(vec![series("AAA", &[100.0, 101.0]), series("AAA", &[99.0, 100.0])]),
        Err(EngineError::InvalidConfig { context: "market universe symbols must be unique" })
    );
}

#[test]
fn universe_builds_symbol_partitions_with_data_version() {
    let universe = MarketUniverse::new(vec![series("AAA", &[100.0, 101.0]), series("BBB", &[200.0, 199.0, 201.0])])
        .expect("unique universe");

    assert_eq!(universe.symbols(), vec!["AAA", "BBB"]);
    assert!(universe.series("BBB").is_some());

    let partitions = universe.partitions("vendor-snapshot-2026-05-07").expect("valid data version");

    assert_eq!(
        partitions,
        vec![
            MarketPartition {
                symbol: "AAA".to_string(),
                start_timestamp: 10,
                end_timestamp: 11,
                data_version: "vendor-snapshot-2026-05-07".to_string(),
            },
            MarketPartition {
                symbol: "BBB".to_string(),
                start_timestamp: 10,
                end_timestamp: 12,
                data_version: "vendor-snapshot-2026-05-07".to_string(),
            },
        ]
    );
}

#[test]
fn market_partition_rejects_invalid_identity_fields() {
    assert_eq!(
        MarketPartition::new("", 1, 2, "v1"),
        Err(EngineError::InvalidConfig { context: "partition symbol must not be empty" })
    );
    assert_eq!(
        MarketPartition::new("AAA", 3, 2, "v1"),
        Err(EngineError::InvalidConfig { context: "partition start must be <= end" })
    );
    assert_eq!(
        MarketPartition::new("AAA", 1, 2, " "),
        Err(EngineError::InvalidConfig { context: "data_version must not be empty" })
    );
}

#[test]
fn experiment_task_key_includes_strategy_partition_data_version_and_parameters() {
    let partition = MarketPartition::new("AAA", 10, 20, "vendor-v3").expect("valid partition");
    let key = task_key(&config(), "mean-reversion-v2", &partition).expect("valid task key");

    assert_eq!(
        key.deterministic_id(),
        "strategy=mean-reversion-v2|symbol=AAA|from=10|to=20|data=vendor-v3|seed=42|window=3|entry_z=8000|fee_bps=15000"
    );
}

#[test]
fn experiment_task_key_rejects_ambiguous_identity() {
    let partition = MarketPartition::new("AAA", 10, 20, "vendor-v3").expect("valid partition");

    assert_eq!(
        task_key(&config(), " ", &partition),
        Err(EngineError::InvalidConfig { context: "strategy_version must not be empty" })
    );

    assert_eq!(
        task_key(&ExperimentConfig { window: 0, ..config() }, "strategy-v1", &partition),
        Err(EngineError::InvalidConfig { context: "experiment window must be greater than zero" })
    );

    assert_eq!(
        task_key(&ExperimentConfig { entry_z: fl(f64::INFINITY), ..config() }, "strategy-v1", &partition),
        Err(EngineError::InvalidConfig { context: "experiment task key numeric fields must be finite" })
    );
}

#[test]
fn task_key_trims_the_strategy_and_writes_negative_parameters() {
    let partition = MarketPartition::new("AAA", 0, 0, "v1").expect("valid partition");
    let key = ExperimentTaskKey::new("  s1 ", &partition, &config(), -5, 0).expect("valid task key");
    assert_eq!(key.strategy_version, "s1");
    assert_eq!(key.deterministic_id(), "strategy=s1|symbol=AAA|from=0|to=0|data=v1|seed=42|window=3|entry_z=-5|fee_bps=0");
}

#[test]
fn task_key_id_is_the_same_for_equal_keys() {
    let partition = MarketPartition::new("AAA", 10, 20, "vendor-v3").expect("valid partition");
    let first = task_key(&config(), "s", &partition).expect("valid");
    let second = task_key(&config(), "s", &partition).expect("valid");
    assert_eq!(first.deterministic_id(), second.deterministic_id());
}

#[test]
fn rejects_invalid_market_data() {
    let error = MarketSeries::new("BAD", vec![MarketBar::new(1, fl(100.0)), MarketBar::new(1, fl(101.0))])
        .expect_err("duplicate timestamp should fail");

    assert_eq!(
        error,
        EngineError::InvalidMarketData { index: 1, reason: "timestamps must be strictly increasing" }
    );
}

#[test]
fn market_series_checks_closes_in_order() {
    assert_eq!(
        MarketSeries::new("X", vec![MarketBar::new(1, fl(100.0)), MarketBar::new(2, fl(f64::NAN))]),
        Err(EngineError::InvalidMarketData { index: 1, reason: "close must be finite" })
    );
    assert_eq!(
        MarketSeries::new("X", vec![MarketBar::new(1, fl(0.0))]),
        Err(EngineError::InvalidMarketData { index: 0, reason: "close must be positive" })
    );
    assert_eq!(MarketSeries::new("X", Vec::new()), Err(EngineError::EmptyInput { context: "market series" }));
}

#[test]
fn market_series_trims_symbol_and_finds_closes() {
    let s = MarketSeries::new(" DEMO ", vec![MarketBar::new(5, fl(10.0)), MarketBar::new(9, fl(11.0))]).expect("valid");
    assert_eq!(s.symbol, "DEMO");
    assert_eq!(s.len(), 2);
    assert!(!s.is_empty());
    assert_eq!(s.close_at(9), Some(fl(11.0)));
    assert_eq!(s.close_at(6), None);
    assert_eq!(s.closes(), vec![fl(10.0), fl(11.0)]);
    let p = s.partition("v2").expect("valid");
    assert_eq!((p.start_timestamp, p.end_timestamp), (5, 9));
}

#[test]
fn experiment_grid_expands_windows_slowest_and_fees_fastest() {
    let grid = ExperimentGrid {
        windows: vec![3, 4],
        entry_z_values: vec![fl(0.8), fl(1.0)],
        fee_bps_values: vec![fl(0.0), fl(2.0)],
        seed: 42,
    };
    let cells = grid.expand_cells().expect("grid expands");

    assert_eq!(cells.len(), 8);
    assert_eq!(cells[0], GridCell { index: 1, window: 3, entry_z: fl(0.8), fee_bps: fl(0.0) });
    assert_eq!(cells[1], GridCell { index: 2, window: 3, entry_z: fl(0.8), fee_bps: fl(2.0) });
    assert_eq!(cells[2], GridCell { index: 3, window: 3, entry_z: fl(1.0), fee_bps: fl(0.0) });
    assert_eq!(cells[7], GridCell { index: 8, window: 4, entry_z: fl(1.0), fee_bps: fl(2.0) });
}

#[test]
fn experiment_grid_refuses_an_empty_axis() {
    let grid = ExperimentGrid { windows: vec![3], entry_z_values: vec![], fee_bps_values: vec![fl(1.0)], seed: 1 };
    assert_eq!(grid.expand_cells(), Err(EngineError::EmptyInput { context: "experiment grid" }));
}
