use quant_lab_engine::{
    BacktestConfig, EngineError, Float64, MarketBar, MarketSeries, Signal, SignalConfig, SignalReason,
    backtest_closes, generate_mean_reversion_signals,
};

fn fl(x: f64) -> Float64 {
    Float64::from_bits(x.to_bits())
}

fn series_from_closes(closes: &[f64]) -> MarketSeries {
    let bars = closes.iter().enumerate().map(|(index, close)| MarketBar::new(index as u64 + 1, fl(*close))).collect();

    MarketSeries::new("TST", bars).expect("test market data is valid")
}

fn signal_config() -> SignalConfig {
    SignalConfig { entry_z: fl(1.0), exit_z: fl(0.2), long_weight: fl(1.0), short_weight: fl(-1.0) }
}

fn backtest_config() -> BacktestConfig {
    BacktestConfig { initial_cash: fl(1_000.0), fee_bps: fl(0.0) }
}

fn zscores(values: &[f64]) -> Vec<Float64> {
    values.iter().map(|x| fl(*x)).collect()
}

#[test]
fn signals_cover_long_short_hold_exit_and_timestamp_alignment() {
    let series = series_from_closes(&[100.0, 101.0, 102.0, 103.0, 104.0, 105.0]);
    let signals = generate_mean_reversion_signals(&series, &zscores(&[-1.2, 1.2, 0.5, 0.0]), 3, signal_config())
        .expect("signals should generate");

    assert_eq!(
        signals,
        vec![
            Signal { timestamp: 3, target_weight: fl(1.0), reason: SignalReason::LongMeanReversion },
            Signal { timestamp: 4, target_weight: fl(-1.0), reason: SignalReason::ShortMeanReversion },
            Signal { timestamp: 5, target_weight: fl(-1.0), reason: SignalReason::Hold },
            Signal { timestamp: 6, target_weight: fl(0.0), reason: SignalReason::ExitToFlat },
        ]
    );
}

#[test]
fn signal_config_rejects_invalid_thresholds() {
    assert_eq!(
        SignalConfig { entry_z: fl(0.0), ..signal_config() }.validate(),
        Err(EngineError::InvalidConfig { context: "entry_z must be positive and finite" })
    );

    assert_eq!(
        SignalConfig { entry_z: fl(1.0), exit_z: fl(1.5), ..signal_config() }.validate(),
        Err(EngineError::InvalidConfig { context: "exit_z must be finite and in [0, entry_z]" })
    );
}

#[test]
fn signal_config_rejects_non_finite_weights() {
    assert_eq!(
        SignalConfig { long_weight: fl(f64::NAN), ..signal_config() }.validate(),
        Err(EngineError::InvalidConfig { context: "signal weights must be finite" })
    );
    assert_eq!(signal_config().validate(), Ok(()));
}

#[test]
fn signals_reject_non_finite_zscore() {
    let series = series_from_closes(&[100.0, 101.0, 102.0]);

    assert_eq!(
        generate_mean_reversion_signals(&series, &zscores(&[f64::INFINITY]), 3, signal_config()),
        Err(EngineError::InvalidMarketData { index: 0, reason: "zscore must be finite" })
    );
}

#[test]
fn signals_hold_the_previous_weight_between_thresholds() {
    let series = series_from_closes(&[100.0, 101.0, 102.0, 103.0, 104.0]);
    let signals = generate_mean_reversion_signals(&series, &zscores(&[0.5, -1.0, -0.5]), 3, signal_config())
        .expect("signals should generate");
    let weights: Vec<f64> = signals.iter().map(|s| f64::from_bits(s.target_weight.to_bits())).collect();
    assert_eq!(weights, vec![0.0, 1.0, 1.0]);
    assert_eq!(signals[0].reason, SignalReason::Hold);
    assert_eq!(signals[1].reason, SignalReason::LongMeanReversion);
    assert_eq!(signals[2].reason, SignalReason::Hold);
}

#[test]
fn backtest_rejects_empty_signals() {
    let series = series_from_closes(&[100.0, 101.0]);

    assert_eq!(backtest_closes(&series, &[], backtest_config()), Err(EngineError::EmptyInput { context: "signals" }));
}

#[test]
fn backtest_rejects_invalid_config() {
    assert_eq!(
        BacktestConfig { initial_cash: fl(0.0), fee_bps: fl(0.0) }.validate(),
        Err(EngineError::InvalidConfig { context: "initial_cash must be positive and finite" })
    );

    assert_eq!(
        BacktestConfig { initial_cash: fl(1_000.0), fee_bps: fl(-1.0) }.validate(),
        Err(EngineError::InvalidConfig { context: "fee_bps must be non-negative and finite" })
    );
}

#[test]
fn backtest_rejects_missing_timestamp() {
    let series = series_from_closes(&[100.0, 101.0]);
    let signals = [Signal { timestamp: 99, target_weight: fl(1.0), reason: SignalReason::LongMeanReversion }];

    assert_eq!(
        backtest_closes(&series, &signals, backtest_config()),
        Err(EngineError::MissingTimestamp { timestamp: 99 })
    );
}

#[test]
fn backtest_prices_each_signal_at_its_bar() {
    let series = series_from_closes(&[100.0, 110.0, 120.0]);
    let signals = [
        Signal { timestamp: 3, target_weight: fl(1.0), reason: SignalReason::LongMeanReversion },
        Signal { timestamp: 1, target_weight: fl(0.0), reason: SignalReason::ExitToFlat },
    ];
    assert_eq!(backtest_closes(&series, &signals, backtest_config()), Ok(vec![fl(120.0), fl(100.0)]));
}

#[test]
fn backtest_checks_config_before_signals() {
    let series = series_from_closes(&[100.0]);
    assert_eq!(
        backtest_closes(&series, &[], BacktestConfig { initial_cash: fl(f64::INFINITY), fee_bps: fl(0.0) }),
        Err(EngineError::InvalidConfig { context: "initial_cash must be positive and finite" })
    );
}
