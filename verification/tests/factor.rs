use quant_lab_engine::{ComputeError, EngineError, Float64, rolling_max, rolling_min, validate_pair, validate_values, validate_window};

fn fl(x: f64) -> Float64 {
    Float64::from_bits(x.to_bits())
}

fn fls(values: &[f64]) -> Vec<Float64> {
    values.iter().map(|x| fl(*x)).collect()
}

#[test]
fn rolling_min_and_max_follow_complete_windows() {
    let values = fls(&[1.0, 2.0, 3.0, 4.0]);

    assert_eq!(rolling_min(&values, 2).expect("valid input"), fls(&[1.0, 2.0, 3.0]));
    assert_eq!(rolling_max(&values, 2).expect("valid input"), fls(&[2.0, 3.0, 4.0]));
}

#[test]
fn rolling_extremes_of_an_unordered_series() {
    let values = fls(&[5.0, -1.0, 3.0, 7.0, 2.0]);
    assert_eq!(rolling_min(&values, 3).expect("valid input"), fls(&[-1.0, -1.0, 2.0]));
    assert_eq!(rolling_max(&values, 3).expect("valid input"), fls(&[5.0, 7.0, 7.0]));
    assert_eq!(rolling_max(&values, 5).expect("valid input"), fls(&[7.0]));
}

#[test]
fn rolling_extremes_are_empty_when_window_exceeds_input() {
    assert_eq!(rolling_min(&fls(&[1.0, 2.0]), 3).expect("valid input"), Vec::new());
    assert_eq!(rolling_max(&fls(&[1.0, 2.0]), 3).expect("valid input"), Vec::new());
}

#[test]
fn window_validation_rejects_zero_window_and_empty_input() {
    assert_eq!(validate_window(&fls(&[1.0, 2.0]), 0), Err(ComputeError::InvalidWindow));
    assert_eq!(rolling_min(&fls(&[1.0, 2.0]), 0), Err(ComputeError::InvalidWindow));
    assert_eq!(validate_window(&[], 1), Err(ComputeError::EmptyInput));
    assert_eq!(rolling_max(&[], 1), Err(ComputeError::EmptyInput));
    assert_eq!(validate_window(&fls(&[1.0]), 1), Ok(()));
}

#[test]
fn value_validation_reports_the_first_non_finite_value() {
    let error = validate_values(&fls(&[1.0, f64::NAN])).expect_err("NaN should be rejected");
    match error {
        ComputeError::NonFiniteValue { index, value } => {
            assert_eq!(index, 1);
            assert!(f64::from_bits(value.to_bits()).is_nan());
        },
        other => panic!("unexpected error: {other:?}"),
    }
    assert_eq!(
        validate_values(&fls(&[f64::NEG_INFINITY, f64::NAN])),
        Err(ComputeError::NonFiniteValue { index: 0, value: fl(f64::NEG_INFINITY) })
    );
    assert_eq!(rolling_min(&fls(&[2.0, f64::INFINITY]), 1), Err(ComputeError::NonFiniteValue { index: 1, value: fl(f64::INFINITY) }));
}

#[test]
fn pair_validation_checks_lengths_then_values() {
    assert_eq!(
        validate_pair(&fls(&[1.0, 2.0]), &fls(&[1.0, f64::INFINITY]), 2),
        Err(ComputeError::NonFiniteValue { index: 1, value: fl(f64::INFINITY) })
    );
    assert_eq!(validate_pair(&fls(&[1.0, 2.0]), &fls(&[1.0]), 1), Err(ComputeError::LengthMismatch { left: 2, right: 1 }));
    assert_eq!(validate_pair(&fls(&[1.0, 2.0]), &fls(&[3.0, 4.0]), 2), Ok(()));
}

#[test]
fn engine_error_wraps_compute_errors() {
    assert_eq!(EngineError::from_compute(ComputeError::ZeroVariance), EngineError::Factor(ComputeError::ZeroVariance));
}

#[test]
fn error_messages_name_their_fields() {
    assert_eq!(ComputeError::EmptyInput.message(""), "input is empty");
    assert_eq!(ComputeError::LengthMismatch { left: 2, right: 1 }.message(""), "input lengths differ: left=2, right=1");
    assert_eq!(
        ComputeError::NonFiniteValue { index: 4, value: fl(f64::NAN) }.message(&format!("{}", f64::NAN)),
        "value at index 4 is not finite: NaN"
    );
    assert_eq!(EngineError::EmptyInput { context: "signals" }.message(""), "signals is empty");
    assert_eq!(
        EngineError::LengthMismatch { context: "zscore alignment", expected: 13, actual: 0 }.message(""),
        "length mismatch for zscore alignment: expected 13, actual 0"
    );
    assert_eq!(
        EngineError::MissingTimestamp { timestamp: 99 }.message(""),
        "signal timestamp 99 is missing from market data"
    );
    assert_eq!(
        EngineError::Factor(ComputeError::ZeroVariance).message(""),
        "factor computation failed: window variance is zero"
    );
    assert_eq!(
        EngineError::InvalidMarketData { index: 1, reason: "close must be positive" }.message(""),
        "invalid market data at index 1: close must be positive"
    );
    assert_eq!(EngineError::InvalidConfig { context: "x" }.message(""), "invalid config: x");
}
