use quant_lab_engine::observability::{finish_observation, start_observation};
use quant_lab_engine::{Float64, MetricRegistry, SpanRecord};

fn fl(x: f64) -> Float64 {
    Float64::from_bits(x.to_bits())
}

#[test]
fn counters_add_up_and_start_at_zero() {
    let mut metrics = MetricRegistry::default();
    assert_eq!(metrics.counter("pipeline_runs_total"), 0);
    metrics.increment("pipeline_runs_total", 1);
    metrics.increment("pipeline_input_rows_total", 15);
    metrics.increment("pipeline_runs_total", 2);
    assert_eq!(metrics.counter("pipeline_runs_total"), 3);
    assert_eq!(metrics.counter("pipeline_input_rows_total"), 15);
}

#[test]
fn gauges_read_the_last_value_set() {
    let mut metrics = MetricRegistry::new();
    assert_eq!(metrics.gauge("pipeline_final_equity"), None);
    metrics.set_gauge("pipeline_final_equity", fl(100_000.0));
    metrics.set_gauge("other", fl(1.0));
    metrics.set_gauge("pipeline_final_equity", fl(101_250.5));
    assert_eq!(metrics.gauge("pipeline_final_equity"), Some(fl(101_250.5)));
    assert_eq!(metrics.gauge("other"), Some(fl(1.0)));
}

#[test]
fn span_fields_replace_and_stay_in_key_order() {
    let span = SpanRecord::new("pipeline_finish")
        .with_field("symbol", "DEMO")
        .with_field("rows", "15")
        .with_field("symbol", "AAA");
    assert_eq!(span.name, "pipeline_finish");
    assert_eq!(span.fields, vec![("rows".to_string(), "15".to_string()), ("symbol".to_string(), "AAA".to_string())]);
}

#[test]
fn a_pipeline_run_is_counted_and_spanned() {
    let (mut metrics, start) = start_observation("DEMO", 15, 3);
    assert_eq!(metrics.counter("pipeline_runs_total"), 1);
    assert_eq!(metrics.counter("pipeline_input_rows_total"), 15);
    assert_eq!(start.name, "pipeline_start");
    assert_eq!(
        start.fields,
        vec![
            ("input_rows".to_string(), "15".to_string()),
            ("symbol".to_string(), "DEMO".to_string()),
            ("window".to_string(), "3".to_string()),
        ]
    );

    let finish = finish_observation(&mut metrics, "DEMO", 13, 13, fl(100_512.25), fl(0.0051225), fl(31.5), "100512.25");
    assert_eq!(metrics.counter("pipeline_signal_rows_total"), 13);
    assert_eq!(metrics.counter("pipeline_factor_rows_total"), 13);
    assert_eq!(metrics.gauge("pipeline_final_equity"), Some(fl(100_512.25)));
    assert_eq!(metrics.gauge("pipeline_total_fees"), Some(fl(31.5)));
    assert_eq!(finish.name, "pipeline_finish");
    assert_eq!(finish.fields[0], ("final_equity".to_string(), "100512.25".to_string()));
    assert_eq!(finish.fields[1], ("signal_rows".to_string(), "13".to_string()));
}
