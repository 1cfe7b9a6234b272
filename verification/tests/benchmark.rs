use quant_lab_engine::benchmark::samples_fit;
use quant_lab_engine::{
    BenchmarkDecision, BenchmarkObservation, BenchmarkPlan, BenchmarkSummary, EngineError, Float64, benchmark_decision,
    check_benchmark, summarize_samples,
};

fn fl(x: f64) -> Float64 {
    Float64::from_bits(x.to_bits())
}

fn benchmark_plan() -> BenchmarkPlan {
    BenchmarkPlan {
        name: "rolling_mean".to_string(),
        baseline_name: "naive".to_string(),
        candidate_name: "incremental".to_string(),
        input_rows: 200_000,
        repeat: 3,
        minimum_speedup: fl(1.5),
        max_noise_ratio: fl(1.25),
    }
}

fn mean(s: &BenchmarkSummary) -> f64 {
    s.total_nanos as f64 / s.samples as f64
}

fn noise(s: &BenchmarkSummary) -> f64 {
    s.max_nanos as f64 / s.min_nanos.max(1) as f64
}

/// The evaluation of a benchmark: the library checks and summarizes the
/// evidence and decides; the ratios between timings are computed here.
fn evaluate_benchmark(plan: BenchmarkPlan, observation: BenchmarkObservation) -> Result<(BenchmarkDecision, f64), EngineError> {
    let (baseline, candidate) = check_benchmark(&plan, &observation)?;
    let speedup = mean(&baseline) / mean(&candidate);
    let decision = benchmark_decision(&plan, &baseline, &candidate, fl(speedup), fl(noise(&baseline)), fl(noise(&candidate)));
    Ok((decision, speedup))
}

fn observation(baseline: Vec<u128>, candidate: Vec<u128>, outputs_match: bool) -> BenchmarkObservation {
    BenchmarkObservation { baseline_nanos: baseline, candidate_nanos: candidate, outputs_match }
}

#[test]
fn benchmark_report_accepts_candidate_only_with_evidence() {
    let (decision, speedup) =
        evaluate_benchmark(benchmark_plan(), observation(vec![1_000, 1_020, 980], vec![500, 510, 490], true))
            .expect("valid benchmark evidence");

    assert_eq!(decision, BenchmarkDecision::CandidateWins);
    assert!(speedup > 1.5);
}

#[test]
fn benchmark_report_keeps_baseline_when_speedup_is_too_small() {
    let (decision, speedup) =
        evaluate_benchmark(benchmark_plan(), observation(vec![1_000, 1_020, 980], vec![800, 810, 790], true))
            .expect("valid benchmark evidence");

    assert_eq!(decision, BenchmarkDecision::KeepBaseline);
    assert!(speedup < f64::from_bits(benchmark_plan().minimum_speedup.to_bits()));
}

#[test]
fn benchmark_report_is_inconclusive_with_insufficient_samples() {
    let (decision, _) = evaluate_benchmark(benchmark_plan(), observation(vec![1_000, 1_020], vec![500, 510], true))
        .expect("valid benchmark evidence");

    assert_eq!(decision, BenchmarkDecision::Inconclusive);
}

#[test]
fn benchmark_report_is_inconclusive_with_high_noise() {
    let (decision, _) =
        evaluate_benchmark(benchmark_plan(), observation(vec![1_000, 1_010, 2_000], vec![500, 505, 510], true))
            .expect("valid benchmark evidence");

    assert_eq!(decision, BenchmarkDecision::Inconclusive);
}

#[test]
fn benchmark_report_rejects_mismatched_outputs() {
    assert_eq!(
        evaluate_benchmark(benchmark_plan(), observation(vec![1_000, 1_020, 980], vec![500, 510, 490], false)),
        Err(EngineError::InvalidConfig { context: "benchmark candidate output does not match baseline" })
    );
}

#[test]
fn benchmark_plan_validation_rejects_invalid_plan() {
    assert_eq!(
        BenchmarkPlan { repeat: 0, ..benchmark_plan() }.validate(),
        Err(EngineError::InvalidConfig { context: "benchmark input_rows and repeat must be greater than zero" })
    );

    assert_eq!(
        BenchmarkPlan { minimum_speedup: fl(1.0), ..benchmark_plan() }.validate(),
        Err(EngineError::InvalidConfig { context: "minimum_speedup must be finite and greater than 1" })
    );
}

#[test]
fn benchmark_plan_validation_checks_names_and_noise() {
    assert_eq!(
        BenchmarkPlan { candidate_name: "  ".to_string(), ..benchmark_plan() }.validate(),
        Err(EngineError::InvalidConfig { context: "benchmark names must not be empty" })
    );
    assert_eq!(
        BenchmarkPlan { max_noise_ratio: fl(0.99), ..benchmark_plan() }.validate(),
        Err(EngineError::InvalidConfig { context: "max_noise_ratio must be finite and at least 1" })
    );
    assert_eq!(benchmark_plan().validate(), Ok(()));
}

#[test]
fn benchmark_report_rejects_empty_sample_vectors() {
    assert_eq!(
        evaluate_benchmark(benchmark_plan(), observation(Vec::new(), vec![500, 510, 490], true)),
        Err(EngineError::EmptyInput { context: "baseline benchmark samples" })
    );

    assert_eq!(
        evaluate_benchmark(benchmark_plan(), observation(vec![1_000, 1_020, 980], Vec::new(), true)),
        Err(EngineError::EmptyInput { context: "candidate benchmark samples" })
    );
}

#[test]
fn summaries_sort_the_timings() {
    let s = summarize_samples(&[30, 10, 20]).expect("non-empty");
    assert_eq!(s, BenchmarkSummary { samples: 3, min_nanos: 10, median_nanos: 20, max_nanos: 30, total_nanos: 60 });

    let even = summarize_samples(&[7, 1, 4, 2]).expect("non-empty");
    assert_eq!(even.median_nanos, 3);
    assert_eq!((even.min_nanos, even.max_nanos, even.total_nanos), (1, 7, 14));
    assert!(even.min_nanos <= even.median_nanos && even.median_nanos <= even.max_nanos);

    assert_eq!(summarize_samples(&[]), None);
}

#[test]
fn decision_needs_the_minimum_speedup_exactly_reached() {
    let plan = benchmark_plan();
    let summary = summarize_samples(&[10, 10, 10]).expect("non-empty");
    assert_eq!(
        benchmark_decision(&plan, &summary, &summary, fl(1.5), fl(1.0), fl(1.0)),
        BenchmarkDecision::CandidateWins
    );
    assert_eq!(
        benchmark_decision(&plan, &summary, &summary, fl(1.4999), fl(1.0), fl(1.0)),
        BenchmarkDecision::KeepBaseline
    );
    assert_eq!(
        benchmark_decision(&plan, &summary, &summary, fl(9.0), fl(1.26), fl(1.0)),
        BenchmarkDecision::Inconclusive
    );
}

#[test]
fn samples_fit_checks_the_total_and_the_middle_pair() {
    assert!(samples_fit(&[1, 2, 3]));
    assert!(samples_fit(&[]));
    assert!(!samples_fit(&[u128::MAX, 1, 0]));
    assert!(!samples_fit(&[u128::MAX / 2 + 1, u128::MAX / 2 + 1]));
    assert!(samples_fit(&[u128::MAX / 2, u128::MAX / 2]));
}
