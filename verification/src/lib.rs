//! A verified core for a small quantitative research engine: market-data
//! validation, signal generation, columnar result batches, an experiment
//! grid and scheduler, work partitioning, benchmark decisions, the planning
//! rules of a Python boundary, a study-log reader and a benchmark command line.
//!
//! Floating-point values are carried as IEEE-754 bit patterns (`Float64`);
//! the library decides with them only by comparison, sign and finiteness,
//! which it states exactly over those bit patterns.

pub mod backtest;
pub mod bench_config;
pub mod benchmark;
pub mod columnar;
pub mod data;
pub mod error;
pub mod experiment;
pub mod factor;
pub mod float_bits;
pub mod keyed;
pub mod observability;
pub mod parallel;
pub mod python_boundary;
pub mod scheduler;
pub mod search;
pub mod signal;
pub mod study_log;
pub mod text;

pub use backtest::{BacktestConfig, backtest_closes};
pub use bench_config::{BenchCommand, BenchConfig, parse_config};
pub use benchmark::{
    BenchmarkDecision, BenchmarkObservation, BenchmarkPlan, BenchmarkSummary, benchmark_decision, check_benchmark,
    summarize_samples,
};
pub use columnar::{Column, ColumnType, ExperimentResultBatch, Field};
pub use data::{MarketBar, MarketPartition, MarketSeries, MarketUniverse};
pub use error::{ComputeError, EngineError};
pub use experiment::{ExperimentConfig, ExperimentGrid, ExperimentResult, ExperimentTaskKey, GridCell};
pub use factor::{rolling_max, rolling_min, validate_pair, validate_values, validate_window};
pub use float_bits::Float64;
pub use observability::{MetricRegistry, SpanRecord};
pub use parallel::{collect_pieces, partition_ranges};
pub use python_boundary::{BoundaryMode, BoundaryPlan, DType, PythonArraySpec, plan_python_boundary};
pub use scheduler::{CompletionOutcome, ExperimentScheduler, LeasedExperiment, SchedulerError, TaskStatus};
pub use signal::{Signal, SignalConfig, SignalReason, generate_mean_reversion_signals};
pub use study_log::{
    DataError, Observation, StudyLogScan, StudyRow, Summary, observations_from_scan, scan_study_log, summarize,
};
