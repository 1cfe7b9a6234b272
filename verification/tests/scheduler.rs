use quant_lab_engine::{
    CompletionOutcome, ExperimentConfig, ExperimentResult, ExperimentScheduler, Float64, SchedulerError, TaskStatus,
};

fn fl(x: f64) -> Float64 {
    Float64::from_bits(x.to_bits())
}

fn config(id: &str) -> ExperimentConfig {
    ExperimentConfig { id: id.to_string(), window: 3, entry_z: fl(0.8), exit_z: fl(0.2), fee_bps: fl(1.0), seed: 42 }
}

fn result(id: &str, final_equity: f64) -> ExperimentResult {
    ExperimentResult {
        id: id.to_string(),
        window: 3,
        entry_z: fl(0.8),
        fee_bps: fl(1.0),
        seed: 42,
        final_equity: fl(final_equity),
        total_return: fl(final_equity / 1_000.0 - 1.0),
        max_drawdown: fl(0.0),
    }
}

#[test]
fn scheduler_rejects_invalid_tasks() {
    let mut scheduler = ExperimentScheduler::default();

    assert_eq!(scheduler.add_experiment(config(""), 1), Err(SchedulerError::InvalidTask));
    assert_eq!(scheduler.add_experiment(config("exp-a"), 0), Err(SchedulerError::InvalidTask));
}

#[test]
fn scheduler_rejects_completion_for_unknown_task() {
    let mut scheduler = ExperimentScheduler::default();

    assert_eq!(scheduler.complete("missing", 1, result("missing", 1_000.0)), Err(SchedulerError::UnknownTask));
}

#[test]
fn scheduler_rejects_wrong_attempt_completion() {
    let mut scheduler = ExperimentScheduler::default();
    scheduler.add_experiment(config("exp-a"), 2).expect("valid task");
    let lease = scheduler.lease_next("worker-a", 10).expect("leased");

    assert_eq!(
        scheduler.complete(&lease.id, lease.attempt + 1, result(&lease.id, 1_000.0)),
        Err(SchedulerError::AttemptMismatch)
    );
}

#[test]
fn scheduler_rejects_completion_when_task_is_not_leased() {
    let mut scheduler = ExperimentScheduler::default();
    scheduler.add_experiment(config("exp-a"), 2).expect("valid task");

    assert_eq!(scheduler.complete("exp-a", 1, result("exp-a", 1_000.0)), Err(SchedulerError::AttemptMismatch));
}

#[test]
fn scheduler_marks_expired_last_attempt_as_failed() {
    let mut scheduler = ExperimentScheduler::default();
    scheduler.add_experiment(config("exp-a"), 1).expect("valid task");

    let lease = scheduler.lease_next("worker-a", 10).expect("leased");
    assert_eq!(lease.attempt, 1);

    scheduler.advance_to(10);

    assert_eq!(scheduler.status("exp-a"), Some(&TaskStatus::Failed));
    assert!(scheduler.lease_next("worker-b", 10).is_none());
}

// The result that a worker would compute for the second lease is built here
// directly: running the experiment itself is not part of the library.
#[test]
fn scheduler_handles_lease_expiry_completion_and_idempotency() {
    let mut scheduler = ExperimentScheduler::default();
    let config = ExperimentConfig {
        id: "exp-demo".to_string(),
        window: 3,
        entry_z: fl(0.8),
        exit_z: fl(0.2),
        fee_bps: fl(2.0),
        seed: 42,
    };

    scheduler.add_experiment(config, 2).expect("valid experiment");
    let first = scheduler.lease_next("worker-a", 10).expect("leased");
    scheduler.advance_to(10);
    assert_eq!(scheduler.status("exp-demo"), Some(&TaskStatus::Pending));

    let second = scheduler.lease_next("worker-b", 10).expect("leased");
    assert_eq!(second.attempt, first.attempt + 1);

    let result = ExperimentResult {
        id: second.config.id.clone(),
        window: second.config.window,
        entry_z: second.config.entry_z,
        fee_bps: second.config.fee_bps,
        seed: second.config.seed,
        final_equity: fl(100_512.25),
        total_return: fl(0.0051225),
        max_drawdown: fl(0.012),
    };
    assert_eq!(scheduler.complete(&second.id, second.attempt, result.clone()), Ok(CompletionOutcome::Stored));
    assert_eq!(scheduler.complete(&second.id, second.attempt, result), Ok(CompletionOutcome::DuplicateIgnored));
    assert!(scheduler.result("exp-demo").is_some());
}

#[test]
fn scheduler_rejects_conflicting_duplicate_result() {
    let mut scheduler = ExperimentScheduler::default();
    let config = config("exp-demo");

    scheduler.add_experiment(config.clone(), 2).expect("valid experiment");
    let lease = scheduler.lease_next("worker-a", 10).expect("leased");
    let stored = ExperimentResult {
        id: config.id,
        window: 3,
        entry_z: fl(0.8),
        fee_bps: fl(2.0),
        seed: 42,
        final_equity: fl(100.0),
        total_return: fl(0.0),
        max_drawdown: fl(0.0),
    };

    scheduler.complete(&lease.id, lease.attempt, stored).expect("stored");

    let conflicting = ExperimentResult {
        id: "exp-demo".to_string(),
        window: 3,
        entry_z: fl(0.8),
        fee_bps: fl(2.0),
        seed: 42,
        final_equity: fl(101.0),
        total_return: fl(0.01),
        max_drawdown: fl(0.0),
    };

    assert_eq!(scheduler.complete(&lease.id, lease.attempt, conflicting), Err(SchedulerError::ResultConflict));
}

#[test]
fn scheduler_leases_the_least_pending_id_first() {
    let mut scheduler = ExperimentScheduler::new();
    scheduler.add_experiment(config("exp-b"), 1).expect("valid");
    scheduler.add_experiment(config("exp-a"), 1).expect("valid");
    scheduler.add_experiment(config("exp-c"), 1).expect("valid");

    let lease = scheduler.lease_next("w", 5).expect("leased");
    assert_eq!(lease.id, "exp-a");
    assert_eq!(
        scheduler.status("exp-a"),
        Some(&TaskStatus::Leased { worker: "w".to_string(), attempt: 1, expires_at: 5 })
    );
    assert_eq!(scheduler.lease_next("w", 5).expect("leased").id, "exp-b");
}

#[test]
fn scheduler_adding_a_known_id_again_replaces_the_task() {
    let mut scheduler = ExperimentScheduler::new();
    scheduler.add_experiment(config("exp-a"), 1).expect("valid");
    scheduler.lease_next("w", 5).expect("leased");
    assert_eq!(scheduler.add_experiment(config("exp-a"), 3), Ok(()));
    assert_eq!(scheduler.status("exp-a"), Some(&TaskStatus::Pending));
    assert_eq!(scheduler.lease_next("w", 5).expect("leased").attempt, 1);
}

#[test]
fn scheduler_lease_not_yet_due_stays_leased() {
    let mut scheduler = ExperimentScheduler::new();
    scheduler.add_experiment(config("exp-a"), 2).expect("valid");
    scheduler.lease_next("w", 10).expect("leased");
    scheduler.advance_to(9);
    assert!(matches!(scheduler.status("exp-a"), Some(TaskStatus::Leased { .. })));
    assert!(scheduler.lease_next("w2", 10).is_none());
}

#[test]
fn scheduler_completed_task_stays_completed_after_time_passes() {
    let mut scheduler = ExperimentScheduler::new();
    scheduler.add_experiment(config("exp-a"), 2).expect("valid");
    let lease = scheduler.lease_next("w", 10).expect("leased");
    scheduler.complete(&lease.id, lease.attempt, result("exp-a", 1_010.0)).expect("stored");
    scheduler.advance_to(1_000);
    assert_eq!(scheduler.status("exp-a"), Some(&TaskStatus::Completed));
    assert_eq!(scheduler.result("exp-a"), Some(&result("exp-a", 1_010.0)));
    assert_eq!(scheduler.status("nope"), None);
}
