use fedimint_server::migration::{
    DatabaseVersion, MigrationAction, MigrationExecutor, MigrationFault, MigrationMap,
};

fn steps_from(versions: &[u64]) -> MigrationMap {
    let mut steps = MigrationMap::new();
    for v in versions {
        steps.register(DatabaseVersion(*v));
    }
    steps
}

fn apply(from: u64) -> MigrationAction {
    MigrationAction::Apply { from: DatabaseVersion(from), to: DatabaseVersion(from + 1) }
}

#[test]
fn steps_run_in_increasing_order_to_the_target() {
    let mut e = MigrationExecutor::new(DatabaseVersion(0), DatabaseVersion(3), steps_from(&[2, 0, 1]), 1);
    assert_eq!(e.next_action(), apply(0));
    assert_eq!(e.step_applied(), apply(1));
    assert_eq!(e.version(), DatabaseVersion(1));
    assert_eq!(e.step_applied(), apply(2));
    assert_eq!(e.step_applied(), MigrationAction::Finished);
    assert_eq!(e.version(), DatabaseVersion(3));
    assert_eq!(e.target(), DatabaseVersion(3));
    assert_eq!(e.fault(), None);
}

#[test]
fn a_store_at_the_target_needs_no_step() {
    let mut e = MigrationExecutor::new(DatabaseVersion(3), DatabaseVersion(3), steps_from(&[0, 1, 2]), 1);
    assert_eq!(e.next_action(), MigrationAction::Finished);
    assert_eq!(e.step_applied(), MigrationAction::Finished);
    assert_eq!(e.version(), DatabaseVersion(3));
}

#[test]
fn a_store_ahead_of_the_target_is_left_alone() {
    let e = MigrationExecutor::new(DatabaseVersion(5), DatabaseVersion(3), steps_from(&[0, 1, 2]), 1);
    assert_eq!(e.next_action(), MigrationAction::Finished);
    assert_eq!(e.version(), DatabaseVersion(5));
}

#[test]
fn failing_second_step_of_three_leaves_version_one() {
    let mut e = MigrationExecutor::new(DatabaseVersion(0), DatabaseVersion(3), steps_from(&[0, 1, 2]), 1);
    assert_eq!(e.next_action(), apply(0));
    assert_eq!(e.step_applied(), apply(1));
    let halt = MigrationAction::Halt {
        fault: MigrationFault::StepFailed { version: DatabaseVersion(1) },
    };
    assert_eq!(e.step_failed(false), halt);
    assert_eq!(e.version(), DatabaseVersion(1));
    assert_eq!(e.next_action(), halt);
    assert_eq!(e.step_applied(), halt);
    assert_eq!(e.version(), DatabaseVersion(1));
    assert_eq!(e.fault(), Some(MigrationFault::StepFailed { version: DatabaseVersion(1) }));
}

#[test]
fn restart_resumes_at_the_failed_step() {
    let mut first = MigrationExecutor::new(DatabaseVersion(0), DatabaseVersion(3), steps_from(&[0, 1, 2]), 1);
    first.step_applied();
    first.step_failed(false);
    let persisted = first.version();
    assert_eq!(persisted, DatabaseVersion(1));

    let mut second = MigrationExecutor::new(persisted, DatabaseVersion(3), steps_from(&[0, 1, 2]), 1);
    assert_eq!(second.next_action(), apply(1));
    assert_eq!(second.step_applied(), apply(2));
    assert_eq!(second.step_applied(), MigrationAction::Finished);
    assert_eq!(second.version(), DatabaseVersion(3));
}

#[test]
fn a_missing_step_halts_without_skipping() {
    let mut e = MigrationExecutor::new(DatabaseVersion(0), DatabaseVersion(3), steps_from(&[0, 2]), 1);
    let halt = MigrationAction::Halt {
        fault: MigrationFault::MissingStep { version: DatabaseVersion(1) },
    };
    assert_eq!(e.step_applied(), halt);
    assert_eq!(e.step_applied(), halt);
    assert_eq!(e.step_failed(true), halt);
    assert_eq!(e.version(), DatabaseVersion(1));
    assert_eq!(e.fault(), None);
}

#[test]
fn transient_failures_are_retried_up_to_the_limit() {
    let mut e = MigrationExecutor::new(DatabaseVersion(0), DatabaseVersion(1), steps_from(&[0]), 3);
    assert_eq!(e.step_failed(true), apply(0));
    assert_eq!(e.step_failed(true), apply(0));
    assert_eq!(
        e.step_failed(true),
        MigrationAction::Halt { fault: MigrationFault::StepFailed { version: DatabaseVersion(0) } }
    );
    assert_eq!(e.version(), DatabaseVersion(0));
}

#[test]
fn a_success_after_a_retry_clears_the_count() {
    let mut e = MigrationExecutor::new(DatabaseVersion(0), DatabaseVersion(2), steps_from(&[0, 1]), 2);
    assert_eq!(e.step_failed(true), apply(0));
    assert_eq!(e.step_applied(), apply(1));
    assert_eq!(e.step_failed(true), apply(1));
    assert_eq!(e.step_applied(), MigrationAction::Finished);
}

#[test]
fn a_failure_that_is_not_transient_halts_at_once() {
    let mut e = MigrationExecutor::new(DatabaseVersion(4), DatabaseVersion(6), steps_from(&[4, 5]), 10);
    assert_eq!(
        e.step_failed(false),
        MigrationAction::Halt { fault: MigrationFault::StepFailed { version: DatabaseVersion(4) } }
    );
}

#[test]
fn a_registered_step_is_found() {
    let steps = steps_from(&[3, 1]);
    assert!(steps.contains(DatabaseVersion(1)));
    assert!(steps.contains(DatabaseVersion(3)));
    assert!(!steps.contains(DatabaseVersion(2)));
    assert!(!MigrationMap::new().contains(DatabaseVersion(0)));
}
