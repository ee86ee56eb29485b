use flaky_runner::{classify, Action, Driver, DriverState, RunOutcome, ShowOutput, StatusSummary};
use flaky_runner::{decimal_string, signed_decimal_string};

/// Drives the loop over the given exit statuses, as the program does, and
/// returns the final report, or `None` if the loop did not end in a report.
fn drive(runs: usize, statuses: &[Option<i32>]) -> (Option<Vec<String>>, usize) {
    let mut driver = Driver::new(runs);
    let mut action = driver.start();
    let mut spawned = 0;
    while action == Action::Spawn {
        let status = statuses[spawned];
        spawned += 1;
        action = driver.record(status).1;
    }
    if action == Action::Report {
        (Some(driver.summary().report_lines()), spawned)
    } else {
        (None, spawned)
    }
}

#[test]
fn three_successes() {
    let (report, spawned) = drive(3, &[Some(0), Some(0), Some(0)]);
    assert_eq!(spawned, 3);
    assert_eq!(report.unwrap(), vec!["successes: 3".to_string(), "failures: 0".to_string()]);
}

#[test]
fn three_failures_two_successes() {
    let (report, spawned) = drive(5, &[Some(1), Some(0), Some(1), Some(0), Some(1)]);
    assert_eq!(spawned, 5);
    assert_eq!(
        report.unwrap(),
        vec![
            "successes: 2".to_string(),
            "failures: 3".to_string(),
            "(exit code 1): 3".to_string(),
        ]
    );
}

#[test]
fn one_killed_run() {
    let (report, spawned) = drive(1, &[None]);
    assert_eq!(spawned, 1);
    assert_eq!(
        report.unwrap(),
        vec!["successes: 0".to_string(), "failures: 1".to_string(), "(killed): 1".to_string()]
    );
}

#[test]
fn zero_runs_spawn_nothing() {
    let mut driver = Driver::new(0);
    assert_eq!(driver.state(), DriverState::NotStarted);
    assert_eq!(driver.start(), Action::Report);
    assert_eq!(driver.state(), DriverState::Done);
    let s = driver.summary();
    assert_eq!(s.successes(), 0);
    assert_eq!(s.killed(), 0);
    assert_eq!(s.total_failures(), 0);
    assert_eq!(s.report_lines(), vec!["successes: 0".to_string(), "failures: 0".to_string()]);
}

#[test]
fn spawn_failure_aborts_without_report() {
    let mut driver = Driver::new(4);
    assert_eq!(driver.start(), Action::Spawn);
    assert_eq!(driver.record(Some(0)), (RunOutcome::Success, Action::Spawn));
    assert_eq!(driver.spawn_failed(), Action::Abort);
    assert_eq!(driver.state(), DriverState::Aborted);
    assert_eq!(driver.summary().successes(), 1);
}

#[test]
fn driver_counts_runs() {
    let mut driver = Driver::new(2);
    assert_eq!(driver.runs(), 2);
    driver.start();
    assert_eq!(driver.state(), DriverState::Running(0));
    assert_eq!(driver.record(Some(3)), (RunOutcome::Failure(3), Action::Spawn));
    assert_eq!(driver.state(), DriverState::Running(1));
    assert_eq!(driver.record(None), (RunOutcome::Killed, Action::Report));
    assert_eq!(driver.state(), DriverState::Done);
}

#[test]
fn counts_add_up_to_runs() {
    let statuses = [Some(0), Some(2), None, Some(2), Some(-1), Some(0), None, Some(7)];
    let mut driver = Driver::new(statuses.len());
    let mut action = driver.start();
    let mut i = 0;
    while action == Action::Spawn {
        action = driver.record(statuses[i]).1;
        i += 1;
    }
    let s = driver.summary();
    let coded = s.failure_count(2) + s.failure_count(-1) + s.failure_count(7);
    assert_eq!(s.successes() + s.killed() + coded, statuses.len());
    assert_eq!(s.total_failures(), s.killed() + coded);
}

#[test]
fn success_touches_only_successes() {
    let mut s = StatusSummary::new();
    s.update(RunOutcome::Failure(4));
    s.update(RunOutcome::Killed);
    s.update(RunOutcome::Success);
    assert_eq!(s.successes(), 1);
    assert_eq!(s.killed(), 1);
    assert_eq!(s.failure_count(4), 1);
    assert_eq!(s.total_failures(), 2);
}

#[test]
fn repeated_failure_code() {
    let mut s = StatusSummary::default();
    s.update(RunOutcome::Failure(9));
    for _ in 0..6 {
        s.update(RunOutcome::Failure(2));
    }
    assert_eq!(s.failure_count(2), 6);
    assert_eq!(s.failure_count(9), 1);
    assert_eq!(s.failure_count(3), 0);
    assert_eq!(s.successes(), 0);
    assert_eq!(s.killed(), 0);
}

#[test]
fn failures_line_ignores_order() {
    let outcomes = [
        RunOutcome::Killed,
        RunOutcome::Failure(1),
        RunOutcome::Success,
        RunOutcome::Failure(5),
        RunOutcome::Failure(1),
    ];
    let mut forward = StatusSummary::new();
    for o in outcomes.iter() {
        forward.update(*o);
    }
    let mut backward = StatusSummary::new();
    for o in outcomes.iter().rev() {
        backward.update(*o);
    }
    assert_eq!(forward.total_failures(), 4);
    assert_eq!(backward.total_failures(), 4);
    assert_eq!(forward.report_lines(), backward.report_lines());
    assert_eq!(forward.report_lines()[1], "failures: 4");
}

#[test]
fn exit_codes_reported_in_ascending_order() {
    let mut s = StatusSummary::new();
    s.update(RunOutcome::Failure(127));
    s.update(RunOutcome::Failure(-3));
    s.update(RunOutcome::Killed);
    s.update(RunOutcome::Failure(2));
    s.update(RunOutcome::Failure(127));
    assert_eq!(
        s.report_lines(),
        vec![
            "successes: 0".to_string(),
            "failures: 5".to_string(),
            "(killed): 1".to_string(),
            "(exit code -3): 1".to_string(),
            "(exit code 2): 1".to_string(),
            "(exit code 127): 2".to_string(),
        ]
    );
}

#[test]
fn progress_line_text() {
    let mut s = StatusSummary::new();
    assert_eq!(s.progress_line(), "(0 successes, 0 failures)");
    s.update(RunOutcome::Success);
    s.update(RunOutcome::Killed);
    s.update(RunOutcome::Failure(12));
    s.update(RunOutcome::Success);
    assert_eq!(s.progress_line(), "(2 successes, 2 failures)");
}

#[test]
fn classify_exit_statuses() {
    assert_eq!(classify(Some(0)), RunOutcome::Success);
    assert_eq!(classify(Some(1)), RunOutcome::Failure(1));
    assert_eq!(classify(Some(-2)), RunOutcome::Failure(-2));
    assert_eq!(classify(None), RunOutcome::Killed);
}

#[test]
fn outcome_tags() {
    assert_eq!(RunOutcome::Success.tag(), "ok");
    assert_eq!(RunOutcome::Failure(42).tag(), "failed: 42");
    assert_eq!(RunOutcome::Failure(-1).tag(), "failed: -1");
    assert_eq!(RunOutcome::Killed.tag(), "killed");
    assert!(RunOutcome::Success.is_success());
    assert!(!RunOutcome::Killed.is_success());
}

#[test]
fn show_output_policies() {
    let ok = RunOutcome::Success;
    let bad = RunOutcome::Failure(1);
    let killed = RunOutcome::Killed;
    assert!(ShowOutput::OnSuccess.should_show(&ok));
    assert!(!ShowOutput::OnSuccess.should_show(&bad));
    assert!(!ShowOutput::OnSuccess.should_show(&killed));
    assert!(!ShowOutput::OnFailure.should_show(&ok));
    assert!(ShowOutput::OnFailure.should_show(&bad));
    assert!(ShowOutput::OnFailure.should_show(&killed));
    assert!(ShowOutput::Always.should_show(&ok));
    assert!(ShowOutput::Always.should_show(&killed));
    assert!(!ShowOutput::Never.should_show(&ok));
    assert!(!ShowOutput::Never.should_show(&bad));
}

#[test]
fn decimal_forms() {
    assert_eq!(decimal_string(0), "0");
    assert_eq!(decimal_string(7), "7");
    assert_eq!(decimal_string(10), "10");
    assert_eq!(decimal_string(1203), "1203");
    assert_eq!(decimal_string(usize::MAX), usize::MAX.to_string());
    assert_eq!(signed_decimal_string(0), "0");
    assert_eq!(signed_decimal_string(-45), "-45");
    assert_eq!(signed_decimal_string(i32::MIN), "-2147483648");
    assert_eq!(signed_decimal_string(i32::MAX), "2147483647");
}
