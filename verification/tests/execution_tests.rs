use ordito::errors::ExecutionError;
use ordito::execution::{
    classify_exit, execution_plan, label_outcomes, CommandOutcome, NotificationManager,
    ReportKind,
};
use ordito::model::{CommandGroup, CommandItem};

fn ok(text: &str) -> CommandOutcome {
    CommandOutcome::Success { output: String::from(text) }
}

fn failed(stderr: &str) -> CommandOutcome {
    CommandOutcome::Failure {
        error: ExecutionError::NonZeroExit { stderr: String::from(stderr) },
    }
}

#[test]
fn classify_exit_splits_on_status() {
    assert_eq!(
        classify_exit(true, String::from("out"), String::from("err")),
        Ok(String::from("out"))
    );
    assert_eq!(
        classify_exit(false, String::from("out"), String::from("err")),
        Err(ExecutionError::NonZeroExit { stderr: String::from("err") })
    );
}

#[test]
fn group_of_three_with_middle_failure_reports_three_pairs_one_error() {
    let commands = vec![
        CommandItem {
            id: String::from("c1"),
            label: String::from("first"),
            cmd: String::from("echo 1"),
            is_detached: false,
        },
        CommandItem {
            id: String::from("c2"),
            label: String::from("second"),
            cmd: String::from("false"),
            is_detached: false,
        },
        CommandItem {
            id: String::from("c3"),
            label: String::from("third"),
            cmd: String::from("echo 3"),
            is_detached: false,
        },
    ];
    let group = CommandGroup {
        id: String::from("g"),
        title: String::from("G"),
        commands,
    };
    // The plan runs every command, in order, whatever fails along the way.
    let plan = execution_plan(&group);
    assert_eq!(plan.len(), 3);
    let outcomes = vec![ok("1\n"), failed("exit status 1"), ok("3\n")];
    let pairs = label_outcomes(&plan, &outcomes);
    assert_eq!(pairs.len(), 3);
    assert_eq!(pairs[0].0, "first");
    assert_eq!(pairs[1].0, "second");
    assert_eq!(pairs[2].0, "third");
    assert_eq!(pairs[1].1, failed("exit status 1"));
    assert_eq!(pairs[2].1, ok("3\n"));
    let report = NotificationManager::assess_group(&outcomes);
    assert_eq!(report.success_count, 2);
    assert_eq!(report.error_count, 1);
    assert_eq!(report.kind, ReportKind::PartialSuccess);
}

#[test]
fn report_kinds_cover_all_cases() {
    let all_ok = vec![ok("a"), ok("b")];
    assert_eq!(NotificationManager::assess_group(&all_ok).kind, ReportKind::AllSucceeded);
    let all_bad = vec![failed("x"), failed("y")];
    let r = NotificationManager::assess_group(&all_bad);
    assert_eq!(r.kind, ReportKind::AllFailed);
    assert_eq!((r.success_count, r.error_count), (0, 2));
    let empty: Vec<CommandOutcome> = vec![];
    assert_eq!(NotificationManager::assess_group(&empty).kind, ReportKind::AllSucceeded);
}

#[test]
fn every_error_variant_is_representable() {
    // A run past the ceiling.
    let timeout = CommandOutcome::Failure { error: ExecutionError::Timeout };
    // A shell that could not be spawned.
    let spawn = CommandOutcome::Failure {
        error: ExecutionError::SpawnFailed { message: String::from("no such file") },
    };
    let report = NotificationManager::assess_group(&vec![timeout, spawn]);
    assert_eq!(report.kind, ReportKind::AllFailed);
}
