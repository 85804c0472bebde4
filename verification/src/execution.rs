//! Execution outcomes and the decisions built on them.
//!
//! Spawning a shell and waiting on it is I/O and lives with the embedding
//! program; this module owns everything decidable about an execution: how an
//! exit turns into an outcome, how a group's outcomes pair with its command
//! labels, and what a batch's outcomes mean for the user-facing report.

use vstd::prelude::*;
use crate::errors::ExecutionError;
use crate::model::{CommandGroup, CommandItem};

verus! {

/// What one command's dispatch came to.
#[derive(Debug, PartialEq, Eq)]
pub enum CommandOutcome {
    /// A foreground run that exited cleanly; the payload is its captured
    /// output. A detached run that spawned; the payload is empty.
    Success { output: String },
    /// A failed run, with the reason.
    Failure { error: ExecutionError },
}

impl Clone for CommandOutcome {
    fn clone(&self) -> (r: Self)
        ensures
            r == *self,
    {
        match self {
            CommandOutcome::Success { output } => CommandOutcome::Success {
                output: output.clone(),
            },
            CommandOutcome::Failure { error } => CommandOutcome::Failure {
                error: error.clone(),
            },
        }
    }
}

/// How a finished foreground child is read: a clean exit yields its output,
/// any other exit yields `NonZeroExit` carrying the captured error text.
pub fn classify_exit(clean_exit: bool, stdout: String, stderr: String) -> (r: Result<
    String,
    ExecutionError,
>)
    ensures
        clean_exit ==> r == Result::<String, ExecutionError>::Ok(stdout),
        !clean_exit ==> r == Result::<String, ExecutionError>::Err(
            ExecutionError::NonZeroExit { stderr },
        ),
{
    if clean_exit {
        Result::Ok(stdout)
    } else {
        Result::Err(ExecutionError::NonZeroExit { stderr })
    }
}

/// How many of the outcomes succeeded.
pub open spec fn spec_success_count(outcomes: Seq<CommandOutcome>) -> int
    decreases outcomes.len(),
{
    if outcomes.len() == 0 {
        0
    } else {
        spec_success_count(outcomes.drop_last()) + if outcomes.last() is Success {
            1int
        } else {
            0int
        }
    }
}

/// What a finished batch means for the user: everything ran, something
/// failed alongside something succeeding, or nothing succeeded.
#[derive(Debug, Clone, Copy, PartialEq, Eq, Structural)]
pub enum ReportKind {
    AllSucceeded,
    PartialSuccess,
    AllFailed,
}

/// The report owed for a finished group dispatch: the counts, and the kind
/// they imply.
#[derive(Debug, Clone, Copy, PartialEq, Eq, Structural)]
pub struct GroupReport {
    pub success_count: usize,
    pub error_count: usize,
    pub kind: ReportKind,
}

/// The reporting decisions: the scheduler decides *what* to surface, the
/// embedding program shows it.
pub struct NotificationManager;

impl NotificationManager {
    /// The kind of report the counts call for. An empty batch counts as all
    /// succeeded: there was nothing to fail.
    pub fn classify_counts(success_count: usize, error_count: usize) -> (r: ReportKind)
        ensures
            error_count == 0 ==> r == ReportKind::AllSucceeded,
            error_count > 0 && success_count > 0 ==> r == ReportKind::PartialSuccess,
            error_count > 0 && success_count == 0 ==> r == ReportKind::AllFailed,
    {
        if error_count == 0 {
            ReportKind::AllSucceeded
        } else if success_count > 0 {
            ReportKind::PartialSuccess
        } else {
            ReportKind::AllFailed
        }
    }

    /// The report for a batch of outcomes: every outcome is counted, each
    /// exactly once, and the kind follows the counts.
    pub fn assess_group(outcomes: &Vec<CommandOutcome>) -> (r: GroupReport)
        ensures
            r.success_count == spec_success_count(outcomes@),
            r.success_count + r.error_count == outcomes@.len(),
            r.error_count == 0 ==> r.kind == ReportKind::AllSucceeded,
            r.error_count > 0 && r.success_count > 0 ==> r.kind == ReportKind::PartialSuccess,
            r.error_count > 0 && r.success_count == 0 ==> r.kind == ReportKind::AllFailed,
    {
        let n = outcomes.len();
        let mut succ: usize = 0;
        let mut i: usize = 0;
        while i < n
            invariant
                n == outcomes@.len(),
                0 <= i <= n,
                succ == spec_success_count(outcomes@.take(i as int)),
                succ <= i,
            decreases n - i,
        {
            if matches!(&outcomes[i], CommandOutcome::Success { .. }) {
                succ = succ + 1;
            }
            proof {
                assert(outcomes@.take(i + 1).drop_last() =~= outcomes@.take(i as int));
                assert(outcomes@.take(i + 1).last() == outcomes@[i as int]);
            }
            i = i + 1;
        }
        proof {
            assert(outcomes@.take(n as int) =~= outcomes@);
        }
        let err = n - succ;
        let kind = Self::classify_counts(succ, err);
        GroupReport { success_count: succ, error_count: err, kind }
    }
}

/// Pair each command's label with its outcome, in execution order. One pair
/// per command of the group, whatever each outcome was: a failure in the
/// middle drops nothing that ran after it.
pub fn label_outcomes(commands: &Vec<CommandItem>, outcomes: &Vec<CommandOutcome>) -> (r: Vec<
    (String, CommandOutcome),
>)
    requires
        commands@.len() == outcomes@.len(),
    ensures
        r@.len() == commands@.len(),
        forall|i: int|
            0 <= i < r@.len() ==> #[trigger] r@[i].0@ == commands@[i]@.label && r@[i].1
                == outcomes@[i],
{
    let n = commands.len();
    let mut out: Vec<(String, CommandOutcome)> = Vec::new();
    let mut i: usize = 0;
    while i < n
        invariant
            n == commands@.len(),
            n == outcomes@.len(),
            0 <= i <= n,
            out@.len() == i,
            forall|j: int|
                0 <= j < i ==> #[trigger] out@[j].0@ == commands@[j]@.label && out@[j].1
                    == outcomes@[j],
        decreases n - i,
    {
        out.push((commands[i].label.clone(), outcomes[i].clone()));
        i = i + 1;
    }
    out
}

/// The commands a group dispatch runs: every command of the group, in the
/// group's order, regardless of how any of them will fare.
pub fn execution_plan(group: &CommandGroup) -> (r: Vec<CommandItem>)
    ensures
        r@.len() == group@.commands.len(),
        forall|i: int| 0 <= i < r@.len() ==> #[trigger] r@[i]@ == group@.commands[i],
{
    let n = group.commands.len();
    let mut out: Vec<CommandItem> = Vec::new();
    let mut i: usize = 0;
    while i < n
        invariant
            n == group@.commands.len(),
            0 <= i <= n,
            out@.len() == i,
            forall|j: int| 0 <= j < i ==> #[trigger] out@[j]@ == group@.commands[j],
        decreases n - i,
    {
        out.push(group.commands[i].clone());
        i = i + 1;
    }
    out
}

} // verus!
