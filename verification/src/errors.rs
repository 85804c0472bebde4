//! The error taxonomy surfaced by the library.

use vstd::prelude::*;

verus! {

/// Errors surfaced to callers that request a mutation or a validation.
#[derive(Debug, Clone, Copy, PartialEq, Eq, Structural)]
pub enum ApiError {
    /// A group, command or schedule id did not resolve.
    NotFound,
    /// A malformed recurrence: bad cron expression, zero interval, or an
    /// anchor outside the modeled years.
    InvalidInput,
    /// The scheduler was asked to start while already running.
    AlreadyRunning,
    /// The scheduler was asked to stop while not running.
    NotRunning,
}

/// How a single foreground execution can fail.
#[derive(Debug, PartialEq, Eq)]
pub enum ExecutionError {
    /// The command ran past the ceiling and was abandoned.
    Timeout,
    /// The command exited with a non-zero status; the payload is its
    /// captured error output.
    NonZeroExit { stderr: String },
    /// The platform shell could not be spawned; the payload describes the
    /// operating-system error.
    SpawnFailed { message: String },
}

impl Clone for ExecutionError {
    fn clone(&self) -> (r: Self)
        ensures
            r == *self,
    {
        match self {
            ExecutionError::Timeout => ExecutionError::Timeout,
            ExecutionError::NonZeroExit { stderr } => ExecutionError::NonZeroExit {
                stderr: stderr.clone(),
            },
            ExecutionError::SpawnFailed { message } => ExecutionError::SpawnFailed {
                message: message.clone(),
            },
        }
    }
}

} // verus!
