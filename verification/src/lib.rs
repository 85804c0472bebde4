//! A verified core for a shell-command scheduler: groups of commands, rules
//! that fire them once or on daily, weekly, monthly, fixed-interval or
//! cron-expression recurrences, and the state that survives restarts.
//!
//! The polling loop's I/O — spawning processes, sleeping, reading and
//! writing the data file — belongs to the embedding program. Everything the
//! loop decides is here, verified: which schedules are due, what instant
//! each fires next, how a schedule advances or deactivates after a
//! dispatch, what a batch's outcomes mean for the user-facing report, and
//! how the persisted document is encoded so that it reads back exactly.
//! The only trusted code is the thin bridge to the `cron` and `uuid`
//! crates.

pub mod api;
pub mod bridge;
pub mod calendar;
pub mod errors;
pub mod execution;
pub mod model;
pub mod recurrence;
pub mod registry;
pub mod scheduler;
pub mod storage;
