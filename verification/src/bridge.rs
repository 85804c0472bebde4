//! The crate's only trusted boundary: thin wrappers around the `cron` and
//! `uuid` crates. Each wrapper's contract states no more than the called
//! crate's source shows; everything built on top of them is verified.

use vstd::prelude::*;
use std::str::FromStr;

verus! {

/// Whether the `cron` crate's parser accepts an expression.
pub uninterp spec fn cron_accepts(expr: Seq<char>) -> bool;

/// The instant the `cron` crate reports as the first match strictly after
/// `now` for an expression, if the expression parses and a match exists.
/// A pure function of the expression and the instant.
pub uninterp spec fn cron_next(expr: Seq<char>, now: u64) -> Option<u64>;

/// Relies on `cron::Schedule::from_str`: parsing an expression succeeds or
/// fails on the expression text alone.
#[verifier::external_body]
pub(crate) fn cron_is_valid(expr: &str) -> (r: bool)
    ensures
        r == cron_accepts(expr@),
{
    cron::Schedule::from_str(expr).is_ok()
}

/// Relies on `cron::Schedule::from_str` and `Schedule::after`: the iterator's
/// first element is the earliest matching instant strictly after the given
/// one (the search starts one second later), so any result exceeds `now`;
/// an unparseable expression yields nothing; and the evaluator's year field
/// is capped at 2100 (its parser refuses larger years), so any result lies
/// before 2101-01-01, which is second 4133980800.
///
/// The bound on `now` keeps the search's one-second step inside the instants
/// the `chrono` crate can represent: its latest instant is second
/// 8210266876799, and stepping past it aborts. A `now` beyond that ceiling
/// fails the timestamp conversion and would yield nothing, but the ceiling
/// itself must stay excluded.
#[verifier::external_body]
pub(crate) fn cron_next_after(expr: &str, now: u64) -> (r: Option<u64>)
    requires
        now < 8210266876799,
    ensures
        r == cron_next(expr@, now),
        !cron_accepts(expr@) ==> r is None,
        r matches Some(t) ==> now < t && t < 4133980800,
{
    let sched = match cron::Schedule::from_str(expr) {
        Ok(s) => s,
        Err(_) => return None,
    };
    let base = match chrono::DateTime::<chrono::Utc>::from_timestamp(now as i64, 0) {
        Some(d) => d,
        None => return None,
    };
    match sched.after(&base).next() {
        Some(t) => u64::try_from(t.timestamp()).ok(),
        None => None,
    }
}

/// Relies on `uuid::Uuid::new_v4` and its `Display` impl: a fresh random
/// version-4 id rendered in the hyphenated form of 36 characters. Nothing
/// more is assumed of the value; in particular not uniqueness. The call
/// aborts if the operating system's randomness source fails — an
/// environmental condition no input selects.
#[verifier::external_body]
pub(crate) fn fresh_uuid() -> (r: String)
    ensures
        r@.len() == 36,
{
    uuid::Uuid::new_v4().to_string()
}

} // verus!
