//! The recurrence calculator: from a recurrence definition and the current
//! instant to the next fire instant, or to "exhausted".

use vstd::prelude::*;
use crate::bridge::{cron_accepts, cron_next, cron_next_after, cron_is_valid};
use crate::calendar::{
    SECS_PER_DAY, SECS_PER_MINUTE, MAX_YEAR, spec_days_in_month, spec_days_before_year,
    spec_valid_date, spec_day_number, spec_weekday_of_day, spec_day_of, spec_tod_of, spec_days_in_year,
    spec_ts_in_range, spec_now_in_range, days_in_month, day_number, civil_from_day,
    weekday_of_day, lemma_day_number_injective, lemma_days_before_year_mono,
    lemma_days_before_year_bounds, lemma_day_number_in_year, lemma_months_fill_year,
    lemma_days_before_month_mono,
};
use crate::model::{Recurrence, RecurrenceView};

verus! {

/// The civil date a day number denotes: the unique valid (year, month, day)
/// triple with that day number.
pub open spec fn spec_civil(day: int) -> (int, int, int) {
    choose|t: (int, int, int)|
        spec_valid_date(t.0, t.1, t.2) && spec_day_number(t.0, t.1, t.2) == day
}

/// A valid date with the given day number pins `spec_civil` down.
pub proof fn lemma_civil_is(day: int, y: int, m: int, d: int)
    requires
        spec_valid_date(y, m, d),
        spec_day_number(y, m, d) == day,
    ensures
        spec_civil(day) == (y, m, d),
{
    assert(spec_valid_date(y, m, d) && spec_day_number(y, m, d) == day);
    let t = spec_civil(day);
    assert(spec_valid_date(t.0, t.1, t.2) && spec_day_number(t.0, t.1, t.2) == day) by {
        assert(exists|t: (int, int, int)|
            spec_valid_date(t.0, t.1, t.2) && spec_day_number(t.0, t.1, t.2) == day) by {
            let w = (y, m, d);
            assert(spec_valid_date(w.0, w.1, w.2) && spec_day_number(w.0, w.1, w.2) == day);
        }
    }
    lemma_day_number_injective(t.0, t.1, t.2, y, m, d);
}

/// Whether an execution-count cap has been reached.
pub open spec fn spec_cap_reached(count: int, max: Option<int>) -> bool {
    match max {
        Option::Some(mx) => count >= mx,
        Option::None => false,
    }
}

/// The next daily fire: the anchor's time-of-day today, or tomorrow if that
/// has already passed.
pub open spec fn spec_next_daily(anchor: int, now: int) -> int {
    let c = spec_day_of(now) * (SECS_PER_DAY as int) + spec_tod_of(anchor);
    if c > now {
        c
    } else {
        c + SECS_PER_DAY
    }
}

/// Days forward from `now`'s weekday to the anchor's weekday (0 to 6).
pub open spec fn spec_weekday_offset(anchor: int, now: int) -> int {
    let aw = spec_weekday_of_day(spec_day_of(anchor));
    let nw = spec_weekday_of_day(spec_day_of(now));
    if aw >= nw {
        aw - nw
    } else {
        aw + 7 - nw
    }
}

/// The next weekly fire: the anchor's weekday and time-of-day, rolled a week
/// ahead when the instant this week is not strictly in the future.
pub open spec fn spec_next_weekly(anchor: int, now: int) -> int {
    let c = (spec_day_of(now) + spec_weekday_offset(anchor, now)) * (SECS_PER_DAY as int)
        + spec_tod_of(anchor);
    if c > now {
        c
    } else {
        c + 7 * (SECS_PER_DAY as int)
    }
}

/// The anchor's day-of-month clamped into month (y, m).
pub open spec fn spec_clamped_day(y: int, m: int, wanted: int) -> int {
    if wanted <= spec_days_in_month(y, m) {
        wanted
    } else {
        spec_days_in_month(y, m)
    }
}

/// The next monthly fire: the anchor's day-of-month (clamped to the month's
/// last day) and time-of-day in `now`'s month if still in the future,
/// otherwise in the following month.
pub open spec fn spec_next_monthly(anchor: int, now: int) -> int {
    let a = spec_civil(spec_day_of(anchor));
    let n = spec_civil(spec_day_of(now));
    let tod = spec_tod_of(anchor);
    let c1 = spec_day_number(n.0, n.1, spec_clamped_day(n.0, n.1, a.2)) * (SECS_PER_DAY as int)
        + tod;
    if c1 > now {
        c1
    } else {
        let y2 = if n.1 == 12 { n.0 + 1 } else { n.0 };
        let m2 = if n.1 == 12 { 1 } else { n.1 + 1 };
        spec_day_number(y2, m2, spec_clamped_day(y2, m2, a.2)) * (SECS_PER_DAY as int) + tod
    }
}

/// Structural soundness of a recurrence: a custom interval is at least one
/// minute. (Cron validity is a separate, creation-time check.)
pub open spec fn spec_rec_wf(rec: RecurrenceView) -> bool {
    match rec {
        RecurrenceView::Custom { interval_minutes } => 1 <= interval_minutes <= u32::MAX,
        _ => true,
    }
}

/// A recurrence acceptable at creation or update time: structurally sound,
/// and a cron expression the evaluator accepts.
pub open spec fn spec_rec_valid(rec: RecurrenceView) -> bool {
    &&& spec_rec_wf(rec)
    &&& match rec {
        RecurrenceView::Cron { expression } => cron_accepts(expression),
        _ => true,
    }
}

/// The authoritative next-fire value: `None` when the schedule is exhausted
/// (cap reached, a once-only schedule spent or past its anchor, or a cron
/// expression that does not parse or has no further match).
pub open spec fn spec_next_fire(
    rec: RecurrenceView,
    anchor: int,
    now: int,
    count: int,
    max: Option<int>,
) -> Option<int> {
    if spec_cap_reached(count, max) {
        Option::None
    } else {
        match rec {
            RecurrenceView::Once => if count == 0 && anchor > now {
                Option::Some(anchor)
            } else {
                Option::None
            },
            RecurrenceView::Daily => Option::Some(spec_next_daily(anchor, now)),
            RecurrenceView::Weekly => Option::Some(spec_next_weekly(anchor, now)),
            RecurrenceView::Monthly => Option::Some(spec_next_monthly(anchor, now)),
            RecurrenceView::Custom { interval_minutes } => Option::Some(
                now + interval_minutes * (SECS_PER_MINUTE as int),
            ),
            RecurrenceView::Cron { expression } => match cron_next(expression, now as u64) {
                Option::Some(t) => Option::Some(t as int),
                Option::None => Option::None,
            },
        }
    }
}

/// An `Option<u64>` as an `Option<int>`.
pub open spec fn opt_u64_view(o: Option<u64>) -> Option<int> {
    match o {
        Option::Some(v) => Option::Some(v as int),
        Option::None => Option::None,
    }
}

/// An `Option<u32>` as an `Option<int>`.
pub open spec fn opt_u32_view(o: Option<u32>) -> Option<int> {
    match o {
        Option::Some(v) => Option::Some(v as int),
        Option::None => Option::None,
    }
}

/// Whether the evaluator accepts a cron expression; pure validation, no state.
pub fn validate_cron_expression(expression: &str) -> (r: bool)
    ensures
        r == cron_accepts(expression@),
{
    cron_is_valid(expression)
}

/// The next daily fire, executably.
fn next_daily(anchor: u64, now: u64) -> (r: u64)
    requires
        spec_ts_in_range(anchor as int),
        spec_now_in_range(now as int),
    ensures
        r == spec_next_daily(anchor as int, now as int),
        now < r,
{
    proof {
        lemma_days_before_year_bounds(MAX_YEAR as int);
    }
    let day = now / SECS_PER_DAY;
    let tod = anchor % SECS_PER_DAY;
    let c = day * SECS_PER_DAY + tod;
    if c > now {
        c
    } else {
        c + SECS_PER_DAY
    }
}

/// The next weekly fire, executably.
fn next_weekly(anchor: u64, now: u64) -> (r: u64)
    requires
        spec_ts_in_range(anchor as int),
        spec_now_in_range(now as int),
    ensures
        r == spec_next_weekly(anchor as int, now as int),
        now < r,
{
    proof {
        lemma_days_before_year_bounds(MAX_YEAR as int);
        lemma_days_before_year_bounds(MAX_YEAR + 1);
        lemma_days_before_year_mono(MAX_YEAR as int, MAX_YEAR + 1);
    }
    let aday = anchor / SECS_PER_DAY;
    let nday = now / SECS_PER_DAY;
    let tod = anchor % SECS_PER_DAY;
    let aw = weekday_of_day(aday);
    let nw = weekday_of_day(nday);
    let off: u64 = if aw >= nw {
        aw - nw
    } else {
        aw + 7 - nw
    };
    let c = (nday + off) * SECS_PER_DAY + tod;
    if c > now {
        c
    } else {
        c + 7 * SECS_PER_DAY
    }
}

/// The next monthly fire, executably.
fn next_monthly(anchor: u64, now: u64) -> (r: u64)
    requires
        spec_ts_in_range(anchor as int),
        spec_now_in_range(now as int),
    ensures
        r == spec_next_monthly(anchor as int, now as int),
        now < r,
{
    proof {
        lemma_days_before_year_bounds(MAX_YEAR as int);
        lemma_days_before_year_bounds(MAX_YEAR + 1);
        lemma_days_before_year_mono(MAX_YEAR as int, MAX_YEAR + 1);
    }
    let aday = anchor / SECS_PER_DAY;
    let nday = now / SECS_PER_DAY;
    let tod = anchor % SECS_PER_DAY;
    let (ay, am, ad) = civil_from_day(aday);
    let (ny, nm, nd) = civil_from_day(nday);
    proof {
        lemma_civil_is(aday as int, ay as int, am as int, ad as int);
        lemma_civil_is(nday as int, ny as int, nm as int, nd as int);
    }
    let dim1 = days_in_month(ny, nm);
    let d1: u64 = if ad <= dim1 {
        ad
    } else {
        dim1
    };
    let c1 = day_number(ny, nm, d1) * SECS_PER_DAY + tod;
    if c1 > now {
        c1
    } else {
        let y2: u64 = if nm == 12 {
            ny + 1
        } else {
            ny
        };
        let m2: u64 = if nm == 12 {
            1
        } else {
            nm + 1
        };
        proof {
            if nm == 12 {
                lemma_day_number_in_year(ny as int, nm as int, nd as int);
                if ny >= MAX_YEAR {
                    lemma_days_before_year_mono(MAX_YEAR as int, ny as int);
                    assert(false);
                }
            }
        }
        let dim2 = days_in_month(y2, m2);
        let d2: u64 = if ad <= dim2 {
            ad
        } else {
            dim2
        };
        let c2 = day_number(y2, m2, d2) * SECS_PER_DAY + tod;
        proof {
            lemma_next_month_starts_after(ny as int, nm as int, nd as int, y2 as int,
                m2 as int, d2 as int);
        }
        c2
    }
}

/// A monthly recurrence whose anchor day-of-month exceeds the length of the
/// month `now` lies in fires on that month's last day — not in the following
/// month — whenever that clamped instant is still strictly ahead of `now`.
///
/// The anchor's and `now`'s civil dates are passed in as witnesses.
pub proof fn lemma_monthly_clamps_to_last_day(
    anchor: int,
    now: int,
    ay: int,
    am: int,
    ad: int,
    ny: int,
    nm: int,
    nd: int,
)
    requires
        0 <= anchor,
        0 <= now,
        spec_valid_date(ay, am, ad),
        spec_day_number(ay, am, ad) == spec_day_of(anchor),
        spec_valid_date(ny, nm, nd),
        spec_day_number(ny, nm, nd) == spec_day_of(now),
        ad > spec_days_in_month(ny, nm),
        spec_day_number(ny, nm, spec_days_in_month(ny, nm)) * (SECS_PER_DAY as int)
            + spec_tod_of(anchor) > now,
    ensures
        spec_next_monthly(anchor, now) == spec_day_number(ny, nm, spec_days_in_month(ny, nm))
            * (SECS_PER_DAY as int) + spec_tod_of(anchor),
        spec_civil(spec_day_of(spec_next_monthly(anchor, now)))
            == (ny, nm, spec_days_in_month(ny, nm)),
{
    lemma_civil_is(spec_day_of(anchor), ay, am, ad);
    lemma_civil_is(spec_day_of(now), ny, nm, nd);
    let dim = spec_days_in_month(ny, nm);
    let c1 = spec_day_number(ny, nm, dim) * (SECS_PER_DAY as int) + spec_tod_of(anchor);
    assert(spec_next_monthly(anchor, now) == c1);
    assert(0 <= spec_tod_of(anchor) < SECS_PER_DAY);
    assert(spec_day_of(c1) == spec_day_number(ny, nm, dim)) by {
        vstd::arithmetic::div_mod::lemma_div_multiples_vanish_fancy(
            spec_day_number(ny, nm, dim),
            spec_tod_of(anchor),
            SECS_PER_DAY as int,
        );
    }
    lemma_civil_is(spec_day_of(c1), ny, nm, dim);
}

/// The first day of the following month comes after every day of this month.
proof fn lemma_next_month_starts_after(y: int, m: int, d: int, y2: int, m2: int, d2: int)
    requires
        spec_valid_date(y, m, d),
        spec_valid_date(y2, m2, d2),
        if m == 12 {
            y2 == y + 1 && m2 == 1
        } else {
            y2 == y && m2 == m + 1
        },
    ensures
        spec_day_number(y, m, d) < spec_day_number(y2, m2, d2),
{
    if m == 12 {
        lemma_months_fill_year(y);
        lemma_days_before_month_mono(y, m, 13);
        lemma_days_before_year_mono(y, y2);
        assert(spec_days_before_year(y2) == spec_days_before_year(y) + spec_days_in_year(y));
    } else {
        lemma_days_before_month_mono(y, m, m2);
    }
}

/// The next fire instant of a recurrence, or `None` when exhausted.
///
/// Every returned instant is strictly in the future, and a once-only
/// recurrence that has already fired is exhausted.
pub fn next_fire(
    rec: &Recurrence,
    anchor: u64,
    now: u64,
    execution_count: u32,
    max_executions: Option<u32>,
) -> (r: Option<u64>)
    requires
        spec_ts_in_range(anchor as int),
        spec_now_in_range(now as int),
        spec_rec_wf(rec@),
    ensures
        opt_u64_view(r) == spec_next_fire(
            rec@,
            anchor as int,
            now as int,
            execution_count as int,
            opt_u32_view(max_executions),
        ),
        r matches Some(t) ==> now < t,
        rec@ is Once && execution_count >= 1 ==> r is None,
{
    if let Option::Some(mx) = max_executions {
        if execution_count >= mx {
            return Option::None;
        }
    }
    match rec {
        Recurrence::Once => {
            if execution_count == 0 && anchor > now {
                Option::Some(anchor)
            } else {
                Option::None
            }
        },
        Recurrence::Daily => Option::Some(next_daily(anchor, now)),
        Recurrence::Weekly => Option::Some(next_weekly(anchor, now)),
        Recurrence::Monthly => Option::Some(next_monthly(anchor, now)),
        Recurrence::Custom { interval_minutes } => {
            proof {
                lemma_days_before_year_bounds(MAX_YEAR as int);
            }
            Option::Some(now + (*interval_minutes as u64) * SECS_PER_MINUTE)
        },
        Recurrence::Cron { expression } => {
            proof {
                lemma_days_before_year_bounds(MAX_YEAR as int);
            }
            cron_next_after(expression.as_str(), now)
        },
    }
}

} // verus!
