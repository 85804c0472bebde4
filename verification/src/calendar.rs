//! Civil (proleptic Gregorian) calendar arithmetic on plain integers.
//!
//! A point in time is a count of whole seconds since 1970-01-01 00:00:00 UTC.
//! A civil date is a (year, month, day) triple; the module relates the two by
//! counting the days that precede a date, and proves the two directions inverse
//! of each other on the supported range of years.

use vstd::prelude::*;

verus! {

/// Seconds in one civil day.
pub const SECS_PER_DAY: u64 = 86400;

/// Seconds in one minute.
pub const SECS_PER_MINUTE: u64 = 60;

/// First year the library models.
pub const MIN_YEAR: u64 = 1970;

/// Last year the library models.
pub const MAX_YEAR: u64 = 9999;

/// Leap years get a 29th day in the second month.
pub open spec fn spec_is_leap(y: int) -> bool {
    (y % 4 == 0 && y % 100 != 0) || y % 400 == 0
}

/// Days in one year.
pub open spec fn spec_days_in_year(y: int) -> int {
    if spec_is_leap(y) {
        366
    } else {
        365
    }
}

/// Days in month `m` (1-based) of year `y`.
pub open spec fn spec_days_in_month(y: int, m: int) -> int {
    if m == 1 {
        31
    } else if m == 2 {
        if spec_is_leap(y) {
            29
        } else {
            28
        }
    } else if m == 3 {
        31
    } else if m == 4 {
        30
    } else if m == 5 {
        31
    } else if m == 6 {
        30
    } else if m == 7 {
        31
    } else if m == 8 {
        31
    } else if m == 9 {
        30
    } else if m == 10 {
        31
    } else if m == 11 {
        30
    } else {
        31
    }
}

/// Days in the years from 1970 (inclusive) up to `y` (exclusive).
pub open spec fn spec_days_before_year(y: int) -> int
    decreases y,
{
    if y <= MIN_YEAR {
        0
    } else {
        spec_days_before_year(y - 1) + spec_days_in_year(y - 1)
    }
}

/// Days in the months of year `y` before month `m` (1-based).
pub open spec fn spec_days_before_month(y: int, m: int) -> int
    decreases m,
{
    if m <= 1 {
        0
    } else {
        spec_days_before_month(y, m - 1) + spec_days_in_month(y, m - 1)
    }
}

/// A valid civil date within the supported range.
pub open spec fn spec_valid_date(y: int, m: int, d: int) -> bool {
    MIN_YEAR <= y <= MAX_YEAR && 1 <= m <= 12 && 1 <= d <= spec_days_in_month(y, m)
}

/// The day number (days since 1970-01-01) of a civil date.
pub open spec fn spec_day_number(y: int, m: int, d: int) -> int {
    spec_days_before_year(y) + spec_days_before_month(y, m) + (d - 1)
}

/// Whether a leap year divides evenly by 4, 100 and 400, executably.
pub fn is_leap(y: u64) -> (r: bool)
    ensures
        r == spec_is_leap(y as int),
{
    (y % 4 == 0 && y % 100 != 0) || y % 400 == 0
}

/// Days in one year, executably.
pub fn days_in_year(y: u64) -> (r: u64)
    ensures
        r == spec_days_in_year(y as int),
{
    if is_leap(y) {
        366
    } else {
        365
    }
}

/// Days in month `m` of year `y`, executably.
pub fn days_in_month(y: u64, m: u64) -> (r: u64)
    requires
        1 <= m <= 12,
    ensures
        r == spec_days_in_month(y as int, m as int),
{
    if m == 2 {
        if is_leap(y) {
            29
        } else {
            28
        }
    } else if m == 4 || m == 6 || m == 9 || m == 11 {
        30
    } else {
        31
    }
}

/// Each year adds at least 365 and at most 366 days.
pub proof fn lemma_days_before_year_bounds(y: int)
    requires
        MIN_YEAR <= y,
    ensures
        365 * (y - MIN_YEAR) <= spec_days_before_year(y) <= 366 * (y - MIN_YEAR),
    decreases y,
{
    if y > MIN_YEAR {
        lemma_days_before_year_bounds(y - 1);
    }
}

/// The day count before a year grows strictly with the year.
pub proof fn lemma_days_before_year_mono(y1: int, y2: int)
    requires
        MIN_YEAR <= y1 <= y2,
    ensures
        spec_days_before_year(y1) <= spec_days_before_year(y2),
        y1 < y2 ==> spec_days_before_year(y1) + spec_days_in_year(y1) <= spec_days_before_year(y2),
    decreases y2,
{
    if y1 < y2 {
        lemma_days_before_year_mono(y1, y2 - 1);
    }
}

/// The months of a year sum to the year's length.
pub proof fn lemma_months_fill_year(y: int)
    ensures
        spec_days_before_month(y, 13) == spec_days_in_year(y),
{
    reveal_with_fuel(spec_days_before_month, 13);
}

/// The day count before a month grows with the month.
pub proof fn lemma_days_before_month_mono(y: int, m1: int, m2: int)
    requires
        1 <= m1 <= m2,
    ensures
        spec_days_before_month(y, m1) <= spec_days_before_month(y, m2),
        m1 < m2 ==> spec_days_before_month(y, m1) + spec_days_in_month(y, m1)
            <= spec_days_before_month(y, m2),
    decreases m2,
{
    if m1 < m2 {
        lemma_days_before_month_mono(y, m1, m2 - 1);
    }
}

/// Valid dates map to day numbers inside the year's span of days.
pub proof fn lemma_day_number_in_year(y: int, m: int, d: int)
    requires
        spec_valid_date(y, m, d),
    ensures
        spec_days_before_year(y) <= spec_day_number(y, m, d),
        spec_day_number(y, m, d) < spec_days_before_year(y) + spec_days_in_year(y),
{
    lemma_days_before_month_mono(y, 1, m);
    if m < 13 {
        lemma_days_before_month_mono(y, m + 1, 13);
    }
    lemma_months_fill_year(y);
}

/// Distinct valid dates get distinct day numbers; equal day numbers force equal dates.
pub proof fn lemma_day_number_injective(y1: int, m1: int, d1: int, y2: int, m2: int, d2: int)
    requires
        spec_valid_date(y1, m1, d1),
        spec_valid_date(y2, m2, d2),
        spec_day_number(y1, m1, d1) == spec_day_number(y2, m2, d2),
    ensures
        y1 == y2 && m1 == m2 && d1 == d2,
{
    lemma_day_number_in_year(y1, m1, d1);
    lemma_day_number_in_year(y2, m2, d2);
    if y1 < y2 {
        lemma_days_before_year_mono(y1, y2);
        assert(false);
    }
    if y2 < y1 {
        lemma_days_before_year_mono(y2, y1);
        assert(false);
    }
    if m1 < m2 {
        lemma_days_before_month_mono(y1, m1, m2);
        assert(false);
    }
    if m2 < m1 {
        lemma_days_before_month_mono(y1, m2, m1);
        assert(false);
    }
}

/// The day number of a valid civil date.
pub fn day_number(y: u64, m: u64, d: u64) -> (r: u64)
    requires
        spec_valid_date(y as int, m as int, d as int),
    ensures
        r == spec_day_number(y as int, m as int, d as int),
        r < spec_days_before_year(MAX_YEAR + 1),
{
    let mut acc: u64 = 0;
    let mut yy: u64 = MIN_YEAR;
    while yy < y
        invariant
            MIN_YEAR <= yy <= y <= MAX_YEAR,
            acc == spec_days_before_year(yy as int),
        decreases y - yy,
    {
        proof {
            lemma_days_before_year_bounds(yy as int);
        }
        acc = acc + days_in_year(yy);
        yy = yy + 1;
    }
    proof {
        lemma_days_before_year_bounds(y as int);
    }
    let mut mm: u64 = 1;
    while mm < m
        invariant
            1 <= mm <= m <= 12,
            MIN_YEAR <= y <= MAX_YEAR,
            acc == spec_days_before_year(y as int) + spec_days_before_month(y as int, mm as int),
            spec_days_before_year(y as int) <= 366 * (MAX_YEAR - MIN_YEAR),
        decreases m - mm,
    {
        proof {
            lemma_days_before_month_mono(y as int, 1, mm as int);
            lemma_days_before_month_mono(y as int, mm as int, 13);
            lemma_months_fill_year(y as int);
        }
        acc = acc + days_in_month(y, mm);
        mm = mm + 1;
    }
    proof {
        lemma_day_number_in_year(y as int, m as int, d as int);
        lemma_days_before_year_mono(y as int, MAX_YEAR as int);
        lemma_days_before_year_bounds(MAX_YEAR + 1);
    }
    acc + (d - 1)
}

/// The civil date of a day number: the inverse of `day_number`.
pub fn civil_from_day(day: u64) -> (r: (u64, u64, u64))
    requires
        day < spec_days_before_year(MAX_YEAR + 1),
    ensures
        spec_valid_date(r.0 as int, r.1 as int, r.2 as int),
        spec_day_number(r.0 as int, r.1 as int, r.2 as int) == day,
{
    let mut y: u64 = MIN_YEAR;
    let mut rem: u64 = day;
    loop
        invariant
            MIN_YEAR <= y <= MAX_YEAR,
            day < spec_days_before_year(MAX_YEAR + 1),
            spec_days_before_year(y as int) + rem == day,
        ensures
            MIN_YEAR <= y <= MAX_YEAR,
            spec_days_before_year(y as int) + rem == day,
            rem < spec_days_in_year(y as int),
        decreases MAX_YEAR + 1 - y,
    {
        let len = days_in_year(y);
        if rem < len {
            break ;
        }
        proof {
            lemma_days_before_year_mono(y as int + 1, MAX_YEAR + 1);
        }
        rem = rem - len;
        y = y + 1;
    }
    let mut m: u64 = 1;
    loop
        invariant
            1 <= m <= 12,
            MIN_YEAR <= y <= MAX_YEAR,
            spec_days_before_year(y as int) + spec_days_before_month(y as int, m as int) + rem
                == day,
            spec_days_before_month(y as int, m as int) + rem < spec_days_in_year(y as int),
        ensures
            1 <= m <= 12,
            spec_days_before_year(y as int) + spec_days_before_month(y as int, m as int) + rem
                == day,
            rem < spec_days_in_month(y as int, m as int),
        decreases 13 - m,
    {
        let len = days_in_month(y, m);
        if rem < len {
            break ;
        }
        proof {
            lemma_months_fill_year(y as int);
            lemma_days_before_month_mono(y as int, m as int + 1, 13);
        }
        rem = rem - len;
        m = m + 1;
    }
    (y, m, rem + 1)
}

/// Weekday of a day number, 0 = Monday through 6 = Sunday.
/// Day 0 (1970-01-01) was a Thursday.
pub open spec fn spec_weekday_of_day(day: int) -> int {
    (day + 3) % 7
}

/// Weekday of a day number, executably.
pub fn weekday_of_day(day: u64) -> (r: u64)
    requires
        day < spec_days_before_year(MAX_YEAR + 1),
    ensures
        r == spec_weekday_of_day(day as int),
        r < 7,
{
    proof {
        lemma_days_before_year_bounds(MAX_YEAR + 1);
    }
    (day + 3) % 7
}

/// The day a point in time falls on.
pub open spec fn spec_day_of(ts: int) -> int {
    ts / (SECS_PER_DAY as int)
}

/// The second of its day a point in time falls on.
pub open spec fn spec_tod_of(ts: int) -> int {
    ts % (SECS_PER_DAY as int)
}

/// A point in time the calendar models: any second before year 10000.
pub open spec fn spec_ts_in_range(ts: int) -> bool {
    0 <= ts && spec_day_of(ts) < spec_days_before_year(MAX_YEAR + 1)
}

/// A point in time from which every recurrence can roll forward without
/// leaving the modeled years: any second before the final modeled year.
pub open spec fn spec_now_in_range(ts: int) -> bool {
    0 <= ts && spec_day_of(ts) < spec_days_before_year(MAX_YEAR as int)
}

/// Days in the years from 1970 (inclusive) up to `y` (exclusive), executably.
pub fn days_before_year(y: u64) -> (r: u64)
    requires
        MIN_YEAR <= y <= MAX_YEAR + 1,
    ensures
        r == spec_days_before_year(y as int),
{
    let mut acc: u64 = 0;
    let mut yy: u64 = MIN_YEAR;
    while yy < y
        invariant
            MIN_YEAR <= yy <= y <= MAX_YEAR + 1,
            acc == spec_days_before_year(yy as int),
        decreases y - yy,
    {
        proof {
            lemma_days_before_year_bounds(yy as int);
        }
        acc = acc + days_in_year(yy);
        yy = yy + 1;
    }
    acc
}

/// Whether a second count lies inside the modeled calendar.
pub fn timestamp_in_range(ts: u64) -> (r: bool)
    ensures
        r == spec_ts_in_range(ts as int),
{
    ts / SECS_PER_DAY < days_before_year(MAX_YEAR + 1)
}

/// Whether a second count leaves room for every recurrence to roll forward.
pub fn now_in_range(ts: u64) -> (r: bool)
    ensures
        r == spec_now_in_range(ts as int),
{
    ts / SECS_PER_DAY < days_before_year(MAX_YEAR)
}

} // verus!
