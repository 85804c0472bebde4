use ordito::model::Recurrence;
use ordito::recurrence::{next_fire, validate_cron_expression};

const DAY: u64 = 86400;

#[test]
fn once_fires_only_in_the_future() {
    // Anchor ahead of now: fires at the anchor.
    assert_eq!(next_fire(&Recurrence::Once, 5000, 1000, 0, None), Some(5000));
    // Anchor already passed: exhausted.
    assert_eq!(next_fire(&Recurrence::Once, 500, 1000, 0, None), None);
}

#[test]
fn once_fires_at_most_once() {
    // After one execution a second computation is exhausted, whatever the anchor.
    assert_eq!(next_fire(&Recurrence::Once, 5000, 1000, 1, None), None);
    assert_eq!(next_fire(&Recurrence::Once, 5000, 1000, 7, None), None);
}

#[test]
fn daily_today_or_tomorrow() {
    // Anchor time-of-day 01:00. At 00:30 it is still ahead today.
    assert_eq!(next_fire(&Recurrence::Daily, 3600, 1800, 0, None), Some(3600));
    // At 02:00 it has passed; roll to tomorrow.
    assert_eq!(next_fire(&Recurrence::Daily, 3600, 7200, 0, None), Some(DAY + 3600));
    // Exactly at the anchor instant it is not strictly ahead; roll to tomorrow.
    assert_eq!(next_fire(&Recurrence::Daily, 3600, 3600, 0, None), Some(DAY + 3600));
}

#[test]
fn weekly_same_weekday_next_week() {
    // Anchor: Thursday 1970-01-01 00:00. Now: Friday 1970-01-02 00:00.
    // The next Thursday 00:00 is day 7.
    assert_eq!(next_fire(&Recurrence::Weekly, 0, DAY, 0, None), Some(7 * DAY));
    // Now: Wednesday 1970-01-07 12:00 -> Thursday 1970-01-08 00:00 is day 7.
    assert_eq!(next_fire(&Recurrence::Weekly, 0, 6 * DAY + 43200, 0, None), Some(7 * DAY));
}

#[test]
fn monthly_day_31_clamps_to_short_month() {
    // Anchor: 1970-01-31 00:00 (day-of-month 31).
    let anchor = 30 * DAY;
    // Now: 1970-04-01 00:00; April has 30 days, so the fire lands on
    // April 30, not on a rollover into May.
    let now = 90 * DAY;
    let april_30 = 119 * DAY;
    assert_eq!(next_fire(&Recurrence::Monthly, anchor, now, 0, None), Some(april_30));
}

#[test]
fn monthly_next_month_when_passed() {
    // Anchor: 1970-01-15 00:00. Now: 1970-01-20. This month's 15th has
    // passed; the next fire is February 15.
    let anchor = 14 * DAY;
    let now = 19 * DAY;
    let feb_15 = (31 + 14) * DAY;
    assert_eq!(next_fire(&Recurrence::Monthly, anchor, now, 0, None), Some(feb_15));
}

#[test]
fn custom_adds_minutes() {
    let rec = Recurrence::Custom { interval_minutes: 90 };
    assert_eq!(next_fire(&rec, 0, 1000, 0, None), Some(1000 + 90 * 60));
}

#[test]
fn cap_exhausts() {
    // The cap is checked before any calendar arithmetic.
    assert_eq!(next_fire(&Recurrence::Daily, 3600, 1800, 3, Some(3)), None);
    assert_eq!(next_fire(&Recurrence::Daily, 3600, 1800, 5, Some(3)), None);
    // Below the cap the schedule still fires.
    assert_eq!(next_fire(&Recurrence::Daily, 3600, 1800, 2, Some(3)), Some(3600));
}

#[test]
fn next_fire_is_strictly_future() {
    let recs = [
        Recurrence::Daily,
        Recurrence::Weekly,
        Recurrence::Monthly,
        Recurrence::Custom { interval_minutes: 1 },
    ];
    for now in [0u64, 1800, 86399, 86400, 123456789] {
        for rec in &recs {
            let r = next_fire(rec, 3600, now, 0, None).unwrap();
            assert!(r > now, "fire {r} not after {now} for {rec:?}");
        }
    }
}

#[test]
fn cron_next_is_strictly_future_and_exact() {
    // Noon every day, in the evaluator's six-field form.
    let expr = Recurrence::Cron { expression: String::from("0 0 12 * * *") };
    // From the epoch the first match is 1970-01-01 12:00:00.
    assert_eq!(next_fire(&expr, 0, 0, 0, None), Some(43200));
    // From 12:00:00 sharp the match is strictly after: the next day.
    assert_eq!(next_fire(&expr, 0, 43200, 0, None), Some(43200 + DAY));
}

#[test]
fn corrupt_cron_expression_is_exhausted_not_fatal() {
    let expr = Recurrence::Cron { expression: String::from("not a cron") };
    assert_eq!(next_fire(&expr, 0, 1000, 0, None), None);
}

#[test]
fn cron_validation() {
    assert!(validate_cron_expression("0 0 12 * * *"));
    assert!(validate_cron_expression("*/5 * * * * *"));
    assert!(!validate_cron_expression("not a cron"));
    assert!(!validate_cron_expression(""));
    assert!(!validate_cron_expression("99 99 99 * * *"));
}
