use ordito::calendar::{
    civil_from_day, day_number, days_before_year, days_in_month, days_in_year, is_leap,
    now_in_range, timestamp_in_range, weekday_of_day,
};

#[test]
fn epoch_is_day_zero() {
    assert_eq!(day_number(1970, 1, 1), 0);
}

#[test]
fn first_year_has_365_days() {
    assert_eq!(day_number(1971, 1, 1), 365);
}

#[test]
fn leap_years() {
    assert!(is_leap(1972));
    assert!(is_leap(2000));
    assert!(is_leap(2024));
    assert!(!is_leap(1970));
    assert!(!is_leap(1900));
    assert!(!is_leap(2100));
}

#[test]
fn month_lengths() {
    assert_eq!(days_in_month(1970, 2), 28);
    assert_eq!(days_in_month(1972, 2), 29);
    assert_eq!(days_in_month(1970, 4), 30);
    assert_eq!(days_in_month(1970, 12), 31);
    assert_eq!(days_in_year(1972), 366);
    assert_eq!(days_in_year(1970), 365);
}

#[test]
fn civil_round_trip() {
    // 2024-02-29 exists and survives the round trip.
    let d = day_number(2024, 2, 29);
    assert_eq!(civil_from_day(d), (2024, 2, 29));
    // A date well known: 2000-01-01 is day 10957.
    assert_eq!(day_number(2000, 1, 1), 10957);
    assert_eq!(civil_from_day(10957), (2000, 1, 1));
}

#[test]
fn weekday_of_epoch_is_thursday() {
    // 0 = Monday, so Thursday is 3.
    assert_eq!(weekday_of_day(0), 3);
    // 1970-01-05 was a Monday.
    assert_eq!(weekday_of_day(4), 0);
}

#[test]
fn range_checks() {
    assert!(timestamp_in_range(0));
    assert!(now_in_range(0));
    // 9999-01-01 is in the calendar but leaves no room to roll forward.
    let last_year_start = days_before_year(9999) * 86400;
    assert!(timestamp_in_range(last_year_start));
    assert!(!now_in_range(last_year_start));
    // 10000-01-01 is out of the calendar altogether.
    let limit = days_before_year(10000) * 86400;
    assert!(!timestamp_in_range(limit));
}
