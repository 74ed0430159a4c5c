use chrono::{DateTime, FixedOffset, TimeZone, Utc};
use ly::calendar::{in_calendar, start_of_day_in_tz, valid_offset, MAX_INSTANT, MIN_INSTANT};
use ly::command::{format_date, parse_or_today, resolve_date, DateError};
use ly::config::Config;

#[test]
fn test_start_of_day_in_tz() {
    let jst = FixedOffset::east_opt(9 * 3600).unwrap();
    let timestamp_utc = Utc.with_ymd_and_hms(2021, 3, 6, 23, 10, 33).unwrap();
    let start_of_day = start_of_day_in_tz(timestamp_utc.timestamp_millis(), 9 * 3600);
    let start_of_day = jst.timestamp_millis_opt(start_of_day).unwrap();
    assert_eq!(
        start_of_day.format("%Y-%m-%d %H:%M:%S").to_string(),
        "2021-03-07 00:00:00"
    );
}

#[test]
fn test_parse_or_today() {
    let input = "2021-01-01";
    let parsed = parse_or_today(9 * 3600, Some(input)).unwrap();
    let parsed: DateTime<Utc> = Utc.timestamp_millis_opt(parsed).unwrap();
    let expected = Utc.with_ymd_and_hms(2020, 12, 31, 15, 0, 0).unwrap();
    assert_eq!(parsed, expected);
}

#[test]
fn start_of_day_is_exact_in_milliseconds() {
    // 2021-03-06T23:10:33.250Z in UTC+9 is 2021-03-07, which begins at 2021-03-06T15:00:00Z.
    assert_eq!(start_of_day_in_tz(1_615_072_233_250, 9 * 3600), 1_615_042_800_000);
    // West of UTC the same instant is still on 2021-03-06, which begins at 05:00:00Z.
    assert_eq!(start_of_day_in_tz(1_615_072_233_250, -5 * 3600), 1_615_006_800_000);
    // At offset 0 the day begins at midnight UTC.
    assert_eq!(start_of_day_in_tz(1_615_072_233_250, 0), 1_614_988_800_000);
}

#[test]
fn start_of_day_before_the_epoch() {
    // One millisecond before 1970 is on 1969-12-31 in UTC.
    assert_eq!(start_of_day_in_tz(-1, 0), -86_400_000);
    // In UTC+9 it is 08:59:59.999 on 1970-01-01, which began at 1969-12-31T15:00:00Z.
    assert_eq!(start_of_day_in_tz(-1, 9 * 3600), -32_400_000);
    assert_eq!(start_of_day_in_tz(0, 0), 0);
}

#[test]
fn start_of_day_of_a_midnight_is_itself() {
    let midnight = Utc.with_ymd_and_hms(2020, 12, 31, 15, 0, 0).unwrap().timestamp_millis();
    assert_eq!(start_of_day_in_tz(midnight, 9 * 3600), midnight);
    assert_eq!(start_of_day_in_tz(midnight - 1, 9 * 3600), midnight - 86_400_000);
}

#[test]
fn start_of_day_at_the_ends_of_the_calendar() {
    for offset in [-86_399, 0, 86_399] {
        let first = start_of_day_in_tz(MIN_INSTANT, offset);
        assert!(first <= MIN_INSTANT && MIN_INSTANT < first + 86_400_000);
        let last = start_of_day_in_tz(MAX_INSTANT, offset);
        assert!(last <= MAX_INSTANT && MAX_INSTANT < last + 86_400_000);
        assert_eq!((last + offset as i64 * 1000).rem_euclid(86_400_000), 0);
    }
}

#[test]
fn calendar_range_checks() {
    assert!(in_calendar(0));
    assert!(in_calendar(MIN_INSTANT));
    assert!(in_calendar(MAX_INSTANT));
    assert!(!in_calendar(MAX_INSTANT + 1));
    assert!(!in_calendar(MIN_INSTANT - 1));
    assert!(valid_offset(0));
    assert!(valid_offset(86_399));
    assert!(valid_offset(-86_399));
    assert!(!valid_offset(86_400));
    assert!(!valid_offset(-86_400));
}

#[test]
fn resolve_date_reads_the_named_day() {
    let date = resolve_date(0, Some("2015-03-14"), 0);
    assert_eq!(date, Ok(1_426_291_200_000));
    let west = resolve_date(-8 * 3600, Some("2015-03-14"), 0);
    assert_eq!(west, Ok(1_426_291_200_000 + 8 * 3_600_000));
}

#[test]
fn resolve_date_rejects_what_is_no_date() {
    assert_eq!(resolve_date(0, Some("yesterday"), 0), Err(DateError::InvalidDate));
    assert_eq!(resolve_date(0, Some(""), 0), Err(DateError::InvalidDate));
    assert_eq!(resolve_date(0, Some("2015-02-30"), 0), Err(DateError::InvalidDate));
    assert_eq!(resolve_date(0, Some("2015-03-14T10:00:00"), 0), Err(DateError::InvalidDate));
}

#[test]
fn resolve_date_without_input_is_the_day_of_now() {
    let now = Utc.with_ymd_and_hms(2021, 3, 6, 23, 10, 33).unwrap().timestamp_millis();
    let expected = Utc.with_ymd_and_hms(2021, 3, 6, 15, 0, 0).unwrap().timestamp_millis();
    assert_eq!(resolve_date(9 * 3600, None, now), Ok(expected));
}

#[test]
fn resolve_date_without_input_needs_a_clock_in_the_calendar() {
    assert_eq!(resolve_date(0, None, MAX_INSTANT + 1), Err(DateError::ClockOutOfRange));
    assert_eq!(resolve_date(0, None, i64::MIN), Err(DateError::ClockOutOfRange));
}

#[test]
fn parse_or_today_without_input_is_a_local_midnight_of_today() {
    let before = Utc::now().timestamp_millis();
    let today = parse_or_today(9 * 3600, None).unwrap();
    let after = Utc::now().timestamp_millis();
    assert_eq!((today + 9 * 3_600_000).rem_euclid(86_400_000), 0);
    assert!(today <= after);
    assert!(before < today + 86_400_000);
}

#[test]
fn format_date_writes_the_local_date() {
    let conf = Config::for_home("/home/me");
    let instant = Utc.with_ymd_and_hms(2021, 3, 6, 23, 10, 33).unwrap().timestamp_millis();
    assert_eq!(format_date(&conf, instant), "2021-03-07");
    let utc = Config { timezone: 0, ..conf.clone() };
    assert_eq!(format_date(&utc, instant), "2021-03-06");
    assert_eq!(format_date(&utc, 0), "1970-01-01");
}

#[test]
fn a_named_day_round_trips_through_format_date() {
    let conf = Config::for_home("/home/me");
    let date = parse_or_today(conf.timezone, Some("2024-02-29")).unwrap();
    assert_eq!(format_date(&conf, date), "2024-02-29");
    assert_eq!(start_of_day_in_tz(date, conf.timezone), date);
}

#[test]
fn start_of_day_is_the_local_midnight_before() {
    let offsets = [-86_399, -43_200, -18_000, -1, 0, 1, 3_600, 19_800, 32_400, 45_900, 86_399];
    let instants = [
        MIN_INSTANT,
        MIN_INSTANT + 1,
        -62_135_596_800_000,
        -62_135_596_800_001,
        -86_400_001,
        -86_400_000,
        -1,
        0,
        1,
        86_399_999,
        86_400_000,
        951_782_400_000,
        1_615_072_233_250,
        4_102_444_799_999,
        253_402_300_800_000,
        MAX_INSTANT - 1,
        MAX_INSTANT,
    ];
    for offset in offsets {
        for instant in instants {
            let into_day = (instant + offset as i64 * 1_000).rem_euclid(86_400_000);
            assert_eq!(
                start_of_day_in_tz(instant, offset),
                instant - into_day,
                "{} at {}",
                instant,
                offset
            );
        }
    }
}
