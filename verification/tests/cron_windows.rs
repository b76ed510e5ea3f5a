use chrono::{Datelike, TimeZone, Timelike, Utc};
use openhpa::clock::Timestamp;
use openhpa::cron::{cron_window_active, parse_dow, parse_simple_cron, weekly_window_cron};

fn utc(y: i32, m: u32, d: u32, h: u32, mi: u32, s: u32) -> Timestamp {
    let t = Utc.with_ymd_and_hms(y, m, d, h, mi, s).unwrap();
    Timestamp { secs: t.timestamp(), nanos: t.timestamp_subsec_nanos() }
}

#[test]
fn cron_round_trips_for_a_weekday_window() {
    let cron = weekly_window_cron(&[1, 2, 3, 4, 5], 8 * 60 + 30);
    assert_eq!(cron, "30 8 * * 1,2,3,4,5");
    // Wednesday 2026-01-07 at 09:00 is inside an 08:30 + 120m weekday window.
    let inside = utc(2026, 1, 7, 9, 0, 0);
    assert!(cron_window_active(&cron, 120, inside));
    // Sunday is not a matching day.
    let sunday = utc(2026, 1, 4, 9, 0, 0);
    assert!(!cron_window_active(&cron, 120, sunday));
    // Wednesday 12:00 is past the window end.
    let after = utc(2026, 1, 7, 12, 0, 0);
    assert!(!cron_window_active(&cron, 120, after));
}

#[test]
fn daily_cron_uses_wildcard_day() {
    assert_eq!(weekly_window_cron(&[0, 1, 2, 3, 4, 5, 6], 60), "0 1 * * *");
}

#[test]
fn days_are_sorted_and_listed_once() {
    assert_eq!(weekly_window_cron(&[5, 1, 5, 3, 1], 0), "0 0 * * 1,3,5");
    assert_eq!(weekly_window_cron(&[], 61), "1 1 * * ");
    // Seven entries are every day only where all seven days are among them.
    assert_eq!(weekly_window_cron(&[1, 1, 1, 1, 1, 1, 1], 0), "0 0 * * 1");
    assert_eq!(weekly_window_cron(&[2, 2, 2, 2, 2, 2, 2, 3], 1439), "59 23 * * 2,3");
    assert_eq!(weekly_window_cron(&[6, 5, 4, 3, 2, 1, 0, 3], 1439), "59 23 * * *");
    // Days count modulo seven: 7 is Sunday, as it is when a cron is read.
    assert_eq!(weekly_window_cron(&[1, 2, 3, 4, 5, 6, 7], 0), "0 0 * * *");
    assert_eq!(weekly_window_cron(&[14, 8, 2, 3, 4, 5, 6], 0), "0 0 * * *");
    assert_eq!(weekly_window_cron(&[0, 1, 2, 3, 4, 5, 7], 0), "0 0 * * 0,1,2,3,4,5,7");
    assert_eq!(weekly_window_cron(&[7, 6], 0), "0 0 * * 6,7");
    assert_eq!(parse_simple_cron("0 0 * * 6,7"), Some((0, 0, vec![6, 0])));
}

#[test]
fn a_written_cron_reads_back() {
    for minute in [0u32, 1, 59, 60, 61, 719, 1439] {
        let cron = weekly_window_cron(&[6, 0], minute);
        assert_eq!(parse_simple_cron(&cron), Some((minute % 60, minute / 60, vec![0, 6])));
        let daily = weekly_window_cron(&[0, 1, 2, 3, 4, 5, 6], minute);
        assert_eq!(
            parse_simple_cron(&daily),
            Some((minute % 60, minute / 60, vec![0, 1, 2, 3, 4, 5, 6]))
        );
    }
}

#[test]
fn day_fields_take_ranges_lists_and_the_second_sunday() {
    assert_eq!(parse_dow("*"), Some(vec![0, 1, 2, 3, 4, 5, 6]));
    assert_eq!(parse_dow("1-5"), Some(vec![1, 2, 3, 4, 5]));
    assert_eq!(parse_dow("0,3-4,7"), Some(vec![0, 3, 4, 0]));
    assert_eq!(parse_dow("5-8"), Some(vec![5, 6, 0, 1]));
    assert_eq!(parse_dow("4-2"), Some(vec![]));
    assert_eq!(parse_dow("+2"), Some(vec![2]));
    for bad in ["", "x", "1,", "1-", "-1", "1-2-3", "1 2", "4294967296"] {
        assert_eq!(parse_dow(bad), None, "{bad}");
    }
}

#[test]
fn malformed_crons_are_never_active() {
    let now = utc(2026, 1, 7, 9, 0, 0);
    for bad in [
        "",
        "0 9 * *",
        "0 9 * * * *",
        "60 9 * * *",
        "0 24 * * *",
        "x 9 * * *",
        "0 x * * *",
        "0 9 * * mon",
        "-1 9 * * *",
    ] {
        assert_eq!(parse_simple_cron(bad), None, "{bad}");
        assert!(!cron_window_active(bad, 120, now), "{bad}");
    }
    // The two middle fields are not looked at; any white space separates.
    assert_eq!(parse_simple_cron(" 5\t9  x y\n3 "), Some((5, 9, vec![3])));
    // A window without length is never active.
    assert!(!cron_window_active("0 9 * * *", 0, now));
    assert!(!cron_window_active("0 9 * * *", -60, now));
}

#[test]
fn windows_begin_and_end_to_the_second() {
    let cron = "0 9 * * 3"; // Wednesdays at nine
    assert!(!cron_window_active(cron, 60, utc(2026, 1, 7, 8, 59, 59)));
    assert!(cron_window_active(cron, 60, utc(2026, 1, 7, 9, 0, 0)));
    assert!(cron_window_active(cron, 60, utc(2026, 1, 7, 9, 59, 59)));
    let last = Timestamp { nanos: 999_999_999, ..utc(2026, 1, 7, 9, 59, 59) };
    assert!(cron_window_active(cron, 60, last));
    assert!(!cron_window_active(cron, 60, utc(2026, 1, 7, 10, 0, 0)));
}

#[test]
fn windows_cross_midnight_and_span_days() {
    // Opens Saturday 23:00 for four hours: active on Sunday morning.
    assert!(cron_window_active("0 23 * * 6", 240, utc(2026, 1, 4, 2, 59, 0)));
    assert!(!cron_window_active("0 23 * * 6", 240, utc(2026, 1, 4, 3, 0, 0)));
    assert!(!cron_window_active("0 23 * * 0", 240, utc(2026, 1, 4, 2, 59, 0)));
    // Three days long: opened on Sunday, still active on Wednesday morning.
    let three_days = 3 * 1440;
    assert!(cron_window_active("30 12 * * 0", three_days, utc(2026, 1, 7, 12, 29, 59)));
    assert!(!cron_window_active("30 12 * * 0", three_days, utc(2026, 1, 7, 12, 30, 0)));
}

#[test]
fn weekdays_agree_with_the_calendar() {
    for (y, m, d, h) in [(1969, 12, 31, 23), (1970, 1, 1, 0), (2000, 2, 29, 12), (2026, 1, 4, 1)] {
        let t = Utc.with_ymd_and_hms(y, m, d, h, 47, 5).unwrap();
        let ts = utc(y, m, d, h, 47, 5);
        assert_eq!(ts.days_from_sunday(), t.weekday().num_days_from_sunday());
        assert_eq!(ts.minutes_from_midnight(), t.hour() * 60 + t.minute());
    }
}
