//! Next occurrences of recurring entries, and the date helpers they use.

use entry::dates::{format_ymd, CalendarDate};
use entry::manager::validate::date_range;
use entry::manager::scheduler::{
    checked_next_occurrence, days_in_month, follow_up, next_occurrence, parse_i64, read_rule,
    FollowUp,
};

fn next(current: &str, rule: &str) -> Option<String> {
    next_occurrence(current, rule)
}

#[test]
fn daily_rule_adds_interval_days() {
    assert_eq!(next("2026-07-01", "FREQ=DAILY;INTERVAL=3"), Some("2026-07-04".to_string()));
    assert_eq!(next("2026-12-31", "FREQ=DAILY"), Some("2027-01-01".to_string()));
}

#[test]
fn weekly_rule_adds_interval_weeks() {
    assert_eq!(next("2026-07-01", "FREQ=WEEKLY;INTERVAL=2"), Some("2026-07-15".to_string()));
}

#[test]
fn monthly_rule_clamps_to_month_end() {
    assert_eq!(next("2026-01-31", "FREQ=MONTHLY"), Some("2026-02-28".to_string()));
    assert_eq!(next("2024-01-31", "FREQ=MONTHLY"), Some("2024-02-29".to_string()));
    assert_eq!(next("2026-03-31", "FREQ=MONTHLY;INTERVAL=13"), Some("2027-04-30".to_string()));
    assert_eq!(next("2026-11-15", "FREQ=MONTHLY;INTERVAL=2"), Some("2027-01-15".to_string()));
}

#[test]
fn intervals_below_one_give_no_next_date() {
    for freq in ["DAILY", "WEEKLY", "MONTHLY", "YEARLY"] {
        assert_eq!(next("2026-07-15", &format!("FREQ={freq};INTERVAL=0")), None, "{freq}");
        assert_eq!(next("2026-07-15", &format!("FREQ={freq};INTERVAL=-1")), None, "{freq}");
        assert_eq!(
            next("2026-07-15", &format!("FREQ={freq};INTERVAL=-9223372036854775808")),
            None,
            "{freq}"
        );
    }
}

#[test]
fn steps_beyond_the_calendar_give_no_next_date() {
    assert_eq!(next("2026-07-15", "FREQ=YEARLY;INTERVAL=4294967296"), None);
    assert_eq!(next("2026-07-15", "FREQ=YEARLY;INTERVAL=260117"), None);
    assert_eq!(next("2026-07-15", "FREQ=YEARLY;INTERVAL=260116"), Some("+262142-07-15".to_string()));
    assert_eq!(next("2026-01-01", "FREQ=MONTHLY;INTERVAL=51539607552"), None);
    assert_eq!(next("2026-01-01", "FREQ=MONTHLY;INTERVAL=9223372036854775807"), None);
}

#[test]
fn next_dates_come_after_the_current_one() {
    for rule in [
        "FREQ=DAILY",
        "FREQ=WEEKLY;INTERVAL=3",
        "FREQ=MONTHLY;INTERVAL=1",
        "FREQ=MONTHLY;INTERVAL=12",
        "FREQ=MONTHLY;INTERVAL=25",
        "FREQ=YEARLY;INTERVAL=2",
    ] {
        for current in ["2024-01-31", "2026-12-31", "2028-02-29"] {
            if let Some(n) = next(current, rule) {
                assert!(n.as_str() > current, "{current} {rule} {n}");
            }
        }
    }
}

#[test]
fn yearly_rule_keeps_month_and_day() {
    assert_eq!(next("2026-07-01", "FREQ=YEARLY"), Some("2027-07-01".to_string()));
    assert_eq!(next("2024-02-29", "FREQ=YEARLY"), None);
    assert_eq!(next("2024-02-29", "FREQ=YEARLY;INTERVAL=4"), Some("2028-02-29".to_string()));
}

#[test]
fn unknown_or_missing_frequency_gives_none() {
    assert_eq!(next("2026-07-01", "FREQ=HOURLY"), None);
    assert_eq!(next("2026-07-01", "INTERVAL=2"), None);
    assert_eq!(next("2026-07-01", ""), None);
}

#[test]
fn unreadable_date_gives_none() {
    assert_eq!(next("07/01/2026", "FREQ=DAILY"), None);
    assert_eq!(next("", "FREQ=DAILY"), None);
}

#[test]
fn unreadable_interval_counts_as_one() {
    assert_eq!(next("2026-07-01", "FREQ=DAILY;INTERVAL=abc"), Some("2026-07-02".to_string()));
    assert_eq!(next("2026-07-01", "INTERVAL=5;FREQ=DAILY"), Some("2026-07-06".to_string()));
    assert_eq!(next("2026-07-01", "FREQ=DAILY;INTERVAL=5;INTERVAL=x"), Some("2026-07-02".to_string()));
}

#[test]
fn overflowing_steps_are_reported() {
    assert!(checked_next_occurrence("2026-01-01", "FREQ=DAILY;INTERVAL=9223372036854775807").is_err());
    assert!(checked_next_occurrence("2026-01-01", "FREQ=DAILY;INTERVAL=200000000").is_err());
    assert_eq!(
        checked_next_occurrence("2026-01-01", "FREQ=MONTHLY;INTERVAL=9223372036854775807").unwrap(),
        None
    );
    assert_eq!(
        checked_next_occurrence("2026-01-01", "FREQ=DAILY").unwrap(),
        Some("2026-01-02".to_string())
    );
}

#[test]
fn follow_up_advances_or_cancels() {
    match follow_up("2026-07-01", "FREQ=WEEKLY") {
        FollowUp::Advance(d) => assert_eq!(d, "2026-07-08"),
        other => panic!("unexpected {other:?}"),
    }
    assert!(matches!(follow_up("2026-07-01", "FREQ=SECONDLY"), FollowUp::CancelRecurrence));
    assert!(matches!(follow_up("2026-07-01", "FREQ=DAILY;INTERVAL=0"), FollowUp::CancelRecurrence));
    assert!(matches!(follow_up("2026-07-01", "FREQ=MONTHLY;INTERVAL=-2"), FollowUp::CancelRecurrence));
    assert!(matches!(
        follow_up("2026-07-01", "FREQ=WEEKLY;INTERVAL=9223372036854775807"),
        FollowUp::Overflow
    ));
}

#[test]
fn rule_reading_takes_last_settings() {
    let (f, i) = read_rule("FREQ=DAILY;INTERVAL=4;FREQ=WEEKLY");
    assert_eq!(f, "WEEKLY");
    assert_eq!(i, 4);
    let (f, i) = read_rule("FREQ");
    assert_eq!(f, "");
    assert_eq!(i, 1);
}

#[test]
fn integers_parse_as_rust_parses_them() {
    for s in ["0", "+5", "-0", "42", "-9223372036854775808", "9223372036854775807", "007"] {
        assert_eq!(parse_i64(s), s.parse::<i64>().ok(), "{s}");
    }
    for s in ["", "-", "+", "9223372036854775808", "-9223372036854775809", "1a", " 1", "--1"] {
        assert_eq!(parse_i64(s), None, "{s}");
        assert!(s.parse::<i64>().is_err(), "{s}");
    }
}

#[test]
fn month_lengths() {
    assert_eq!(days_in_month(2024, 2), 29);
    assert_eq!(days_in_month(2023, 2), 28);
    assert_eq!(days_in_month(1900, 2), 28);
    assert_eq!(days_in_month(2000, 2), 29);
    assert_eq!(days_in_month(2026, 12), 31);
    assert_eq!(days_in_month(2026, 4), 30);
}

#[test]
fn dates_format_as_chrono_formats_them() {
    for (y, m, d) in [(2026, 7, 1), (0, 1, 1), (-5, 3, 9), (12345, 12, 31), (999, 10, 10), (-262143, 1, 1)] {
        let ours = format_ymd(CalendarDate { year: y, month: m, day: d });
        let theirs = chrono::NaiveDate::from_ymd_opt(y, m, d).unwrap().format("%Y-%m-%d").to_string();
        assert_eq!(ours, theirs);
    }
}

#[test]
fn dates_read_through_chrono() {
    assert!(date_range("2026-07-01", "").is_ok());
    assert!(date_range("2026-02-30", "").is_err());
    assert!(date_range("2026/07/01", "").is_err());
    assert!(date_range("+12026-07-01", "").is_ok());
    assert_eq!(next("2026-02-30", "FREQ=DAILY"), None);
}
