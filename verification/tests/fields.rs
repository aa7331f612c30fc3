use rclock::num::{encode_decimal, parse_decimal};
use rclock::store::{Action, ClockError, Project};
use rclock::summary::display_duration;
use rclock::sys::{current_epoch_seconds, expand_user_path, local_window_starts};

#[test]
fn parse_decimal_reads_digit_strings() {
    assert_eq!(parse_decimal("0"), Some(0));
    assert_eq!(parse_decimal("1000"), Some(1000));
    assert_eq!(parse_decimal("007"), Some(7));
    assert_eq!(parse_decimal("9223372036854775807"), Some(i64::MAX));
}

#[test]
fn parse_decimal_rejects_everything_else() {
    assert_eq!(parse_decimal(""), None);
    assert_eq!(parse_decimal("-5"), None);
    assert_eq!(parse_decimal("+5"), None);
    assert_eq!(parse_decimal("12a"), None);
    assert_eq!(parse_decimal(" 12"), None);
    assert_eq!(parse_decimal("9223372036854775808"), None);
    assert_eq!(parse_decimal("99999999999999999999999"), None);
}

#[test]
fn encode_decimal_spells_canonically() {
    assert_eq!(encode_decimal(0), "0");
    assert_eq!(encode_decimal(7), "7");
    assert_eq!(encode_decimal(1000), "1000");
    assert_eq!(encode_decimal(i64::MAX), "9223372036854775807");
}

#[test]
fn encode_then_parse_is_identity() {
    for n in [0i64, 1, 9, 10, 59, 60, 12345, 1700000000] {
        assert_eq!(parse_decimal(&encode_decimal(n)), Some(n));
    }
}

#[test]
fn parse_timestamp_reports_the_offending_field() {
    let p = Project::new(String::from("demo"), Action::End);
    assert!(matches!(p.parse_timestamp("1000"), Ok(1000)));
    match p.parse_timestamp("10 00") {
        Err(ClockError::BadTimestamp { field }) => assert_eq!(field, "10 00"),
        _ => panic!("corrupt field accepted"),
    }
}

#[test]
fn is_line_started_counts_commas_of_the_last_line() {
    let p = Project::new(String::from("demo"), Action::Begin);
    assert_eq!(p.is_line_started(None), (false, String::new()));
    assert_eq!(p.is_line_started(Some("")), (false, String::new()));
    assert_eq!(p.is_line_started(Some("1000,")), (true, String::from("1000")));
    assert_eq!(p.is_line_started(Some("1000,1100")), (true, String::from("1000")));
    assert_eq!(p.is_line_started(Some("plain")), (false, String::from("plain")));
    assert_eq!(p.is_line_started(Some("a,b,c")), (false, String::from("a")));
}

#[test]
fn display_duration_splits_by_integer_division() {
    assert_eq!(display_duration(0, "Today:"), "Today: 0 hours, 0 minutes, 0 seconds.");
    assert_eq!(
        display_duration(3661, "Last week:"),
        "Last week: 1 hours, 1 minutes, 1 seconds."
    );
    assert_eq!(
        display_duration(7322, "Total time tracked:"),
        "Total time tracked: 2 hours, 2 minutes, 2 seconds."
    );
    assert_eq!(display_duration(59, "T:"), "T: 0 hours, 0 minutes, 59 seconds.");
    assert_eq!(display_duration(3600, "T:"), "T: 1 hours, 0 minutes, 0 seconds.");
}

#[test]
fn expand_user_path_leaves_plain_paths_alone() {
    assert_eq!(expand_user_path("/tmp/clock.log"), "/tmp/clock.log");
    // A home-relative path loses its tilde whenever a home directory exists.
    let expanded = expand_user_path("~/.rclock-demo");
    assert!(expanded.ends_with(".rclock-demo"));
}

#[test]
fn machine_clock_and_calendar_resolve() {
    let now = current_epoch_seconds().unwrap();
    assert!(now > 0);
    let (day_start, week_start) = local_window_starts(now).unwrap();
    assert!(week_start <= day_start);
    assert!(day_start <= now);
    // Local midnight lies less than a (long) day behind the clock.
    assert!(now - day_start < 2 * 86400);
    assert!(day_start - week_start <= 7 * 86400);
}
