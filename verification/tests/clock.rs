use rclock::record::{classify_line, LineKind};
use rclock::store::{begin_action, end_action, parse_action, Action, BeginOutcome, ClockError, EndOutcome, Project};
use rclock::summary::{display_duration, summarize};

#[test]
fn begin_on_empty_log_appends_open_record() {
    match begin_action("", 1000) {
        BeginOutcome::Started { append } => assert_eq!(append, "1000,"),
        BeginOutcome::AlreadyStarted => panic!("begin refused on an empty log"),
    }
}

#[test]
fn begin_after_closed_record_is_accepted() {
    match begin_action("1000,1100\n", 2000) {
        BeginOutcome::Started { append } => assert_eq!(append, "2000,"),
        BeginOutcome::AlreadyStarted => panic!("begin refused after a closed record"),
    }
}

#[test]
fn begin_twice_is_refused_and_log_unchanged() {
    let mut log = String::new();
    match begin_action(&log, 1000) {
        BeginOutcome::Started { append } => log.push_str(&append),
        BeginOutcome::AlreadyStarted => panic!("first begin refused"),
    }
    assert_eq!(log, "1000,");
    match begin_action(&log, 1500) {
        BeginOutcome::AlreadyStarted => {}
        BeginOutcome::Started { .. } => panic!("second begin accepted"),
    }
    assert_eq!(log, "1000,");
}

#[test]
fn end_without_begin_is_refused() {
    match end_action("", 1000) {
        Ok(EndOutcome::NotStarted) => {}
        _ => panic!("end accepted with no open session"),
    }
    match end_action("1000,1100\n", 2000) {
        Ok(EndOutcome::NotStarted) => {}
        _ => panic!("end accepted after a closed record"),
    }
}

#[test]
fn end_closes_the_open_record() {
    match end_action("1000,", 1100) {
        Ok(EndOutcome::Stopped { append, session_seconds }) => {
            assert_eq!(append, "1100\n");
            assert_eq!(session_seconds, 100);
        }
        _ => panic!("end refused on an open session"),
    }
}

#[test]
fn end_session_seconds_saturate_at_zero() {
    match end_action("1000,", 900) {
        Ok(EndOutcome::Stopped { session_seconds, .. }) => assert_eq!(session_seconds, 0),
        _ => panic!("end refused on an open session"),
    }
}

#[test]
fn end_with_corrupt_start_fails_without_writing() {
    match end_action("abc,", 1100) {
        Err(ClockError::BadTimestamp { field }) => assert_eq!(field, "abc"),
        _ => panic!("corrupt start field accepted"),
    }
}

#[test]
fn full_pair_round_trip_through_summarize() {
    let mut log = String::new();
    if let BeginOutcome::Started { append } = begin_action(&log, 1000) {
        log.push_str(&append);
    }
    if let Ok(EndOutcome::Stopped { append, .. }) = end_action(&log, 1100) {
        log.push_str(&append);
    }
    assert_eq!(log, "1000,1100\n");
    let totals = summarize(&log, 1100, 0, 0).unwrap();
    assert_eq!(totals.all_time, 100);
    match classify_line("1000,1100") {
        LineKind::Closed { start, end } => assert_eq!(end - start, 100),
        _ => panic!("written record did not read back as closed"),
    }
}

#[test]
fn alternating_pairs_sum_to_all_time_total() {
    let mut log = String::new();
    let pairs = [(1000i64, 1100i64), (2000, 2300), (4000, 4001)];
    for (s, e) in pairs {
        match begin_action(&log, s) {
            BeginOutcome::Started { append } => log.push_str(&append),
            BeginOutcome::AlreadyStarted => panic!("begin refused mid-run"),
        }
        match end_action(&log, e) {
            Ok(EndOutcome::Stopped { append, session_seconds }) => {
                assert_eq!(session_seconds, e - s);
                log.push_str(&append);
            }
            _ => panic!("end refused mid-run"),
        }
    }
    assert_eq!(log, "1000,1100\n2000,2300\n4000,4001\n");
    let totals = summarize(&log, 5000, 0, 0).unwrap();
    assert_eq!(totals.all_time, 100 + 300 + 1);
}

#[test]
fn summarize_empty_log_is_all_zero() {
    let totals = summarize("", 1000, 0, 0).unwrap();
    assert_eq!(totals.all_time, 0);
    assert_eq!(totals.last_week, 0);
    assert_eq!(totals.last_day, 0);
    let line = display_duration(totals.all_time, "Total time tracked:");
    assert_eq!(line, "Total time tracked: 0 hours, 0 minutes, 0 seconds.");
}

#[test]
fn summarize_example_with_open_session() {
    let log = "1000,1100\n2000,\n";
    let totals = summarize(log, 2100, 500, 900).unwrap();
    assert_eq!(totals.all_time, 200);
    assert_eq!(totals.last_week, 200);
    assert_eq!(totals.last_day, 200);
    let line = display_duration(totals.all_time, "Total time tracked:");
    assert_eq!(line, "Total time tracked: 0 hours, 3 minutes, 20 seconds.");
}

#[test]
fn summarize_open_session_without_trailing_newline() {
    let totals = summarize("1000,1100\n2000,", 2100, 0, 0).unwrap();
    assert_eq!(totals.all_time, 200);
}

#[test]
fn summarize_windows_follow_start_timestamps() {
    // Two closed sessions; only the later one starts after the thresholds.
    let log = "1000,1100\n5000,5600\n";
    let totals = summarize(log, 6000, 2000, 4999).unwrap();
    assert_eq!(totals.all_time, 700);
    assert_eq!(totals.last_week, 600);
    assert_eq!(totals.last_day, 600);
    // A start exactly at the threshold is outside the window.
    let at_threshold = summarize(log, 6000, 1000, 5000).unwrap();
    assert_eq!(at_threshold.last_week, 600);
    assert_eq!(at_threshold.last_day, 0);
}

#[test]
fn summarize_tolerates_carriage_return_line_endings() {
    let totals = summarize("1000,1100\r\n2000,2050\r\n", 3000, 0, 0).unwrap();
    assert_eq!(totals.all_time, 150);
}

#[test]
fn begin_is_refused_while_tail_line_holds_one_comma() {
    // A closed record never completed by a newline still blocks a begin,
    // exactly as an open record does: the pending tail holds one comma.
    match begin_action("1000,1100", 2000) {
        BeginOutcome::AlreadyStarted => {}
        BeginOutcome::Started { .. } => panic!("begin accepted on a comma-bearing tail"),
    }
}

#[test]
fn summarize_skips_malformed_lines() {
    let log = "junk\n1,2,3\n\n1000,1100\n";
    let totals = summarize(log, 2000, 0, 0).unwrap();
    assert_eq!(totals.all_time, 100);
}

#[test]
fn summarize_aborts_on_corrupt_record_line() {
    match summarize("10,abc\n", 2000, 0, 0) {
        Err(ClockError::BadTimestamp { .. }) => {}
        Ok(_) => panic!("corrupt record line did not abort"),
    }
    match summarize("abc,5\n", 2000, 0, 0) {
        Err(ClockError::BadTimestamp { .. }) => {}
        Ok(_) => panic!("corrupt record line did not abort"),
    }
    match summarize("-5,10\n", 2000, 0, 0) {
        Err(ClockError::BadTimestamp { .. }) => {}
        Ok(_) => panic!("negative timestamp did not abort"),
    }
}

#[test]
fn summarize_saturates_on_closed_before_start() {
    // A closed record with end before start counts zero, not negative.
    let totals = summarize("1100,1000\n", 2000, 0, 0).unwrap();
    assert_eq!(totals.all_time, 0);
}

#[test]
fn classify_line_reads_every_shape() {
    match classify_line("1000,") {
        LineKind::Open { start } => assert_eq!(start, 1000),
        _ => panic!("open record misread"),
    }
    match classify_line("1000,1100") {
        LineKind::Closed { start, end } => {
            assert_eq!(start, 1000);
            assert_eq!(end, 1100);
        }
        _ => panic!("closed record misread"),
    }
    assert!(matches!(classify_line(""), LineKind::NotRecord));
    assert!(matches!(classify_line("1,2,3"), LineKind::NotRecord));
    assert!(matches!(classify_line("plain text"), LineKind::NotRecord));
    assert!(matches!(classify_line("x,1"), LineKind::Corrupt));
    assert!(matches!(classify_line("1,x"), LineKind::Corrupt));
    assert!(matches!(classify_line(","), LineKind::Corrupt));
}

#[test]
fn parse_action_letters() {
    assert!(matches!(parse_action("b"), Some(Action::Begin)));
    assert!(matches!(parse_action("e"), Some(Action::End)));
    assert!(matches!(parse_action("s"), Some(Action::Summarize)));
    assert!(matches!(parse_action(""), None));
    assert!(matches!(parse_action("x"), None));
    assert!(matches!(parse_action("bb"), None));
}

#[test]
fn project_log_path_is_home_relative() {
    let p = Project::new(String::from("side"), Action::Begin);
    assert_eq!(p.log_path(), "~/.rclock-side");
}
