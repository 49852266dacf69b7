use kanttiinit::hours::{evaluate_opening_hours, is_open_now, parse_opening_hours, OpenStatus};
use kanttiinit::MenuError;

fn minutes(h: u32, m: u32) -> u32 {
    h * 60 + m
}

#[test]
fn parses_plain_window() {
    let r = parse_opening_hours("10:30-14:00").unwrap();
    assert_eq!(r, (minutes(10, 30), minutes(14, 0)));
}

#[test]
fn parses_window_with_whitespace_around_dash() {
    let r = parse_opening_hours("10:30 - 14:00").unwrap();
    assert_eq!(r, (minutes(10, 30), minutes(14, 0)));
    let r = parse_opening_hours("  8:00-9:05  ").unwrap();
    assert_eq!(r, (minutes(8, 0), minutes(9, 5)));
}

#[test]
fn rejects_missing_dash() {
    assert_eq!(parse_opening_hours("10:30"), Err(MenuError::Parse));
    assert_eq!(parse_opening_hours(""), Err(MenuError::Parse));
}

#[test]
fn rejects_non_numeric() {
    assert_eq!(parse_opening_hours("ab:cd-10:00"), Err(MenuError::Parse));
    assert_eq!(parse_opening_hours("10:30-14:0x"), Err(MenuError::Parse));
    assert_eq!(parse_opening_hours("10:-14:00"), Err(MenuError::Parse));
}

#[test]
fn rejects_out_of_range_hour_and_minute() {
    assert_eq!(parse_opening_hours("24:00-25:00"), Err(MenuError::Parse));
    assert_eq!(parse_opening_hours("10:60-11:00"), Err(MenuError::Parse));
    assert_eq!(parse_opening_hours("10:00-23:60"), Err(MenuError::Parse));
}

#[test]
fn rejects_missing_colon_side() {
    assert_eq!(parse_opening_hours("1030-14:00"), Err(MenuError::Parse));
    assert_eq!(parse_opening_hours("10:30-1400"), Err(MenuError::Parse));
}

#[test]
fn no_entry_is_closed() {
    let r = evaluate_opening_hours(&None, minutes(12, 0)).unwrap();
    assert_eq!(r, OpenStatus::Closed);
}

#[test]
fn open_inside_window_with_truncated_remainder() {
    // 12:15 inside 10:30-14:00: 105 minutes remain, reported as 1h 45m.
    let entry = Some("10:30-14:00".to_string());
    let r = evaluate_opening_hours(&entry, minutes(12, 15)).unwrap();
    assert_eq!(r, OpenStatus::Open { hours_left: 1, minutes_left: 45 });
}

#[test]
fn open_is_inclusive_at_both_ends() {
    let entry = Some("10:30-14:00".to_string());
    let at_start = evaluate_opening_hours(&entry, minutes(10, 30)).unwrap();
    assert_eq!(at_start, OpenStatus::Open { hours_left: 3, minutes_left: 30 });
    let at_end = evaluate_opening_hours(&entry, minutes(14, 0)).unwrap();
    assert_eq!(at_end, OpenStatus::Open { hours_left: 0, minutes_left: 0 });
}

#[test]
fn closed_outside_window_keeps_raw_string() {
    let entry = Some("10:30-14:00".to_string());
    let before = evaluate_opening_hours(&entry, minutes(10, 29)).unwrap();
    assert_eq!(before, OpenStatus::ClosedNow { hours: "10:30-14:00".to_string() });
    let after = evaluate_opening_hours(&entry, minutes(14, 1)).unwrap();
    assert_eq!(after, OpenStatus::ClosedNow { hours: "10:30-14:00".to_string() });
}

#[test]
fn malformed_entry_is_parse_error_not_panic() {
    let entry = Some("whenever".to_string());
    assert_eq!(evaluate_opening_hours(&entry, minutes(12, 0)), Err(MenuError::Parse));
}

#[test]
fn minutes_remainder_is_always_below_sixty() {
    let entry = Some("00:00-23:59".to_string());
    for now in [0u32, 1, 59, 60, 61, 719, 720, 1439] {
        match evaluate_opening_hours(&entry, now).unwrap() {
            OpenStatus::Open { minutes_left, .. } => assert!(minutes_left < 60),
            other => panic!("expected open, got {:?}", other),
        }
    }
}

#[test]
fn closed_filter_degrades_malformed_to_closed() {
    assert!(!is_open_now(&Some("garbage".to_string()), minutes(12, 0)));
    assert!(!is_open_now(&Some("10:30-14:00-18:00".to_string()), minutes(12, 0)));
    assert!(!is_open_now(&None, minutes(12, 0)));
}

#[test]
fn closed_filter_true_only_inside_window() {
    let entry = Some("09:00-17:00".to_string());
    assert!(is_open_now(&entry, minutes(9, 0)));
    assert!(is_open_now(&entry, minutes(12, 34)));
    assert!(is_open_now(&entry, minutes(17, 0)));
    assert!(!is_open_now(&entry, minutes(8, 59)));
    assert!(!is_open_now(&entry, minutes(17, 1)));
}
