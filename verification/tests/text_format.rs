//! Numbers, amounts, dates and timestamps: parsing accepts the stored
//! shapes exactly and inverts formatting.

use yada::date::{parse_date, parse_timestamp, Date, Timestamp};
use yada::text::{join_char, parse_amount, parse_u32, push_amount, push_u32, split_char};

#[test]
fn parse_u32_accepts_digits() {
    assert_eq!(parse_u32("0"), Some(0));
    assert_eq!(parse_u32("95"), Some(95));
    assert_eq!(parse_u32("4294967295"), Some(u32::MAX));
    assert_eq!(parse_u32("007"), Some(7));
}

#[test]
fn parse_u32_rejects_bad_input() {
    assert_eq!(parse_u32(""), None);
    assert_eq!(parse_u32("12a"), None);
    assert_eq!(parse_u32("-3"), None);
    assert_eq!(parse_u32("4294967296"), None);
    assert_eq!(parse_u32("1 2"), None);
}

#[test]
fn push_u32_renders_decimal() {
    let mut s = String::new();
    push_u32(&mut s, 10500);
    assert_eq!(s, "10500");
}

#[test]
fn amounts_round_trip() {
    let mut s = String::new();
    push_amount(&mut s, 9550);
    assert_eq!(s, "95.50");
    assert_eq!(parse_amount(&s), Some(9550));
}

#[test]
fn parse_amount_accepts_short_fractions() {
    assert_eq!(parse_amount("95"), Some(9500));
    assert_eq!(parse_amount("95.5"), Some(9550));
    assert_eq!(parse_amount("95.55"), Some(9555));
    assert_eq!(parse_amount("0.05"), Some(5));
}

#[test]
fn parse_amount_rejects_bad_input() {
    assert_eq!(parse_amount(""), None);
    assert_eq!(parse_amount("."), None);
    assert_eq!(parse_amount("95."), None);
    assert_eq!(parse_amount("95.555"), None);
    assert_eq!(parse_amount("9a.5"), None);
    assert_eq!(parse_amount("-1"), None);
    assert_eq!(parse_amount("50000000"), None);
}

#[test]
fn split_and_join_invert() {
    let parts = split_char("a|bb||c", '|');
    assert_eq!(parts, vec!["a".to_string(), "bb".to_string(), "".to_string(), "c".to_string()]);
    let joined = join_char(&parts, '|', "|");
    assert_eq!(joined, "a|bb||c");
    assert_eq!(split_char("", ','), vec!["".to_string()]);
}

#[test]
fn dates_check_the_calendar() {
    assert!(Date::from_ymd(2024, 2, 29).is_some());
    assert!(Date::from_ymd(2023, 2, 29).is_none());
    assert!(Date::from_ymd(1900, 2, 29).is_none());
    assert!(Date::from_ymd(2000, 2, 29).is_some());
    assert!(Date::from_ymd(2024, 4, 31).is_none());
    assert!(Date::from_ymd(2024, 0, 1).is_none());
    assert!(Date::from_ymd(0, 1, 1).is_none());
    assert!(Date::from_ymd(10000, 1, 1).is_none());
}

#[test]
fn dates_round_trip() {
    let d = Date::from_ymd(2025, 5, 25).unwrap();
    let text = d.to_text();
    assert_eq!(text, "2025-05-25");
    assert_eq!(parse_date(&text), Some(d));
}

#[test]
fn parse_date_rejects_bad_input() {
    assert_eq!(parse_date("2025-5-25"), None);
    assert_eq!(parse_date("2025/05/25"), None);
    assert_eq!(parse_date("2023-02-29"), None);
    assert_eq!(parse_date("2025-13-01"), None);
    assert_eq!(parse_date(""), None);
    assert_eq!(parse_date("2025-05-25T00:00:00"), None);
}

#[test]
fn date_order_is_chronological() {
    let a = Date::from_ymd(2024, 12, 31).unwrap();
    let b = Date::from_ymd(2025, 1, 1).unwrap();
    assert!(a.le(&b));
    assert!(!b.le(&a));
    assert!(a.le(&a));
}

#[test]
fn timestamps_round_trip() {
    let t = Timestamp { date: Date::from_ymd(2025, 5, 25).unwrap(), hour: 13, minute: 7, second: 9 };
    let text = t.to_text();
    assert_eq!(text, "2025-05-25T13:07:09");
    assert_eq!(parse_timestamp(&text), Some(t));
}

#[test]
fn parse_timestamp_rejects_bad_input() {
    assert_eq!(parse_timestamp("2025-05-25T24:00:00"), None);
    assert_eq!(parse_timestamp("2025-05-25 13:07:09"), None);
    assert_eq!(parse_timestamp("2025-05-25T13:07"), None);
}
