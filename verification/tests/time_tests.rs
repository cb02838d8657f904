use chrono::{Datelike, TimeZone, Timelike, Utc};
use pyroduct::time::{Time, MAX_TIMESTAMP_SECS, MIN_TIMESTAMP_SECS};

fn to_datetime(t: &Time) -> chrono::DateTime<Utc> {
    let (secs, nsecs) = t.split();
    Utc.timestamp_opt(secs, nsecs).single().expect("in range")
}

#[test]
fn test_struct_equality_logic() {
    let t1 = Time(10_000_000_100);
    let t2 = Time(10_000_000_900);
    assert_eq!(
        t1, t2,
        "Seconds match, so they are Equal per implementation"
    );
}

#[test]
fn instants_in_different_seconds_differ() {
    assert_ne!(Time(999_999_999), Time(1_000_000_000));
    // Negative instants round down to the earlier second.
    assert_eq!(Time(-1), Time(-999_999_999));
    assert_ne!(Time(-1), Time(0));
}

#[test]
fn test_serde_full_iso() {
    let dt = Utc.timestamp_opt(1609459200, 0).unwrap(); // 2021-01-01 00:00:00 UTC
    let t = Time::from_timestamp(dt.timestamp(), dt.timestamp_subsec_nanos());

    let serialized = t.to_iso8601();
    assert_eq!(serialized, "2021-01-01T00:00:00+00:00");

    let deserialized = Time::parse_str(&serialized).unwrap();
    assert_eq!(t.0, deserialized.0);
}

#[test]
fn test_serde_partial_date_only() {
    let t = Time::parse_str("2023-11-25").unwrap();

    let dt = to_datetime(&t);
    assert_eq!(dt.year(), 2023);
    assert_eq!(dt.month(), 11);
    assert_eq!(dt.day(), 25);
    assert_eq!(dt.hour(), 0);
}

#[test]
fn test_serde_partial_cut_off_seconds() {
    let t = Time::parse_str("2023-11-25T14:30").unwrap();

    let dt = to_datetime(&t);
    assert_eq!(dt.hour(), 14);
    assert_eq!(dt.minute(), 30);
    assert_eq!(dt.second(), 0);
}

#[test]
fn test_serde_partial_cut_off_minutes() {
    let t = Time::parse_str("2023-11-25T14").unwrap();

    let dt = to_datetime(&t);
    assert_eq!(dt.hour(), 14);
    assert_eq!(dt.minute(), 0);
}

#[test]
fn test_serde_space_separator() {
    let t = Time::parse_str("2023-11-25 14:30:00").unwrap();
    let dt = to_datetime(&t);
    assert_eq!(dt.hour(), 14);
}

#[test]
fn test_serde_invalid_format() {
    assert!(Time::parse_str("not-a-date").is_none());
}

#[test]
fn fractional_seconds_and_zones_are_read() {
    let t = Time::parse_str("2023-11-25T14:30:00.25").unwrap();
    assert_eq!(t.split().1, 250_000_000);
    let z = Time::parse_str("2023-11-25T15:30:00+01:00").unwrap();
    assert_eq!(z.split().0, Time::parse_str("2023-11-25T14:30:00Z").unwrap().split().0);
}

#[test]
fn split_rounds_down_for_negative_instants() {
    let t = Time(-1);
    assert_eq!(t.split(), (-1, 999_999_999));
    let u = Time::from_timestamp(-5, 7);
    assert_eq!(u.0, -4_999_999_993);
    assert_eq!(u.split(), (-5, 7));
}

#[test]
fn iso_text_at_chrono_limits() {
    assert!(Time::from_timestamp(MAX_TIMESTAMP_SECS, 0).try_to_iso8601().is_ok());
    assert!(Time::from_timestamp(MIN_TIMESTAMP_SECS, 0).try_to_iso8601().is_ok());
    assert_eq!(
        Time::from_timestamp(MAX_TIMESTAMP_SECS + 1, 0).try_to_iso8601(),
        Err("Invalid timestamp or out of range for Chrono")
    );
    assert_eq!(
        Time::from_timestamp(MIN_TIMESTAMP_SECS - 1, 0).try_to_iso8601(),
        Err("Invalid timestamp or out of range for Chrono")
    );
}

#[test]
fn iso_text_reports_overflowing_seconds() {
    // 2^63 seconds cut to 64 bits is negative.
    let t = Time((1i128 << 63) * 1_000_000_000);
    assert_eq!(t.try_to_iso8601(), Err("Timestamp overflowed positive i64 seconds"));
    let u = Time(-((1i128 << 63) + 1) * 1_000_000_000);
    assert_eq!(u.try_to_iso8601(), Err("Timestamp overflowed negative i64 seconds"));
}
