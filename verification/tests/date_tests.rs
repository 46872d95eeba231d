use photo_organizer::date_utils::{naive_to_utc, timestamp_string_to_date};

#[test]
fn test_naive_to_utc_valid() {
    let date = naive_to_utc(2023, 10, 25).unwrap();
    assert_eq!(date.year(), 2023);
    assert_eq!(date.month(), 10);
    assert_eq!(date.day(), 25);
}

#[test]
fn test_naive_to_utc_invalid() {
    assert!(naive_to_utc(2023, 02, 30).is_none()); // Feb 30th does not exist
    assert!(naive_to_utc(2023, 13, 01).is_none()); // Month 13 does not exist
}

#[test]
fn test_naive_to_utc_noon_anchor() {
    let date = naive_to_utc(2022, 12, 1).unwrap();
    assert_eq!(date.hour, 12);
    assert_eq!(date.minute, 0);
    assert_eq!(date.second, 0);
}

#[test]
fn test_timestamp_string_to_date() {
    // 1672531200 = 2023-01-01 00:00:00 UTC
    let date = timestamp_string_to_date("1672531200").unwrap();
    assert_eq!(date.year(), 2023);
    assert_eq!(date.month(), 1);
    assert_eq!(date.day(), 1);
}

#[test]
fn test_timestamp_invalid() {
    assert!(timestamp_string_to_date("invalid").is_none());
}

#[test]
fn test_timestamp_epoch_start() {
    let date = timestamp_string_to_date("0").unwrap();
    assert_eq!(date.year(), 1970);
    assert_eq!(date.month(), 1);
    assert_eq!(date.day(), 1);
    assert_eq!(date.hour, 0);
}

#[test]
fn test_timestamp_leap_day() {
    // 1709164800 = 2024-02-29 00:00:00 UTC
    let date = timestamp_string_to_date("1709164800").unwrap();
    assert_eq!(date.year(), 2024);
    assert_eq!(date.month(), 2);
    assert_eq!(date.day(), 29);
}

#[test]
fn test_timestamp_end_of_year() {
    // 1704067199 = 2023-12-31 23:59:59 UTC
    let date = timestamp_string_to_date("1704067199").unwrap();
    assert_eq!(date.year(), 2023);
    assert_eq!(date.month(), 12);
    assert_eq!(date.day(), 31);
    assert_eq!(date.hour, 23);
    assert_eq!(date.minute, 59);
    assert_eq!(date.second, 59);
}

#[test]
fn test_timestamp_with_sign() {
    let date = timestamp_string_to_date("+1672531200").unwrap();
    assert_eq!(date.year(), 2023);
    // Instants before the epoch are outside the supported range.
    assert!(timestamp_string_to_date("-1").is_none());
}

#[test]
fn test_timestamp_far_future_unrepresentable() {
    assert!(timestamp_string_to_date("99999999999999999999").is_none());
    assert!(timestamp_string_to_date("").is_none());
    assert!(timestamp_string_to_date("+").is_none());
    assert!(timestamp_string_to_date("12a3").is_none());
}
