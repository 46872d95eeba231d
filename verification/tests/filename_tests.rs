use photo_organizer::metadata::parse_filename_date;

#[test]
fn test_filename_date_extraction_std() {
    let date = parse_filename_date("IMG_20230520_120000.jpg").unwrap();
    assert_eq!(date.year(), 2023);
    assert_eq!(date.month(), 5);
    assert_eq!(date.day(), 20);

    let date = parse_filename_date("2022-12-01.jpg").unwrap();
    assert_eq!(date.year(), 2022);
    assert_eq!(date.month(), 12);
    assert_eq!(date.day(), 1);
}

#[test]
fn test_filename_date_extraction_dmy() {
    // WhatsApp style sometimes uses this or similar
    let date = parse_filename_date("IMG-25102023-WA0001.jpg").unwrap();
    assert_eq!(date.year(), 2023);
    assert_eq!(date.month(), 10);
    assert_eq!(date.day(), 25);
}

#[test]
fn test_filename_no_date() {
    assert!(parse_filename_date("random_image.jpg").is_none());
}

#[test]
fn test_filename_any_nondigit_separator() {
    // The separator of the standard pattern is any single non-digit.
    let date = parse_filename_date("2023.05.20.jpg").unwrap();
    assert_eq!(date.year(), 2023);
    assert_eq!(date.month(), 5);
    assert_eq!(date.day(), 20);

    let date = parse_filename_date("photo 2024 01 02.png").unwrap();
    assert_eq!(date.year(), 2024);
    assert_eq!(date.month(), 1);
    assert_eq!(date.day(), 2);
}

#[test]
fn test_filename_date_is_noon() {
    let date = parse_filename_date("2022-12-01.jpg").unwrap();
    assert_eq!(date.hour, 12);
    assert_eq!(date.minute, 0);
    assert_eq!(date.second, 0);
}

#[test]
fn test_filename_year_out_of_range_falls_through() {
    // The standard pattern matches 1969-07-20, but its year is out of
    // range, and no eight-digit run exists: no date.
    assert!(parse_filename_date("scan_1969-07-20.jpg").is_none());
    // Only the leftmost standard match counts; a later valid one does
    // not rescue the filename.
    assert!(parse_filename_date("0000-00-00_2023-05-20.jpg").is_none());
}

#[test]
fn test_filename_invalid_date_falls_through_to_dmy() {
    // 2023-13-40 is no valid date; the same digits read day-month-year
    // are not valid either, but the separate eight-digit run is.
    let date = parse_filename_date("x2023-13-40y_31122001.jpg").unwrap();
    assert_eq!(date.year(), 2001);
    assert_eq!(date.month(), 12);
    assert_eq!(date.day(), 31);
}

#[test]
fn test_filename_dmy_invalid_yields_none() {
    // The leftmost eight-digit run decides: 99999999 is no date.
    assert!(parse_filename_date("99999999.jpg").is_none());
}
