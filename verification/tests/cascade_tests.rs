use photo_organizer::date_utils::UtcDateTime;
use photo_organizer::metadata::{
    determine_date, exif_date_from_bytes, exif_date_from_fields, parse_exif_datetime,
    parse_filename_date, resolve_date, sidecar_candidates, sidecar_date_from_text,
};

#[test]
fn test_parse_exif_datetime_formats() {
    let d = parse_exif_datetime("2023:05:20 12:34:56").unwrap();
    assert_eq!((d.year, d.month, d.day), (2023, 5, 20));
    assert_eq!((d.hour, d.minute, d.second), (12, 34, 56));

    let d = parse_exif_datetime("2023-05-20 12:34:56").unwrap();
    assert_eq!((d.year, d.month, d.day), (2023, 5, 20));

    // Surrounding whitespace is trimmed before parsing.
    let d = parse_exif_datetime("  2023:05:20 12:34:56\n").unwrap();
    assert_eq!(d.day, 20);
}

#[test]
fn test_parse_exif_datetime_rejects_malformed() {
    assert!(parse_exif_datetime("2023:13:01 00:00:00").is_none());
    assert!(parse_exif_datetime("2023:02:30 00:00:00").is_none());
    assert!(parse_exif_datetime("2023:05:20 24:00:00").is_none());
    assert!(parse_exif_datetime("2023:05-20 10:00:00").is_none());
    assert!(parse_exif_datetime("not a date").is_none());
    assert!(parse_exif_datetime("").is_none());
}

#[test]
fn test_exif_field_preference_order() {
    // The first present tag wins, even over later parsable ones.
    let d = exif_date_from_fields(
        Some("2023:05:20 10:00:00".to_string()),
        Some("2022:01:01 00:00:00".to_string()),
        Some("2021:01:01 00:00:00".to_string()),
    )
    .unwrap();
    assert_eq!(d.year, 2023);

    let d = exif_date_from_fields(None, Some("2022:01:01 00:00:00".to_string()), None).unwrap();
    assert_eq!(d.year, 2022);

    // A present but unparsable first tag yields nothing.
    assert!(
        exif_date_from_fields(
            Some("garbage".to_string()),
            Some("2022:01:01 00:00:00".to_string()),
            None
        )
        .is_none()
    );
}

/// A minimal TIFF whose sole field is the generic date/time tag.
fn tiff_with_datetime() -> Vec<u8> {
    let mut b: Vec<u8> = Vec::new();
    b.extend_from_slice(b"II\x2a\x00"); // little-endian TIFF
    b.extend_from_slice(&8u32.to_le_bytes()); // IFD0 offset
    b.extend_from_slice(&1u16.to_le_bytes()); // one entry
    b.extend_from_slice(&0x0132u16.to_le_bytes()); // DateTime
    b.extend_from_slice(&2u16.to_le_bytes()); // ASCII
    b.extend_from_slice(&20u32.to_le_bytes()); // twenty bytes
    b.extend_from_slice(&26u32.to_le_bytes()); // value offset
    b.extend_from_slice(&0u32.to_le_bytes()); // no next IFD
    b.extend_from_slice(b"2023:05:20 12:00:00\0");
    b
}

#[test]
fn test_exif_date_from_container_bytes() {
    let bytes = tiff_with_datetime();
    let d = exif_date_from_bytes(&bytes).unwrap();
    assert_eq!((d.year, d.month, d.day), (2023, 5, 20));
    assert_eq!(d.hour, 12);
}

#[test]
fn test_exif_date_from_junk_bytes() {
    let bytes: Vec<u8> = b"not an image at all".to_vec();
    assert!(exif_date_from_bytes(&bytes).is_none());
}

#[test]
fn test_sidecar_photo_taken_time_preferred() {
    let json = "{\"photoTakenTime\":{\"timestamp\":\"1672531200\"},\
                 \"creationTime\":{\"timestamp\":\"0\"}}";
    let d = sidecar_date_from_text(json).unwrap();
    assert_eq!((d.year, d.month, d.day), (2023, 1, 1));
}

#[test]
fn test_sidecar_creation_time_fallback() {
    let json = "{\"creationTime\":{\"timestamp\":\"1672531200\"}}";
    let d = sidecar_date_from_text(json).unwrap();
    assert_eq!(d.year, 2023);
}

#[test]
fn test_sidecar_bad_taken_time_does_not_fall_back() {
    // A present photo-taken entry is decisive, even when unparsable.
    let json = "{\"photoTakenTime\":{\"timestamp\":\"oops\"},\
                 \"creationTime\":{\"timestamp\":\"1672531200\"}}";
    assert!(sidecar_date_from_text(json).is_none());
}

#[test]
fn test_sidecar_invalid_json() {
    assert!(sidecar_date_from_text("{not json").is_none());
    assert!(sidecar_date_from_text("{}").is_none());
    assert!(sidecar_date_from_text("{\"photoTakenTime\":{}}").is_none());
}

#[test]
fn test_sidecar_candidates_order() {
    let (full, stem) = sidecar_candidates("dir/photo.jpg");
    assert_eq!(full, "dir/photo.jpg.json".to_string());
    assert_eq!(stem, "dir/photo.json".to_string());

    let (full, stem) = sidecar_candidates("noext");
    assert_eq!(full, "noext.json".to_string());
    assert_eq!(stem, "noext.json".to_string());

    let (full, stem) = sidecar_candidates(".hidden");
    assert_eq!(full, ".hidden.json".to_string());
    assert_eq!(stem, ".hidden.json".to_string());
}

fn noon(y: u16, m: u8, d: u8) -> UtcDateTime {
    UtcDateTime { year: y, month: m, day: d, hour: 12, minute: 0, second: 0 }
}

#[test]
fn test_resolve_date_sidecar_wins() {
    let s = Some(noon(2023, 1, 1));
    let e = Some(noon(2022, 2, 2));
    let f = Some(noon(2021, 3, 3));
    assert_eq!(resolve_date(s, e, f), s);
    assert_eq!(resolve_date(None, e, f), e);
    assert_eq!(resolve_date(None, None, f), f);
    assert_eq!(resolve_date(None, None, None), None);
}

#[test]
fn test_determine_date_sidecar_beats_embedded() {
    // Both a sidecar and embedded metadata are present and valid: the
    // sidecar value wins.
    let json = "{\"photoTakenTime\":{\"timestamp\":\"1672531200\"}}";
    let bytes = tiff_with_datetime();
    let d = determine_date(Some(json), None, Some(&bytes), "IMG_20210101_000000.jpg").unwrap();
    assert_eq!((d.year, d.month, d.day), (2023, 1, 1));
}

#[test]
fn test_determine_date_embedded_beats_filename() {
    let bytes = tiff_with_datetime();
    let d = determine_date(None, None, Some(&bytes), "IMG_20210101_000000.jpg").unwrap();
    assert_eq!((d.year, d.month, d.day), (2023, 5, 20));
}

#[test]
fn test_determine_date_filename_fallback() {
    let d = determine_date(None, None, None, "IMG_20210101_000000.jpg").unwrap();
    assert_eq!((d.year, d.month, d.day), (2021, 1, 1));
    assert!(determine_date(None, None, None, "random_image.jpg").is_none());
    // The stem sidecar candidate is consulted when the full one is absent.
    let json = "{\"creationTime\":{\"timestamp\":\"0\"}}";
    let d = determine_date(None, Some(json), None, "random_image.jpg").unwrap();
    assert_eq!(d.year, 1970);
}

#[test]
fn test_sidecar_candidate_order() {
    // Both candidate sidecars exist with different valid timestamps:
    // the appended-extension candidate decides.
    let full = "{\"photoTakenTime\":{\"timestamp\":\"1672531200\"}}"; // 2023-01-01
    let stem = "{\"photoTakenTime\":{\"timestamp\":\"0\"}}"; // 1970-01-01
    let d = determine_date(Some(full), Some(stem), None, "x.jpg").unwrap();
    assert_eq!(d.year, 2023);
}

#[test]
fn test_sidecar_malformed_first_falls_through() {
    // A malformed first candidate behaves as if absent: the stem
    // candidate is still consulted.
    let full = "{not json";
    let stem = "{\"creationTime\":{\"timestamp\":\"1672531200\"}}";
    let d = determine_date(Some(full), Some(stem), None, "x.jpg").unwrap();
    assert_eq!(d.year, 2023);
}

#[test]
fn test_filename_and_exif_disagree() {
    // Without sidecar or bytes, only the filename decides.
    let d = parse_filename_date("IMG_20230520_120000.jpg").unwrap();
    let via_cascade = determine_date(None, None, None, "IMG_20230520_120000.jpg").unwrap();
    assert_eq!(d, via_cascade);
}
