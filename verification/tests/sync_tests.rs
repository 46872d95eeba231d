use photo_organizer::date_utils::UtcDateTime;
use photo_organizer::fs_ops::{decide_sync, destination_path, destination_subdir, SyncDecision};
use photo_organizer::stats::RunStatistics;

#[test]
fn test_sync_new_then_skipped() {
    // First run: nothing at the destination yet.
    assert_eq!(decide_sync(None, 1234), SyncDecision::New);
    // Second run with unchanged source content: same length, skipped.
    assert_eq!(decide_sync(Some(1234), 1234), SyncDecision::Skipped);
}

#[test]
fn test_sync_update_on_size_change() {
    assert_eq!(decide_sync(None, 1234), SyncDecision::New);
    // The source grew between the runs.
    assert_eq!(decide_sync(Some(1234), 2000), SyncDecision::Updated);
}

#[test]
fn test_sync_same_size_is_skipped() {
    // The documented blind spot: equal lengths pass as synchronized.
    assert_eq!(decide_sync(Some(10), 10), SyncDecision::Skipped);
    assert_eq!(decide_sync(Some(0), 0), SyncDecision::Skipped);
}

fn noon(y: u16, m: u8, d: u8) -> UtcDateTime {
    UtcDateTime { year: y, month: m, day: d, hour: 12, minute: 0, second: 0 }
}

#[test]
fn test_destination_layout_dated() {
    let sub = destination_subdir(Some(noon(2023, 5, 20)), "unknown");
    assert_eq!(sub, "2023/05/20".to_string());
    let path = destination_path("/out", Some(noon(2023, 5, 20)), "unknown", "img.jpg");
    assert_eq!(path, "/out/2023/05/20/img.jpg".to_string());
    // Unpadded year, zero-padded month and day.
    let path = destination_path("/out", Some(noon(987, 1, 2)), "unknown", "x.png");
    assert_eq!(path, "/out/987/01/02/x.png".to_string());
}

#[test]
fn test_destination_layout_unknown_bucket() {
    let path = destination_path("/out", None, "unknown", "mystery.bin");
    assert_eq!(path, "/out/unknown/mystery.bin".to_string());
}

#[test]
fn test_statistics_counters_add_up() {
    let mut stats = RunStatistics::new();
    stats.record_decision(SyncDecision::New, "a.jpg".to_string());
    stats.record_decision(SyncDecision::Updated, "b.jpg".to_string());
    stats.record_decision(SyncDecision::Skipped, "c.jpg".to_string());
    stats.record_error();
    stats.record_decision(SyncDecision::New, "d.jpg".to_string());

    assert_eq!(stats.success_count, 3);
    assert_eq!(stats.skipped_count, 1);
    assert_eq!(stats.error_count, 1);
    // The aggregate invariant: one count per processed file.
    assert_eq!(stats.success_count + stats.skipped_count + stats.error_count, 5);
    // Only files placed as New are reported.
    assert_eq!(stats.new_files, vec!["a.jpg".to_string(), "d.jpg".to_string()]);
}
