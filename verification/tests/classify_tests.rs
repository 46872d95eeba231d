use photo_organizer::fs_ops::should_process_file;
use photo_organizer::html::utils::{get_date_from_path, is_image};

#[test]
fn test_should_process_file() {
    assert!(should_process_file("photo.jpg", false));
    assert!(should_process_file("video.mp4", false));
    assert!(should_process_file("IMAGE.PNG", false));

    // Should reject
    assert!(!should_process_file("metadata.json", false));
    assert!(!should_process_file("no_extension", false));
    assert!(!should_process_file(".hidden", false));
}

#[test]
fn test_should_process_rejects_directories() {
    assert!(!should_process_file("some.dir", true));
    assert!(!should_process_file("2023", true));
}

#[test]
fn test_should_process_case_insensitive_json() {
    assert!(!should_process_file("Meta.JSON", false));
    assert!(!should_process_file("a/b/meta.Json", false));
    assert!(should_process_file("a/b/photo.JPeG", false));
    assert!(!should_process_file("trailing_dot.", false));
}

#[test]
fn test_is_image() {
    assert!(is_image("photo.jpg"));
    assert!(is_image("photo.JPG"));
    assert!(is_image("image.png"));
    assert!(is_image("image.heic"));

    assert!(!is_image("video.mp4"));
    assert!(!is_image("text.txt"));
    assert!(!is_image("no_ext"));
}

#[test]
fn test_is_video() {
    assert!(photo_organizer::gallery::is_video("clip.mp4"));
    assert!(photo_organizer::gallery::is_video("clip.MOV"));
    assert!(!photo_organizer::gallery::is_video("photo.jpg"));
    assert!(!photo_organizer::gallery::is_video("no_ext"));
}

#[test]
fn test_get_date_from_path() {
    let root = "/tmp/output";

    // Valid path
    let path = "/tmp/output/2023/05/20/img.jpg";
    assert_eq!(get_date_from_path(path, root), Some("2023-05-20".to_string()));

    // Valid path with deep nesting (still works if structure is preserved at start)
    let path = "/tmp/output/2023/05/20/extra/img.jpg";
    assert_eq!(get_date_from_path(path, root), Some("2023-05-20".to_string()));

    // Too short
    let path = "/tmp/output/2023/05/img.jpg";
    assert_eq!(get_date_from_path(path, root), None);

    // Non-numeric
    let path = "/tmp/output/unknown/folder/img.jpg";
    assert_eq!(get_date_from_path(path, root), None);

    // Mixed numeric/non-numeric
    let path = "/tmp/output/2023/May/20/img.jpg";
    assert_eq!(get_date_from_path(path, root), None);

    // Path not relative to root
    let path = "/other/path/2023/05/20/img.jpg";
    assert_eq!(get_date_from_path(path, root), None);
}
