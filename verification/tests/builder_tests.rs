use photo_organizer::gallery;
use photo_organizer::html;

#[test]
fn test_generate_photo_html() {
    let html = html::builder::generate_photo_html("img.jpg", "img.jpg", "img.jpg", "2023-01-01");
    assert!(html.contains("href=\"img.jpg\""));
    assert!(html.contains("src=\"img.jpg\""));
    assert!(html.contains("alt=\"img.jpg\""));
    assert!(html.contains("class=\"date\">2023-01-01</span>"));
}

#[test]
fn test_build_html_basic() {
    let root = "/tmp/root";
    let subdirs: Vec<String> = vec![];
    let images: Vec<String> = vec![];
    let flattened: Vec<String> = vec![];

    let html = html::build_html(root, root, &subdirs, &images, &flattened);

    assert!(html.contains("<title>Photo Collection</title>"));
    assert!(html.contains("<h1>Photo Collection</h1>"));
    assert!(!html.contains("id=\"toggle-btn\"")); // No toggle button
    assert!(html.contains("id=\"directory-view\" style=\"\"")); // Visible dir view
}

#[test]
fn test_build_html_with_flattened() {
    let root = "/tmp/root";
    let current = "/tmp/root/2023/01";
    let subdirs = vec!["/tmp/root/2023/01/01".to_string()]; // One subdir
    let images: Vec<String> = vec![];
    let flattened = vec!["01/img.jpg".to_string()];

    let html = html::build_html(current, root, &subdirs, &images, &flattened);

    assert!(html.contains("<title>2023/01</title>"));
    assert!(html.contains("Show Days")); // Toggle present
    assert!(html.contains("id=\"directory-view\" style=\"display: none;\"")); // Hidden dir view
    assert!(html.contains("id=\"flattened-gallery\""));
    assert!(html.contains("01/img.jpg"));
}

#[test]
fn test_build_html_breadcrumbs() {
    let root = "/tmp/root";
    let current = "/tmp/root/2023/01/01";
    let empty: Vec<String> = vec![];
    let html = html::build_html(current, root, &empty, &empty, &empty);

    assert!(html.contains("href=\"../../../collection.html\"")); // 3 levels up
    assert!(html.contains("2023"));
    assert!(html.contains("01"));
}

#[test]
fn builder_test_generate_photo_html() {
    let html = gallery::builder::generate_photo_html(
        "img.jpg",
        "img.jpg",
        "img.jpg",
        "2023-01-01",
        false,
    );
    assert!(html.contains("href=\"img.jpg\""));
    assert!(html.contains("src=\"img.jpg\""));
    assert!(html.contains("data-type=\"image\""));
    assert!(!html.contains("play-icon"));

    let html_vid = gallery::builder::generate_photo_html(
        "vid.mp4",
        ".thumbnails/vid.mp4.jpg",
        "vid.mp4",
        "2023-01-01",
        true,
    );
    assert!(html_vid.contains("href=\"vid.mp4\""));
    assert!(html_vid.contains("src=\".thumbnails/vid.mp4.jpg\""));
    assert!(html_vid.contains("data-type=\"video\""));
    assert!(html_vid.contains("play-icon"));
}

#[test]
fn builder_test_build_html_basic() {
    let root = "/tmp/root";
    let subdirs: Vec<String> = vec![];
    let images: Vec<String> = vec![];
    let flattened: Vec<String> = vec![];

    let html = gallery::build_html(root, root, &subdirs, &images, &flattened);

    assert!(html.contains("<h1>Photo Collection</h1>"));
    assert!(!html.contains("id=\"toggle-btn\"")); // No toggle button
    assert!(html.contains("id=\"directory-view\" style=\"\"")); // Visible dir view
}

#[test]
fn builder_test_build_html_with_flattened() {
    let root = "/tmp/root";
    let current = "/tmp/root/2023/01";
    let subdirs = vec!["/tmp/root/2023/01/01".to_string()]; // One subdir
    let images: Vec<String> = vec![];
    let flattened = vec!["01/img.jpg".to_string()];

    let html = gallery::build_html(current, root, &subdirs, &images, &flattened);

    assert!(html.contains("<title>2023/01</title>"));
    assert!(html.contains("id=\"toggle-btn\"")); // Toggle present
    assert!(html.contains("id=\"directory-view\" style=\"display: none;\"")); // Hidden dir view
    assert!(html.contains("id=\"flattened-gallery\""));
    assert!(html.contains("01/img.jpg"));
}

#[test]
fn builder_test_build_html_breadcrumbs() {
    let root = "/tmp/root";
    let current = "/tmp/root/2023/01/01";
    let empty: Vec<String> = vec![];
    let html = gallery::build_html(current, root, &empty, &empty, &empty);

    assert!(html.contains("href=\"../../../collection.html\"")); // 3 levels up
    assert!(html.contains("2023"));
    assert!(html.contains("01"));
}

#[test]
fn test_build_html_flattened_video_thumbnail() {
    let root = "/tmp/root";
    let current = "/tmp/root/2023/01";
    let subdirs = vec!["/tmp/root/2023/01/01".to_string()];
    let images: Vec<String> = vec![];
    let flattened = vec!["01/vid.mp4".to_string()];

    let html = gallery::build_html(current, root, &subdirs, &images, &flattened);

    assert!(html.contains("href=\"01/vid.mp4\""));
    assert!(html.contains("src=\"01/.thumbnails/vid.mp4.jpg\""));
    assert!(html.contains("data-type=\"video\""));
}

#[test]
fn test_build_html_dated_card() {
    // An image directly below a day directory carries its re-derived
    // date.
    let root = "/tmp/root";
    let current = "/tmp/root/2023/05/20";
    let subdirs: Vec<String> = vec![];
    let images = vec!["/tmp/root/2023/05/20/img.jpg".to_string()];
    let flattened: Vec<String> = vec![];

    let html = html::build_html(current, root, &subdirs, &images, &flattened);
    assert!(html.contains("class=\"date\">2023-05-20</span>"));
    assert!(html.contains("<h2>Photos</h2>"));
}

#[test]
fn test_page_emission_rules() {
    assert!(html::builder::should_emit_page(0, 0, true));
    assert!(html::builder::should_emit_page(1, 0, false));
    assert!(html::builder::should_emit_page(0, 3, false));
    assert!(!html::builder::should_emit_page(0, 0, false));
    assert_eq!(html::builder::page_file_name(true), "collection.html");
    assert_eq!(html::builder::page_file_name(false), "index.html");
    assert!(html::builder::wants_flattened_view(2, 1));
    assert!(!html::builder::wants_flattened_view(2, 0));
    assert!(!html::builder::wants_flattened_view(3, 1));
}
