use zelland::watcher::{asset_url, detect_file_type, watched_file_type, FileType};

#[test]
fn test_detect_file_type_markdown() {
    assert_eq!(detect_file_type("README.md"), FileType::Markdown);
}

#[test]
fn test_detect_file_type_images() {
    assert_eq!(detect_file_type("photo.png"), FileType::Image);
    assert_eq!(detect_file_type("photo.jpg"), FileType::Image);
    assert_eq!(detect_file_type("photo.jpeg"), FileType::Image);
    assert_eq!(detect_file_type("icon.svg"), FileType::Image);
}

#[test]
fn test_detect_file_type_pdf() {
    assert_eq!(detect_file_type("doc.pdf"), FileType::Pdf);
}

#[test]
fn test_detect_file_type_unknown() {
    assert_eq!(detect_file_type("data.csv"), FileType::Unknown);
    assert_eq!(detect_file_type("noext"), FileType::Unknown);
}

#[test]
fn detect_file_type_uses_last_extension() {
    assert_eq!(detect_file_type("archive.md.gif"), FileType::Image);
    assert_eq!(detect_file_type(".md"), FileType::Unknown);
    assert_eq!(detect_file_type("dir.pdf/file"), FileType::Unknown);
}

#[test]
fn watched_file_type_skips_hidden_and_unknown() {
    assert_eq!(watched_file_type("/p/docs/a.md"), Some(FileType::Markdown));
    assert_eq!(watched_file_type("/p/.zelland/a.md"), None);
    assert_eq!(watched_file_type("/p/.a.md.zelland"), None);
    assert_eq!(watched_file_type("/p/data.csv"), None);
    assert_eq!(watched_file_type("/p/x.webp"), Some(FileType::Image));
}

#[test]
fn asset_url_has_timestamp() {
    assert_eq!(asset_url("abc", 1700000000), "/assets/abc?t=1700000000");
    assert_eq!(asset_url("x", -5), "/assets/x?t=-5");
}
