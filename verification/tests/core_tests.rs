use tidyfs::category::determine_category;
use tidyfs::category::FileCategory;
use tidyfs::config::TidyConfig;
use tidyfs::dups::find_duplicates;
use tidyfs::hashing::calculate_hash;
use tidyfs::report::format_size;
use tidyfs::scan::FileInfo;

#[test]
fn test_determine_category() {
    let config = TidyConfig::default();

    assert!(matches!(
        determine_category("test.pdf", &config),
        FileCategory::Document
    ));
    assert!(matches!(
        determine_category("test.docx", &config),
        FileCategory::Document
    ));

    assert!(matches!(
        determine_category("test.jpg", &config),
        FileCategory::Image
    ));
    assert!(matches!(
        determine_category("test.png", &config),
        FileCategory::Image
    ));

    assert!(matches!(
        determine_category("test.rs", &config),
        FileCategory::Code
    ));
    assert!(matches!(
        determine_category("test.py", &config),
        FileCategory::Code
    ));

    assert!(matches!(
        determine_category("test.xyz", &config),
        FileCategory::Other(ext) if ext == "xyz"
    ));

    assert!(matches!(
        determine_category("test", &config),
        FileCategory::Other(ext) if ext == "unknown"
    ));
}

#[test]
fn test_determine_category_with_custom_config() {
    let mut config = TidyConfig::default();

    config.custom_categories = vec![(
        "CustomCategory".to_string(),
        vec!["abc".to_string(), "xyz".to_string()],
    )];

    assert!(matches!(
        determine_category("test.jpg", &config),
        FileCategory::Image
    ));

    assert!(matches!(
        determine_category("test.abc", &config),
        FileCategory::Other(cat) if cat == "CustomCategory"
    ));
    assert!(matches!(
        determine_category("test.xyz", &config),
        FileCategory::Other(cat) if cat == "CustomCategory"
    ));
}

#[test]
fn test_format_size() {
    assert_eq!(format_size(500), "500 bytes");
    assert_eq!(format_size(1024), "1.00 KB");
    assert_eq!(format_size(1024 * 1024), "1.00 MB");
    assert_eq!(format_size(1024 * 1024 * 1024), "1.00 GB");
    assert_eq!(format_size(1024 * 1024 + 512 * 1024), "1.50 MB");
}

#[test]
fn test_calculate_hash() {
    let hash1 = calculate_hash("test content".as_bytes());
    let hash2 = calculate_hash("test content".as_bytes());
    let hash3 = calculate_hash("different content".as_bytes());

    assert_eq!(hash1, hash2);
    assert_ne!(hash1, hash3);
}

fn record(path: &str, size: u64, last_modified: u64, hash: Option<&str>) -> FileInfo {
    FileInfo {
        path: path.to_string(),
        size,
        last_modified,
        category: FileCategory::Document,
        hash: hash.map(|h| h.to_string()),
    }
}

#[test]
fn test_find_duplicates() {
    let file1 = record("file1.txt", 100, 12345, Some("hash1"));
    let file2 = record("file2.txt", 100, 12346, Some("hash1"));
    let file3 = record("file3.txt", 200, 12347, Some("hash2"));

    let files = vec![file1, file2, file3];

    let duplicates = find_duplicates(&files);

    assert_eq!(duplicates.len(), 1);
    assert_eq!(duplicates[0].hash, "hash1");
    assert_eq!(duplicates[0].files.len(), 2);

    let duplicate_paths: Vec<String> = duplicates[0]
        .files
        .iter()
        .map(|f| f.path.clone())
        .collect();

    assert!(duplicate_paths.contains(&"file1.txt".to_string()));
    assert!(duplicate_paths.contains(&"file2.txt".to_string()));
}
