use tidyfs::config::add_custom_category;
use tidyfs::config::add_ignore_pattern;
use tidyfs::config::remove_ignore_pattern;
use tidyfs::config::set_default_organization;
use tidyfs::config::update_recent_directories;
use tidyfs::config::TidyConfig;
use tidyfs::category::FileCategory;
use tidyfs::dates::month_folder_at;
use tidyfs::dups::find_duplicates;
use tidyfs::dups::sort_groups_by_waste;
use tidyfs::dups::total_duplicate_count;
use tidyfs::dups::total_wasted_space;
use tidyfs::dups::wasted_space;
use tidyfs::hashing::calculate_hash;
use tidyfs::organize::collision_name;
use tidyfs::organize::plan_moves;
use tidyfs::organize::subfolder_for;
use tidyfs::report::category_totals;
use tidyfs::report::format_size;
use tidyfs::report::largest_files;
use tidyfs::report::total_size_of;
use tidyfs::config::parse_category_spec;
use tidyfs::scan::collect_scan;
use tidyfs::scan::walk_tree;
use tidyfs::scan::FsTree;
use tidyfs::scan::make_file_info;
use tidyfs::scan::should_ignore;
use tidyfs::scan::FileInfo;

fn record(path: &str, size: u64, hash: Option<&str>) -> FileInfo {
    let config = TidyConfig::default();
    make_file_info(path.to_string(), size, 0, &config, hash.map(|h| h.to_string()))
}

#[test]
fn test_recent_directories_cap_and_dedup() {
    let mut config = TidyConfig::default();
    for i in 0..12 {
        update_recent_directories(&mut config, &format!("/dir/{}", i));
    }
    assert_eq!(config.recent_directories.len(), 10);
    assert_eq!(config.recent_directories[0], "/dir/11");

    update_recent_directories(&mut config, "/dir/5");
    assert_eq!(config.recent_directories.len(), 10);
    assert_eq!(config.recent_directories[0], "/dir/5");
    let occurrences = config
        .recent_directories
        .iter()
        .filter(|p| p.as_str() == "/dir/5")
        .count();
    assert_eq!(occurrences, 1);
}

#[test]
fn test_ignore_pattern_edits() {
    let mut config = TidyConfig::default();
    assert_eq!(config.ignore_patterns, vec![".git", "node_modules"]);
    add_ignore_pattern(&mut config, "target");
    assert_eq!(config.ignore_patterns.len(), 3);
    assert!(remove_ignore_pattern(&mut config, "target"));
    assert!(!remove_ignore_pattern(&mut config, "absent"));
    assert_eq!(config.ignore_patterns.len(), 2);
}

#[test]
fn test_add_custom_category_replaces() {
    let mut config = TidyConfig::default();
    add_custom_category(&mut config, "Design".to_string(), vec!["psd".to_string()]);
    add_custom_category(
        &mut config,
        "Design".to_string(),
        vec!["psd".to_string(), "ai".to_string()],
    );
    assert_eq!(config.custom_categories.len(), 1);
    assert_eq!(config.custom_categories[0].0, "Design");
    assert_eq!(config.custom_categories[0].1, vec!["psd", "ai"]);
}

#[test]
fn test_set_default_organization() {
    let mut config = TidyConfig::default();
    assert!(set_default_organization(&mut config, "date"));
    assert_eq!(config.default_organization, "date");
    assert!(!set_default_organization(&mut config, "bogus"));
    assert_eq!(config.default_organization, "date");
}

#[test]
fn test_should_ignore_substring() {
    let patterns = vec![".git".to_string(), "node_modules".to_string()];
    assert!(should_ignore("repo/.git/config", &patterns));
    assert!(should_ignore("web/node_modules/pkg/index.js", &patterns));
    assert!(!should_ignore("src/main.rs", &patterns));
    assert!(!should_ignore("", &patterns));
}

#[test]
fn test_collect_scan_counts_errors() {
    let outcomes = vec![
        Some(record("a.txt", 1, None)),
        None,
        Some(record("b.txt", 2, None)),
        None,
        None,
    ];
    let (records, errors) = collect_scan(&outcomes);
    assert_eq!(records.len(), 2);
    assert_eq!(errors, 3);
    assert_eq!(records[0].path, "a.txt");
    assert_eq!(records[1].path, "b.txt");
}

#[test]
fn test_hash_is_not_the_input() {
    let digest = calculate_hash(b"");
    assert_eq!(
        digest,
        "af1349b9f5f9a1a6a0404dea36dcc9499bcb25c9adc112b7cc9a93cae41f3262"
    );
    let long = vec![7u8; 100000];
    assert_eq!(calculate_hash(&long).len(), 64);
}

#[test]
fn test_month_folder_values() {
    assert_eq!(month_folder_at(0, 0), "1970-01");
    assert_eq!(month_folder_at(86400 * 31, 0), "1970-02");
    assert_eq!(month_folder_at(86400 * 365, 0), "1971-01");
    // A negative offset at the epoch clamps to the first day.
    assert_eq!(month_folder_at(0, -3600), "1970-01");
    // An offset can push an instant across a month boundary.
    assert_eq!(month_folder_at(86400 * 31 - 1, 0), "1970-01");
    assert_eq!(month_folder_at(86400 * 31 - 1, 3600), "1970-02");
}

#[test]
fn test_subfolder_for_schemes() {
    let pdf = record("docs/report.pdf", 10, None);
    assert_eq!(subfolder_for(&pdf, "type"), "Documents");
    assert_eq!(subfolder_for(&pdf, "ext"), "pdf");
    assert_eq!(subfolder_for(&pdf, "weird"), "Unsorted");
    let bare = record("docs/README", 10, None);
    assert_eq!(subfolder_for(&bare, "type"), "Other");
    assert_eq!(subfolder_for(&bare, "ext"), "no_extension");
    let odd = record("docs/data.xyz", 10, None);
    assert_eq!(subfolder_for(&odd, "type"), "Miscellaneous");
}

#[test]
fn test_plan_moves_type_scheme() {
    let files = vec![
        record("in/paper.pdf", 10, None),
        record("in/photo.jpg", 20, None),
    ];
    let plans = plan_moves(&files, "target", "type");
    assert_eq!(plans.len(), 2);
    assert_eq!(plans[0].source, "in/paper.pdf");
    assert_eq!(plans[0].dest_dir, "target/Documents");
    assert_eq!(plans[0].file_name, "paper.pdf");
    assert_eq!(plans[1].dest_dir, "target/Images");
    assert_eq!(plans[1].file_name, "photo.jpg");
}

#[test]
fn test_collision_name_inserts_timestamp() {
    assert_eq!(collision_name("file.txt", 12345), "file_12345.txt");
    assert_eq!(collision_name("archive.tar.gz", 7), "archive.tar_7.gz");
    assert_eq!(collision_name("README", 99), "README_99");
}

#[test]
fn test_wasted_space_and_ordering() {
    let files = vec![
        record("a1", 100, Some("ha")),
        record("a2", 100, Some("ha")),
        record("b1", 1000, Some("hb")),
        record("b2", 1000, Some("hb")),
        record("b3", 1000, Some("hb")),
        record("c", 5, Some("hc")),
    ];
    let groups = find_duplicates(&files);
    assert_eq!(groups.len(), 2);
    assert_eq!(total_duplicate_count(&groups), 3);
    assert_eq!(total_wasted_space(&groups), 100 + 2 * 1000);
    let sorted = sort_groups_by_waste(groups);
    assert_eq!(sorted[0].hash, "hb");
    assert_eq!(wasted_space(&sorted[0]), 2000);
    assert_eq!(sorted[1].hash, "ha");
    assert_eq!(wasted_space(&sorted[1]), 100);
}

#[test]
fn test_category_totals_and_largest() {
    let files = vec![
        record("a.pdf", 300, None),
        record("b.pdf", 200, None),
        record("c.jpg", 1000, None),
        record("d", 1, None),
    ];
    assert_eq!(total_size_of(&files), 1501);
    let totals = category_totals(&files);
    assert_eq!(totals.len(), 3);
    assert_eq!(totals[0].label, "Images");
    assert_eq!(totals[0].total_size, 1000);
    assert_eq!(totals[0].count, 1);
    assert_eq!(totals[1].label, "Documents");
    assert_eq!(totals[1].total_size, 500);
    assert_eq!(totals[1].count, 2);
    assert_eq!(totals[2].label, "Unknown");
    assert_eq!(totals[2].total_size, 1);

    let top = largest_files(&files, 2);
    assert_eq!(top.len(), 2);
    assert_eq!(top[0].path, "c.jpg");
    assert_eq!(top[1].path, "a.pdf");
    let all = largest_files(&files, 10);
    assert_eq!(all.len(), 4);
}

#[test]
fn test_classification_category_payloads() {
    let config = TidyConfig::default();
    let zip = make_file_info("x/y/archive.ZIP".to_string(), 1, 0, &config, None);
    assert!(matches!(zip.category, FileCategory::Archive));
    let dotfile = make_file_info(".gitignore".to_string(), 1, 0, &config, None);
    assert!(matches!(dotfile.category, FileCategory::Other(s) if s == "unknown"));
}

#[test]
fn test_walk_tree_depth() {
    let tree = FsTree::Dir {
        name: "root".to_string(),
        entries: vec![
            FsTree::File { name: "doc.pdf".to_string() },
            FsTree::File { name: "image.jpg".to_string() },
            FsTree::File { name: "unknown.xyz".to_string() },
            FsTree::Dir {
                name: "subdir".to_string(),
                entries: vec![FsTree::File { name: "subfile.txt".to_string() }],
            },
        ],
    };
    let no_patterns: Vec<String> = Vec::new();
    let flat = walk_tree(&tree, false, &no_patterns);
    assert_eq!(flat.len(), 3);
    assert_eq!(flat[0], "root/doc.pdf");
    let deep = walk_tree(&tree, true, &no_patterns);
    assert_eq!(deep.len(), 4);
    assert!(deep.contains(&"root/subdir/subfile.txt".to_string()));

    let patterns = vec!["subdir".to_string()];
    let pruned = walk_tree(&tree, true, &patterns);
    assert_eq!(pruned.len(), 3);
}

#[test]
fn test_parse_category_spec() {
    let parsed = parse_category_spec("Design: psd , ai").unwrap();
    assert_eq!(parsed.0, "Design");
    assert_eq!(parsed.1, vec!["psd", "ai"]);
    assert!(parse_category_spec("no-colon-here").is_none());
    let empty_exts = parse_category_spec("Name:").unwrap();
    assert_eq!(empty_exts.1, vec![""]);
}

#[test]
fn test_format_size_edges() {
    assert_eq!(format_size(0), "0 bytes");
    assert_eq!(format_size(1023), "1023 bytes");
    assert_eq!(format_size(1536), "1.50 KB");
    assert_eq!(format_size(u64::MAX), "17179869184.00 GB");
}

#[test]
fn test_month_folder_leap_year() {
    // 2000-02-29 00:00:00 UTC, the leap day of a leap century.
    assert_eq!(month_folder_at(951782400, 0), "2000-02");
    assert_eq!(month_folder_at(951782400 + 86400, 0), "2000-03");
}
