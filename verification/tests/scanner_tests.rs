//! Tests for the scan rules: pruning, exclusion, the plan, sizing and
//! project classification.

use markerkill::project::{detect, markers_from_names, ProjectMarkers};
use markerkill::scanner::{
    dir_size_from, is_marker_name, keep_entry, marker_name, parent_of, plan_matches, FileMeta,
    Platform, Scanner, WalkEntry,
};
use markerkill::utils::format_size;

fn entry(path: &str, is_dir: bool) -> WalkEntry {
    WalkEntry { path: path.to_string(), is_dir }
}

#[test]
fn test_marker_name() {
    assert_eq!(marker_name(), ".markerdir");
    assert!(is_marker_name("/home/u/project/.markerdir", Platform::Unix));
    assert!(is_marker_name(".markerdir", Platform::Unix));
    assert!(!is_marker_name("/home/u/project/.markerdir2", Platform::Unix));
    assert!(!is_marker_name("/home/u/project/marker", Platform::Unix));
    assert!(!is_marker_name("/home/u/.markerdir/inner", Platform::Unix));
}

#[test]
fn test_marker_name_windows_separators() {
    // Backslash separates components on Windows, and forward slashes still
    // work there too.
    assert!(is_marker_name("C:\\proj\\.markerdir", Platform::Windows));
    assert!(is_marker_name("C:/proj/.markerdir", Platform::Windows));
    assert!(!is_marker_name("C:\\proj\\other", Platform::Windows));
    assert!(!is_marker_name("C:\\proj\\.markerdir\\inner", Platform::Windows));
    // On Unix a backslash is an ordinary name character, not a separator.
    assert!(!is_marker_name("C:\\proj\\.markerdir", Platform::Unix));
    assert!(is_marker_name("/odd\\name/.markerdir", Platform::Unix));
}

#[test]
fn test_keep_entry_prunes_hidden_but_keeps_marker() {
    assert!(keep_entry(".markerdir"));
    assert!(keep_entry("src"));
    assert!(keep_entry(""));
    assert!(!keep_entry(".git"));
    assert!(!keep_entry(".cache"));
}

#[test]
fn test_should_exclude() {
    let patterns = vec!["node_modules".to_string(), "target".to_string()];
    assert!(Scanner::should_exclude("/a/node_modules/x/.markerdir", &patterns));
    assert!(Scanner::should_exclude("/a/target/.markerdir", &patterns));
    assert!(!Scanner::should_exclude("/a/src/.markerdir", &patterns));
    assert!(!Scanner::should_exclude("/a/src/.markerdir", &Vec::new()));
}

#[test]
fn test_parent_of() {
    assert_eq!(parent_of("/a/.markerdir", Platform::Unix), Some("/a".to_string()));
    assert_eq!(parent_of("/.markerdir", Platform::Unix), Some("/".to_string()));
    assert_eq!(parent_of("relative", Platform::Unix), None);
    assert_eq!(parent_of("/x/y/z", Platform::Unix), Some("/x/y".to_string()));
    assert_eq!(
        parent_of("C:\\proj\\.markerdir", Platform::Windows),
        Some("C:\\proj".to_string())
    );
    assert_eq!(parent_of("C:\\proj\\.markerdir", Platform::Unix), None);
}

#[test]
fn test_dir_size_counts_only_regular_files() {
    // Total reported size is the sum of regular-file byte lengths: hidden
    // files count, directories do not.
    let files = vec![
        FileMeta { is_file: false, size: 4096 },
        FileMeta { is_file: true, size: 1000 },
        FileMeta { is_file: true, size: 500 },
    ];
    assert_eq!(dir_size_from(&files), 1500);
    assert_eq!(dir_size_from(&Vec::new()), 0);
    let huge = vec![
        FileMeta { is_file: true, size: u64::MAX },
        FileMeta { is_file: true, size: 1 },
    ];
    assert_eq!(dir_size_from(&huge), u64::MAX);
}

#[test]
fn test_scan_scenario_excludes_global() {
    // A tree with /root/a/.markerdir (two files, 1000 + 500 bytes) and the
    // global /root/.markerdir, scanned with include_global = false: exactly one
    // folder is reported, with size 1500.
    let entries = vec![
        entry("/root", true),
        entry("/root/a", true),
        entry("/root/a/.markerdir", true),
        entry("/root/a/.markerdir/one", false),
        entry("/root/.markerdir", true),
    ];
    let global = Some("/root/.markerdir".to_string());
    let plan = plan_matches(&entries, false, &global, &Vec::new(), Platform::Unix);
    assert_eq!(plan, vec!["/root/a/.markerdir".to_string()]);

    let files = vec![
        FileMeta { is_file: true, size: 1000 },
        FileMeta { is_file: true, size: 500 },
    ];
    assert_eq!(dir_size_from(&files), 1500);
}

#[test]
fn test_global_marker_reported_iff_flag_set() {
    let entries = vec![
        entry("/root", true),
        entry("/root/.markerdir", true),
        entry("/root/a/.markerdir", true),
    ];
    let global = Some("/root/.markerdir".to_string());
    let without = plan_matches(&entries, false, &global, &Vec::new(), Platform::Unix);
    assert!(!without.contains(&"/root/.markerdir".to_string()));
    assert_eq!(without, vec!["/root/a/.markerdir".to_string()]);

    let with = plan_matches(&entries, true, &global, &Vec::new(), Platform::Unix);
    assert!(with.contains(&"/root/.markerdir".to_string()));
    assert_eq!(
        with,
        vec!["/root/.markerdir".to_string(), "/root/a/.markerdir".to_string()]
    );
}

#[test]
fn test_plan_skips_files_and_excluded() {
    let entries = vec![
        entry("/r/.markerdir", false),  // a file named like the marker
        entry("/r/node_modules/x/.markerdir", true),
        entry("/r/keep/.markerdir", true),
    ];
    let patterns = vec!["node_modules".to_string()];
    let plan = plan_matches(&entries, true, &None, &patterns, Platform::Unix);
    assert_eq!(plan, vec!["/r/keep/.markerdir".to_string()]);
}

#[test]
fn test_detect_project_types() {
    assert_eq!(detect(&markers_from_names(&vec!["Cargo.toml".to_string()])), "Rust");
    assert_eq!(detect(&markers_from_names(&vec!["go.mod".to_string()])), "Go");
    assert_eq!(detect(&markers_from_names(&Vec::new())), "Unknown");
    assert_eq!(
        detect(&markers_from_names(&vec![
            "package.json".to_string(),
            "vite.config.ts".to_string(),
        ])),
        "Vite"
    );
    assert_eq!(
        detect(&markers_from_names(&vec![
            "package.json".to_string(),
            "next.config.js".to_string(),
        ])),
        "Next.js"
    );
    assert_eq!(detect(&markers_from_names(&vec!["package.json".to_string()])), "Node.js");
    // Rust wins over everything else.
    assert_eq!(
        detect(&markers_from_names(&vec![
            "package.json".to_string(),
            "Cargo.toml".to_string(),
        ])),
        "Rust"
    );
    assert_eq!(detect(&ProjectMarkers::none()), "Unknown");
}

#[test]
fn test_format_size_values() {
    assert_eq!(format_size(0), "0 B");
    assert_eq!(format_size(500), "500 B");
    assert_eq!(format_size(1024), "1.0 KB");
    assert_eq!(format_size(1536), "1.5 KB");
    assert_eq!(format_size(163800000), "156.2 MB");
    assert_eq!(format_size(1073741824), "1.0 GB");
}

#[test]
fn test_size_display() {
    let folder = markerkill::scanner::MarkerFolder {
        path: "/x/.markerdir".to_string(),
        size: 1536,
        project_type: "Unknown".to_string(),
        selected: false,
        modified_at: None,
    };
    assert_eq!(folder.size_display(), "1.5 KB");
}

#[test]
fn test_text_utilities() {
    assert!(markerkill::text::str_eq("abc", "abc"));
    assert!(!markerkill::text::str_eq("abc", "abd"));
    assert!(markerkill::text::str_le("abc", "abd"));
    assert!(markerkill::text::str_le("abc", "abc"));
    assert!(!markerkill::text::str_le("b", "abc"));
    assert!(markerkill::text::contains_sub("hello world", "lo wo"));
    assert!(!markerkill::text::contains_sub("hello", "world"));
    assert!(markerkill::text::contains_sub("anything", ""));
    assert!(markerkill::text::str_eq_ignore_ascii_case("C:\\Users", "c:\\users"));
    assert!(!markerkill::text::str_eq_ignore_ascii_case("abc", "abd"));
    assert_eq!(markerkill::text::u64_to_string(0), "0");
    assert_eq!(markerkill::text::u64_to_string(18446744073709551615), "18446744073709551615");
}

#[test]
fn test_scan_events_on_missing_root() {
    // A root that does not exist walks to nothing: the stream still closes
    // with its single Complete event.
    let scanner = Scanner::new(
        "/no_such_root_anywhere_for_this_run".to_string(),
        false,
        Vec::new(),
    );
    let events = scanner.scan_events(Platform::Unix);
    assert_eq!(events.len(), 1);
    assert!(matches!(events[0], markerkill::scanner::ScanEvent::Complete));
}

#[test]
fn test_plan_matches_windows_paths() {
    // With the Windows syntax the scan recognises backslash marker paths.
    let entries = vec![
        entry("C:\\proj", true),
        entry("C:\\proj\\.markerdir", true),
        entry("C:\\proj\\other", true),
    ];
    let plan = plan_matches(&entries, true, &None, &Vec::new(), Platform::Windows);
    assert_eq!(plan, vec!["C:\\proj\\.markerdir".to_string()]);
    // The same entries read with Unix syntax hold no marker directory.
    let plan = plan_matches(&entries, true, &None, &Vec::new(), Platform::Unix);
    assert!(plan.is_empty());
}
