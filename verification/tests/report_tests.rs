//! Tests for report generation and export.

use markerkill::report::SpaceReport;
use markerkill::scanner::MarkerFolder;

fn now_secs() -> u64 {
    std::time::SystemTime::now()
        .duration_since(std::time::UNIX_EPOCH)
        .unwrap()
        .as_secs()
}

fn make_folder(path: &str, size: u64, project_type: &str) -> MarkerFolder {
    MarkerFolder {
        path: path.to_string(),
        size,
        project_type: project_type.to_string(),
        selected: false,
        modified_at: Some(now_secs()),
    }
}

#[test]
fn test_generate_report() {
    let folders = vec![
        make_folder("/a/.markerdir", 1000, "Rust"),
        make_folder("/b/.markerdir", 2000, "Rust"),
        make_folder("/c/.markerdir", 500, "Node"),
    ];

    let report = SpaceReport::generate(&folders);

    assert_eq!(report.total_folders, 3);
    assert_eq!(report.total_size, 3500);
    assert_eq!(report.by_project_type.len(), 2);
    assert_eq!(report.type_stats("Rust").unwrap().count, 2);
}

#[test]
fn test_generate_report_stats() {
    let folders = vec![
        make_folder("/a/.markerdir", 1000, "Rust"),
        make_folder("/b/.markerdir", 2000, "Rust"),
        make_folder("/c/.markerdir", 500, "Node"),
    ];
    let report = SpaceReport::generate(&folders);
    let rust = report.type_stats("Rust").unwrap();
    assert_eq!(rust.total_size, 3000);
    assert_eq!(rust.avg_size, 1500);
    let node = report.type_stats("Node").unwrap();
    assert_eq!(node.count, 1);
    assert_eq!(node.total_size, 500);
    assert_eq!(node.avg_size, 500);
    assert!(report.type_stats("Python").is_none());
    // Freshly-stamped folders all land in the youngest age bucket.
    assert_eq!(report.age_breakdown.under_1_week, 3);
    assert_eq!(report.age_breakdown.over_3_months, 0);
}

#[test]
fn test_top_largest_sorted() {
    let mut folders = Vec::new();
    for i in 0..15u64 {
        folders.push(make_folder(&format!("/p{}/.markerdir", i), i * 100, "Unknown"));
    }
    let report = SpaceReport::generate(&folders);
    assert_eq!(report.top_10_largest.len(), 10);
    assert_eq!(report.top_10_largest[0].size, 1400);
    for w in report.top_10_largest.windows(2) {
        assert!(w[0].size >= w[1].size);
    }
    assert_eq!(report.top_10_largest[0].size_human, "1.3 KB");
}

#[test]
fn test_to_csv() {
    let folders = vec![make_folder("/test/.markerdir", 1000, "Unknown")];
    let report = SpaceReport::generate(&folders);
    let csv = report.to_csv();

    assert!(csv.starts_with("Path,Size (bytes),Size (human),Project Type\n"));
    assert!(csv.contains("/test/.markerdir"));
}

#[test]
fn test_to_csv_exact_row() {
    let folders = vec![make_folder("/test/.markerdir", 1000, "Rust")];
    let report = SpaceReport::generate(&folders);
    assert_eq!(
        report.to_csv(),
        "Path,Size (bytes),Size (human),Project Type\n\"/test/.markerdir\",1000,1000 B,Rust\n"
    );
}

#[test]
fn test_top_largest_ties_keep_discovery_order() {
    // Equal sizes keep discovery order in the largest-folders table.
    let folders = vec![
        make_folder("/z/.markerdir", 50, "Rust"),
        make_folder("/a/.markerdir", 50, "Rust"),
        make_folder("/m/.markerdir", 50, "Rust"),
    ];
    let report = SpaceReport::generate(&folders);
    let paths: Vec<&str> = report.top_10_largest.iter().map(|f| f.path.as_str()).collect();
    assert_eq!(paths, vec!["/z/.markerdir", "/a/.markerdir", "/m/.markerdir"]);
}
