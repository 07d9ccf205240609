//! Tests for filtering, sort orders and configuration parsing.

use markerkill::config::Config;
use markerkill::filter::{Filter, SortOrder};
use markerkill::scanner::MarkerFolder;

fn now_secs() -> u64 {
    std::time::SystemTime::now()
        .duration_since(std::time::UNIX_EPOCH)
        .unwrap()
        .as_secs()
}

fn make_folder(path: &str, size: u64, project_type: &str) -> MarkerFolder {
    MarkerFolder {
        path: path.to_string(),
        size,
        project_type: project_type.to_string(),
        selected: false,
        modified_at: Some(now_secs()),
    }
}

#[test]
fn test_filter_search_query() {
    let folder = make_folder("/home/user/rust_project/.markerdir", 1000, "Rust");
    let mut filter = Filter::default();

    // No filter matches everything
    assert!(filter.matches(&folder));

    // Matching search
    filter.search_query = Some("rust".to_string());
    assert!(filter.matches(&folder));

    // Non-matching search
    filter.search_query = Some("python".to_string());
    assert!(!filter.matches(&folder));
}

#[test]
fn test_filter_search_is_case_insensitive() {
    // An upper-case query must still match a lower-case path: both sides run
    // through real Unicode lowercasing.
    let folder = make_folder("/home/user/rust_project/.markerdir", 1000, "Rust");
    let mut filter = Filter::default();
    filter.search_query = Some("RUST".to_string());
    assert!(filter.matches(&folder));
    filter.search_query = Some("Straße".to_string());
    let odd = make_folder("/home/user/STRASSE??/.markerdir", 1, "Unknown");
    // to_lowercase("Straße") is "straße", which is not inside the path
    assert!(!filter.matches(&odd));
}

#[test]
fn test_filter_size() {
    let folder = make_folder("/test/.markerdir", 1000, "Unknown");
    let mut filter = Filter::default();

    // No min_size
    assert!(filter.matches(&folder));

    // Below threshold
    filter.min_size = Some(2000);
    assert!(!filter.matches(&folder));

    // At threshold
    filter.min_size = Some(1000);
    assert!(filter.matches(&folder));
}

#[test]
fn test_filter_project_type() {
    let folder = make_folder("/test/.markerdir", 1000, "Rust");
    let mut filter = Filter::default();

    // Empty types matches all
    assert!(filter.matches(&folder));

    // Matching type
    filter.project_types = vec!["Rust".to_string()];
    assert!(filter.matches(&folder));

    // Non-matching type
    filter.project_types = vec!["Python".to_string()];
    assert!(!filter.matches(&folder));
}

#[test]
fn test_filter_is_active() {
    let mut filter = Filter::default();
    assert!(!filter.is_active());

    filter.search_query = Some("test".to_string());
    assert!(filter.is_active());

    filter.clear();
    assert!(!filter.is_active());
}

#[test]
fn test_filter_age() {
    // A folder modified a long time ago passes an age filter; a fresh one
    // does not.
    let mut old_folder = make_folder("/old/.markerdir", 1, "Unknown");
    old_folder.modified_at = Some(now_secs() - 1000000);
    let fresh = make_folder("/fresh/.markerdir", 1, "Unknown");
    let mut filter = Filter::default();
    filter.max_age = Some(500000);
    assert!(filter.matches(&old_folder));
    assert!(!filter.matches(&fresh));
    // Absent timestamps always pass.
    let mut unknown = make_folder("/unknown/.markerdir", 1, "Unknown");
    unknown.modified_at = None;
    assert!(filter.matches(&unknown));
}

#[test]
fn test_sort_order_cycle() {
    let order = SortOrder::SizeDesc;
    assert_eq!(order.next(), SortOrder::SizeAsc);
    assert_eq!(order.next().next(), SortOrder::NameAsc);
}

#[test]
fn test_sort_order_labels() {
    assert_eq!(SortOrder::SizeDesc.label(), "Size ↓");
    assert_eq!(SortOrder::NameAsc.label(), "Name A-Z");
}

#[test]
fn test_default_config() {
    let config = Config::default();
    assert!(!config.scan.include_global);
    assert!(!config.behavior.permanent_delete);
    assert!(config.behavior.confirm_delete);
    assert!(config.display.show_project_type);
}

#[test]
fn test_parse_sort_order() {
    let mut config = Config::default();

    config.display.default_sort = "size_asc".to_string();
    assert_eq!(config.parse_sort_order(), SortOrder::SizeAsc);

    config.display.default_sort = "name_asc".to_string();
    assert_eq!(config.parse_sort_order(), SortOrder::NameAsc);

    config.display.default_sort = "invalid".to_string();
    assert_eq!(config.parse_sort_order(), SortOrder::SizeDesc);
}

#[test]
fn test_default_config_content_names_location() {
    let content = Config::default_config_content("/home/u/.config/markerkill/config.toml");
    assert!(content.starts_with("# MarkerKill Configuration\n# Location: /home/u/.config/markerkill/config.toml\n"));
    assert!(content.contains("include_global = false"));
    assert!(content.contains("default_sort = \"size_desc\""));
}
