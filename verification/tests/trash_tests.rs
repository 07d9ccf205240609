//! Tests for the deletion safety validator: deny-list, marker-name rule,
//! existence and directory checks, and all-or-nothing batch semantics.

use markerkill::trash::{validate_deletion, PathStatus, Platform, Rule};

fn present_dir() -> PathStatus {
    PathStatus { exists: true, is_dir: true }
}

#[test]
fn test_validate_deletion_valid_marker_folder() {
    let paths = vec!["/tmp/project/.markerdir".to_string()];
    let status = vec![present_dir()];
    let result = validate_deletion(&paths, &status, Platform::Unix);
    assert!(result.is_ok());
}

#[test]
fn test_validate_deletion_rejects_non_marker_folder() {
    let paths = vec!["/tmp/project/other".to_string()];
    let status = vec![present_dir()];
    let result = validate_deletion(&paths, &status, Platform::Unix);
    assert!(result.is_err());
    assert!(result.unwrap_err().message().contains("Not a .markerdir folder"));
}

#[test]
fn test_validate_deletion_rejects_system_paths() {
    let paths = vec!["/Users".to_string()];
    let status = vec![present_dir()];
    let result = validate_deletion(&paths, &status, Platform::Unix);
    assert!(result.is_err());
    assert!(result.unwrap_err().message().contains("system directory"));
}

#[test]
fn test_validate_deletion_rejects_nonexistent() {
    let paths = vec!["/nonexistent/.markerdir".to_string()];
    let status = vec![PathStatus { exists: false, is_dir: false }];
    let result = validate_deletion(&paths, &status, Platform::Unix);
    assert!(result.is_err());
    assert!(result.unwrap_err().message().contains("does not exist"));
}

#[test]
fn test_validate_deletion_rejects_non_directory() {
    let paths = vec!["/tmp/project/.markerdir".to_string()];
    let status = vec![PathStatus { exists: true, is_dir: false }];
    let result = validate_deletion(&paths, &status, Platform::Unix);
    assert!(result.is_err());
    assert!(result.unwrap_err().message().contains("not a directory"));
}

#[test]
fn test_validate_deletion_rejects_windows_system_paths() {
    let paths = vec!["C:\\Users".to_string()];
    let status = vec![present_dir()];
    let result = validate_deletion(&paths, &status, Platform::Windows);
    assert!(result.is_err());
    assert!(result.unwrap_err().message().contains("system directory"));
}

#[test]
fn test_validate_deletion_rejects_windows_root() {
    let paths = vec!["C:\\".to_string()];
    let status = vec![present_dir()];
    let result = validate_deletion(&paths, &status, Platform::Windows);
    assert!(result.is_err());
    assert!(result.unwrap_err().message().contains("system directory"));
}

#[test]
fn test_validate_deletion_windows_ignores_case() {
    // Deny-listed directories are rejected regardless of case on the
    // case-insensitive platform.
    for p in ["c:\\users", "C:\\USERS", "c:\\WiNdOwS"] {
        let paths = vec![p.to_string()];
        let status = vec![present_dir()];
        let result = validate_deletion(&paths, &status, Platform::Windows);
        assert!(result.is_err(), "{} must be rejected", p);
        assert!(result.unwrap_err().message().contains("system directory"));
    }
    // Unix compares exactly: a differently-cased name is not deny-listed,
    // and falls through to the marker-name rule instead.
    let paths = vec!["/users".to_string()];
    let status = vec![present_dir()];
    let err = validate_deletion(&paths, &status, Platform::Unix).unwrap_err();
    assert!(err.message().contains("Not a .markerdir folder"));
}

#[test]
fn test_validate_deletion_batch_is_all_or_nothing() {
    // One offending path rejects the whole batch, whatever the others look
    // like, and the report names the first offender and its rule.
    let paths = vec![
        "/tmp/a/.markerdir".to_string(),
        "/tmp/b/not-marker".to_string(),
        "/tmp/c/.markerdir".to_string(),
    ];
    let status = vec![present_dir(), present_dir(), present_dir()];
    let err = validate_deletion(&paths, &status, Platform::Unix).unwrap_err();
    assert!(err.rule == Rule::NotMarkerDirectory);
    assert_eq!(err.path, "/tmp/b/not-marker");
}

#[test]
fn test_validate_deletion_reports_first_broken_rule() {
    // Per path the checks run in order: the deny-list comes before the
    // marker-name rule.
    let paths = vec!["/System".to_string()];
    let status = vec![present_dir()];
    let err = validate_deletion(&paths, &status, Platform::Unix).unwrap_err();
    assert!(err.rule == Rule::SystemDirectory);

    let paths = vec!["/tmp/x/.markerdir".to_string()];
    let status = vec![PathStatus { exists: false, is_dir: true }];
    let err = validate_deletion(&paths, &status, Platform::Unix).unwrap_err();
    assert!(err.rule == Rule::DoesNotExist);
}

#[test]
fn test_validate_deletion_empty_batch() {
    let result = validate_deletion(&Vec::new(), &Vec::new(), Platform::Unix);
    assert!(result.is_ok());
}

#[test]
fn test_validate_deletion_accepts_windows_marker_path() {
    // A realistic backslash-separated marker path passes on the Windows
    // syntax, where the backslash is a separator.
    let paths = vec!["C:\\proj\\.markerdir".to_string()];
    let status = vec![present_dir()];
    assert!(validate_deletion(&paths, &status, Platform::Windows).is_ok());
    // Forward slashes work there as well.
    let paths = vec!["C:/proj/.markerdir".to_string()];
    let status = vec![present_dir()];
    assert!(validate_deletion(&paths, &status, Platform::Windows).is_ok());
    // On the Unix syntax the same string is one single component.
    let paths = vec!["C:\\proj\\.markerdir".to_string()];
    let status = vec![present_dir()];
    let err = validate_deletion(&paths, &status, Platform::Unix).unwrap_err();
    assert!(err.rule == Rule::NotMarkerDirectory);
}
