//! Tests for the deletion history, its bound, undo queries, and the
//! persisted JSON form with its round-trip.

use markerkill::codec::{from_json_str, to_json_string};
use markerkill::history::{DeletionMethod, DeletionRecord, History};

fn record(paths: Vec<&str>, total_size: u64, method: DeletionMethod) -> DeletionRecord {
    DeletionRecord::new(
        paths.into_iter().map(|p| p.to_string()).collect(),
        total_size,
        method,
    )
}

#[test]
fn test_deletion_record_can_undo() {
    let trash_record = record(vec!["/test/.markerdir"], 1024, DeletionMethod::Trash);
    assert!(trash_record.can_undo());

    let permanent_record = record(vec!["/test/.markerdir"], 1024, DeletionMethod::Permanent);
    assert!(!permanent_record.can_undo());
}

#[test]
fn test_history_add() {
    let mut history = History::default();
    let rec = record(vec![], 0, DeletionMethod::Trash);
    history.add(rec);
    assert_eq!(history.records.len(), 1);
}

#[test]
fn test_history_last_undoable() {
    let mut history = History::default();

    // Add permanent (not undoable)
    history.add(record(vec![], 0, DeletionMethod::Permanent));
    assert!(history.last_undoable().is_none());

    // Add trash (undoable)
    history.add(record(vec![], 0, DeletionMethod::Trash));
    assert!(history.last_undoable().is_some());
}

#[test]
fn test_history_remove_last_undoable() {
    let mut history = History::default();
    history.add(record(vec![], 100, DeletionMethod::Trash));
    history.add(record(vec![], 200, DeletionMethod::Permanent));
    history.add(record(vec![], 300, DeletionMethod::Trash));

    assert_eq!(history.records.len(), 3);
    history.remove_last_undoable();
    assert_eq!(history.records.len(), 2);
    // The 300-size trash record should be gone
    assert!(history.records.iter().all(|r| r.total_size != 300));
}

#[test]
fn test_history_cap_drops_earliest() {
    // Adding beyond the bound keeps the ledger at one hundred records: the
    // earliest are gone, the later keep their relative order.
    let mut history = History::default();
    for i in 0..105u64 {
        history.add(record(vec![], i, DeletionMethod::Permanent));
    }
    assert_eq!(history.records.len(), 100);
    assert_eq!(history.records[0].total_size, 5);
    assert_eq!(history.records[99].total_size, 104);
}

#[test]
fn test_last_undoable_skips_later_permanent() {
    // The most recent Trash record wins even when Permanent records are more
    // recent.
    let mut history = History::default();
    history.add(record(vec!["/a/.markerdir"], 10, DeletionMethod::Trash));
    history.add(record(vec!["/b/.markerdir"], 20, DeletionMethod::Permanent));
    history.add(record(vec!["/c/.markerdir"], 30, DeletionMethod::Permanent));
    let last = history.last_undoable().unwrap();
    assert_eq!(last.total_size, 10);
    assert_eq!(last.paths, vec!["/a/.markerdir".to_string()]);
}

#[test]
fn test_record_outcome_only_on_success() {
    // A failed execution leaves the ledger untouched; a successful one is
    // recorded.
    let mut history = History::default();
    let failed = record(vec!["/p1/.markerdir", "/p2/.markerdir"], 40, DeletionMethod::Trash);
    history.record_outcome(false, failed);
    assert_eq!(history.records.len(), 0);

    let ok = record(vec!["/p1/.markerdir", "/p2/.markerdir"], 40, DeletionMethod::Trash);
    history.record_outcome(true, ok);
    assert_eq!(history.records.len(), 1);
    assert_eq!(history.records[0].paths.len(), 2);
}

#[test]
fn test_undo_with_empty_history() {
    // No history: nothing to undo, and concluding an undo changes nothing.
    let mut history = History::default();
    assert!(history.last_undoable().is_none());
    let changed = history.finish_undo(0);
    assert!(!changed);
    assert_eq!(history.records.len(), 0);
}

#[test]
fn test_finish_undo_removes_restored_record() {
    let mut history = History::default();
    history.add(record(vec!["/a/.markerdir"], 10, DeletionMethod::Trash));
    history.add(record(vec!["/b/.markerdir"], 20, DeletionMethod::Permanent));
    let changed = history.finish_undo(1);
    assert!(changed);
    assert_eq!(history.records.len(), 1);
    assert_eq!(history.records[0].total_size, 20);
}

#[test]
fn test_json_exact_form() {
    let mut history = History::default();
    let mut rec = record(vec!["/a/.markerdir"], 7, DeletionMethod::Trash);
    rec.timestamp = 5;
    history.add(rec);
    let json = to_json_string(&history);
    assert_eq!(
        json,
        "{\"records\":[{\"timestamp\":5,\"paths\":[\"/a/.markerdir\"],\"total_size\":7,\"method\":\"Trash\"}]}"
    );
}

#[test]
fn test_json_round_trip() {
    // Saving then loading yields an equal sequence of records: timestamps,
    // paths, sizes and methods all preserved exactly.
    let mut history = History::default();
    let mut r1 = record(
        vec!["/home/u/pro ject/.markerdir", "/home/u/with\"quote\\slash/.markerdir"],
        123456789,
        DeletionMethod::Trash,
    );
    r1.timestamp = 1700000000;
    let mut r2 = record(vec![], 0, DeletionMethod::Permanent);
    r2.timestamp = 0;
    let mut r3 = record(vec!["/ünïcode/.markerdir"], u64::MAX, DeletionMethod::Trash);
    r3.timestamp = u64::MAX;
    history.add(r1);
    history.add(r2);
    history.add(r3);

    let json = to_json_string(&history);
    let loaded = from_json_str(&json).expect("the rendered ledger parses");
    assert_eq!(loaded.records.len(), history.records.len());
    for (a, b) in history.records.iter().zip(loaded.records.iter()) {
        assert_eq!(a.timestamp, b.timestamp);
        assert_eq!(a.paths, b.paths);
        assert_eq!(a.total_size, b.total_size);
        assert!(a.method == b.method);
    }
}

#[test]
fn test_json_round_trip_empty() {
    let history = History::default();
    let json = to_json_string(&history);
    assert_eq!(json, "{\"records\":[]}");
    let loaded = from_json_str(&json).expect("the empty ledger parses");
    assert_eq!(loaded.records.len(), 0);
}

#[test]
fn test_json_rejects_malformed() {
    assert!(from_json_str("").is_none());
    assert!(from_json_str("{\"records\":[").is_none());
    assert!(from_json_str("{\"records\":[]} ").is_none());
    assert!(from_json_str("not json at all").is_none());
    assert!(
        from_json_str("{\"records\":[{\"timestamp\":99999999999999999999999,\"paths\":[],\"total_size\":0,\"method\":\"Trash\"}]}")
            .is_none()
    );
}
