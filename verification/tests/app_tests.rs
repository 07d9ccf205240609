//! Tests for the application state machine and keyboard decisions.

use markerkill::app::{App, AppState, InputMode};
use markerkill::filter::SortOrder;
use markerkill::scanner::MarkerFolder;
use markerkill::ui::keybinds::{handle_key, Action, Key};

fn make_folder(path: &str, size: u64, project_type: &str) -> MarkerFolder {
    MarkerFolder {
        path: path.to_string(),
        size,
        project_type: project_type.to_string(),
        selected: false,
        modified_at: None,
    }
}

fn app_with_three() -> App {
    let mut app = App::new(false);
    app.add_folder(make_folder("/m/.markerdir", 200, "Rust"));
    app.add_folder(make_folder("/s/.markerdir", 100, "Node.js"));
    app.add_folder(make_folder("/l/.markerdir", 300, "Python"));
    app.complete_scan();
    app
}

#[test]
fn test_new_app_defaults() {
    let app = App::new(true);
    assert!(app.state == AppState::Scanning);
    assert_eq!(app.folders.len(), 0);
    assert!(app.permanent_delete);
    assert!(!app.scan_complete);
    assert!(app.input_mode == InputMode::Normal);
}

#[test]
fn test_add_folder_keeps_size_order() {
    let app = app_with_three();
    let sizes: Vec<u64> = app.folders.iter().map(|f| f.size).collect();
    assert_eq!(sizes, vec![300, 200, 100]);
}

#[test]
fn test_selection_and_sizes() {
    let mut app = app_with_three();
    assert_eq!(app.selected_count(), 0);
    app.select_all();
    assert_eq!(app.selected_count(), 3);
    assert_eq!(app.selected_size(), 600);
    assert_eq!(app.total_size(), 600);
    app.select_none();
    assert_eq!(app.selected_count(), 0);
    assert_eq!(app.selected_size(), 0);
    assert_eq!(app.get_selected_folders().len(), 0);
    app.select_all();
    assert_eq!(app.get_selected_folders().len(), 3);
}

#[test]
fn test_cursor_movement() {
    let mut app = app_with_three();
    assert_eq!(app.selected_index, 0);
    app.move_up();
    assert_eq!(app.selected_index, 0);
    app.move_down();
    assert_eq!(app.selected_index, 1);
    app.move_down();
    app.move_down();
    assert_eq!(app.selected_index, 2);
    app.go_home();
    assert_eq!(app.selected_index, 0);
    app.go_end();
    assert_eq!(app.selected_index, 2);
    app.page_up(10);
    assert_eq!(app.selected_index, 0);
    app.page_down(10);
    assert_eq!(app.selected_index, 2);
}

#[test]
fn test_toggle_selection() {
    let mut app = app_with_three();
    app.toggle_selection();
    assert_eq!(app.selected_count(), 1);
    // The cursor points at the largest folder.
    assert!(app.folders[0].selected);
    app.toggle_selection();
    assert_eq!(app.selected_count(), 0);
}

#[test]
fn test_visible_folder_indices_sorting() {
    let mut app = app_with_three();
    // Size descending is the default.
    let v = app.visible_folder_indices();
    let sizes: Vec<u64> = v.iter().map(|&i| app.folders[i].size).collect();
    assert_eq!(sizes, vec![300, 200, 100]);

    app.sort_order = SortOrder::SizeAsc;
    let v = app.visible_folder_indices();
    let sizes: Vec<u64> = v.iter().map(|&i| app.folders[i].size).collect();
    assert_eq!(sizes, vec![100, 200, 300]);

    app.sort_order = SortOrder::NameAsc;
    let v = app.visible_folder_indices();
    let paths: Vec<&str> = v.iter().map(|&i| app.folders[i].path.as_str()).collect();
    assert_eq!(paths, vec!["/l/.markerdir", "/m/.markerdir", "/s/.markerdir"]);
}

#[test]
fn test_filtering_in_app() {
    let mut app = app_with_three();
    app.search_input = "py".to_string();
    app.apply_search();
    assert!(app.filter.search_query.is_none() == false);
    assert_eq!(app.visible_count(), 0);

    app.search_input = "/l/".to_string();
    app.apply_search();
    assert_eq!(app.visible_count(), 1);

    app.clear_filters();
    assert_eq!(app.visible_count(), 3);
}

#[test]
fn test_remove_deleted() {
    let mut app = app_with_three();
    app.go_end();
    app.remove_deleted(&vec!["/l/.markerdir".to_string(), "/s/.markerdir".to_string()]);
    assert_eq!(app.folders.len(), 1);
    assert_eq!(app.folders[0].path, "/m/.markerdir");
    // The cursor is clamped onto the remaining list.
    assert_eq!(app.selected_index, 0);
}

#[test]
fn test_search_mode_transitions() {
    let mut app = app_with_three();
    app.enter_search_mode();
    assert!(app.input_mode == InputMode::Search);
    app.exit_search_mode();
    assert!(app.input_mode == InputMode::Normal);
    app.toggle_filter_bar();
    assert!(app.show_filter_bar);
    app.cycle_sort();
    assert!(app.sort_order == SortOrder::SizeAsc);
}

#[test]
fn test_handle_key_quit() {
    let mut app = app_with_three();
    let action = handle_key(&mut app, Key::Char('q'), false);
    assert!(action == Action::Quit);
    assert!(app.should_quit);

    let mut app = app_with_three();
    let action = handle_key(&mut app, Key::Char('c'), true);
    assert!(action == Action::Quit);
    // Without control, 'c' is not a quit key.
    let mut app = app_with_three();
    let action = handle_key(&mut app, Key::Char('c'), false);
    assert!(action == Action::Nothing);
    assert!(!app.should_quit);
}

#[test]
fn test_handle_key_selection_and_delete_flow() {
    let mut app = app_with_three();
    assert!(handle_key(&mut app, Key::Char('a'), false) == Action::Nothing);
    assert_eq!(app.selected_count(), 3);

    // 'd' opens the confirmation dialog, 'y' confirms with a Delete action.
    assert!(handle_key(&mut app, Key::Char('d'), false) == Action::Nothing);
    assert!(app.state == AppState::Confirming);
    let action = handle_key(&mut app, Key::Char('y'), false);
    assert!(action == Action::Delete);
    assert!(app.state == AppState::Deleting);
}

#[test]
fn test_handle_key_confirm_decline() {
    let mut app = app_with_three();
    handle_key(&mut app, Key::Char('a'), false);
    handle_key(&mut app, Key::Char('d'), false);
    assert!(app.state == AppState::Confirming);
    let action = handle_key(&mut app, Key::Esc, false);
    assert!(action == Action::Nothing);
    assert!(app.state == AppState::Browsing);
}

#[test]
fn test_handle_key_help_overlay() {
    let mut app = app_with_three();
    handle_key(&mut app, Key::Char('?'), false);
    assert!(app.show_help);
    // Any key closes the overlay and does nothing else.
    let action = handle_key(&mut app, Key::Char('q'), false);
    assert!(action == Action::Nothing);
    assert!(!app.show_help);
    assert!(!app.should_quit);
}

#[test]
fn test_handle_key_delete_needs_selection() {
    let mut app = app_with_three();
    handle_key(&mut app, Key::Char('d'), false);
    assert!(app.state == AppState::Browsing);
}

#[test]
fn test_visible_ties_keep_discovery_order() {
    // Equal sort keys keep ascending (discovery) order: the sort is stable.
    let mut app = App::new(false);
    app.add_folder(make_folder("/c/.markerdir", 100, "Rust"));
    app.add_folder(make_folder("/a/.markerdir", 100, "Rust"));
    app.add_folder(make_folder("/b/.markerdir", 100, "Rust"));
    app.complete_scan();
    // All sizes equal: SizeDesc ties everywhere, so discovery order stands.
    assert_eq!(app.visible_folder_indices(), vec![0, 1, 2]);
    // All timestamps absent: the date orders tie everywhere too.
    app.sort_order = SortOrder::DateAsc;
    assert_eq!(app.visible_folder_indices(), vec![0, 1, 2]);
    app.sort_order = SortOrder::DateDesc;
    assert_eq!(app.visible_folder_indices(), vec![0, 1, 2]);
}

#[test]
fn test_toggle_targets_cursor_position() {
    // The toggle lands exactly on the folder at the cursor's visible
    // position, also when the visible order differs from storage order.
    let mut app = app_with_three();
    app.sort_order = SortOrder::SizeAsc;
    // Visible: sizes 100 (/s), 200 (/m), 300 (/l); cursor on the second row.
    app.move_down();
    app.toggle_selection();
    assert_eq!(app.selected_count(), 1);
    let selected: Vec<&str> = app
        .folders
        .iter()
        .filter(|f| f.selected)
        .map(|f| f.path.as_str())
        .collect();
    assert_eq!(selected, vec!["/m/.markerdir"]);
    // Past the end of the visible list nothing changes.
    app.selected_index = 99;
    app.toggle_selection();
    assert_eq!(app.selected_count(), 1);
}
