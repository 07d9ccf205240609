//! Keyboard input handling: maps a pressed key to a state transition and an
//! action for the caller to perform.

use vstd::prelude::*;

use crate::app::{App, AppState};

verus! {

/// A pressed key, as the decision logic sees it.
#[derive(Clone, Copy, PartialEq, Eq, Structural, Debug)]
pub enum Key {
    Char(char),
    Up,
    Down,
    PageUp,
    PageDown,
    Home,
    End,
    Esc,
    Other,
}

/// Actions that can be triggered by user input.
#[derive(Clone, Copy, PartialEq, Eq, Structural, Debug)]
pub enum Action {
    Nothing,
    Quit,
    Delete,
}

/// The number of rows a page movement covers.
pub const PAGE_SIZE: usize = 10;

/// Applies one key press to the application state. Any key dismisses the
/// help overlay; in the confirmation dialog only yes and no answers count;
/// otherwise the key moves the cursor, changes the selection, or asks to
/// quit or delete.
pub fn handle_key(app: &mut App, key: Key, ctrl: bool) -> (r: Action)
    requires
        old(app).wf(),
        old(app).selected_index + PAGE_SIZE <= usize::MAX,
    ensures
        final(app).wf(),
        final(app).folders@.len() == old(app).folders@.len(),
        old(app).show_help ==> *final(app) == (App { show_help: false, ..*old(app) }) && r
            == Action::Nothing,
        !old(app).show_help && old(app).state == AppState::Confirming ==> {
            &&& ((key == Key::Char('y') || key == Key::Char('Y')) ==> *final(app) == (App {
                state: AppState::Deleting,
                ..*old(app)
            }) && r == Action::Delete)
            &&& ((key == Key::Char('n') || key == Key::Char('N') || key == Key::Esc)
                ==> *final(app) == (App { state: AppState::Browsing, message: None, ..*old(app) })
                && r == Action::Nothing)
            &&& (!(key == Key::Char('y') || key == Key::Char('Y') || key == Key::Char('n') || key
                == Key::Char('N') || key == Key::Esc) ==> *final(app) == *old(app) && r
                == Action::Nothing)
        },
        !old(app).show_help && old(app).state != AppState::Confirming ==> {
            &&& ((key == Key::Char('q') || key == Key::Esc || (key == Key::Char('c') && ctrl))
                ==> *final(app) == (App { should_quit: true, ..*old(app) }) && r == Action::Quit)
            &&& (key == Key::Char('?') ==> *final(app) == (App {
                show_help: !old(app).show_help,
                ..*old(app)
            }) && r == Action::Nothing)
            &&& (key == Key::Char('d') ==> r == Action::Nothing && (
            crate::app::count_selected(old(app).folders@) > 0 && old(app).state
                == AppState::Browsing ==> *final(app) == (App {
                state: AppState::Confirming,
                ..*old(app)
            })) && (!(crate::app::count_selected(old(app).folders@) > 0 && old(app).state
                == AppState::Browsing) ==> *final(app) == *old(app)))
            &&& ((key == Key::Up || key == Key::Char('k')) ==> *final(app) == (App {
                selected_index: if old(app).selected_index > 0 {
                    (old(app).selected_index - 1) as usize
                } else {
                    0
                },
                ..*old(app)
            }) && r == Action::Nothing)
            &&& (key == Key::Home || key == Key::Char('g') ==> *final(app) == (App {
                selected_index: 0,
                ..*old(app)
            }) && r == Action::Nothing)
            &&& (key == Key::PageUp ==> *final(app) == (App {
                selected_index: if old(app).selected_index >= PAGE_SIZE {
                    (old(app).selected_index - PAGE_SIZE) as usize
                } else {
                    0
                },
                ..*old(app)
            }) && r == Action::Nothing)
            &&& ((key == Key::Down || key == Key::Char('j')) ==> *final(app) == (App {
                selected_index: final(app).selected_index,
                ..*old(app)
            }) && r == Action::Nothing && (exists|now: u64|
                final(app).selected_index == #[trigger] crate::app::spec_move_down(
                    *old(app),
                    now,
                )) && (old(app).filter.max_age is None ==> final(app).selected_index
                == crate::app::spec_move_down(*old(app), 0)))
            &&& (key == Key::PageDown ==> *final(app) == (App {
                selected_index: final(app).selected_index,
                ..*old(app)
            }) && r == Action::Nothing && (exists|now: u64|
                final(app).selected_index == #[trigger] crate::app::spec_page_down(
                    *old(app),
                    PAGE_SIZE,
                    now,
                )) && (old(app).filter.max_age is None ==> final(app).selected_index
                == crate::app::spec_page_down(*old(app), PAGE_SIZE, 0)))
            &&& ((key == Key::End || key == Key::Char('G')) ==> *final(app) == (App {
                selected_index: final(app).selected_index,
                ..*old(app)
            }) && r == Action::Nothing && (exists|now: u64|
                final(app).selected_index == #[trigger] crate::app::spec_go_end(
                    *old(app),
                    now,
                )) && (old(app).filter.max_age is None ==> final(app).selected_index
                == crate::app::spec_go_end(*old(app), 0)))
            &&& (key == Key::Char(' ') ==> *final(app) == (App {
                folders: final(app).folders,
                ..*old(app)
            }) && r == Action::Nothing && (exists|v: Seq<usize>, now: u64|
                #[trigger] old(app).visible_ok(v, now) && crate::app::spec_toggle_outcome(
                    *old(app),
                    *final(app),
                    v,
                )) && (old(app).filter.max_age is None ==> exists|v: Seq<usize>|
                #[trigger] old(app).visible_ok(v, 0) && crate::app::spec_toggle_outcome(
                    *old(app),
                    *final(app),
                    v,
                )))
            &&& (key == Key::Char('a') ==> (forall|k: int|
                0 <= k < old(app).folders@.len() ==> #[trigger] final(app).folders@[k]
                    == (crate::scanner::MarkerFolder {
                    selected: true,
                    ..old(app).folders@[k]
                })) && *final(app) == (App { folders: final(app).folders, ..*old(app) }) && r
                == Action::Nothing)
            &&& (key == Key::Char('n') ==> (forall|k: int|
                0 <= k < old(app).folders@.len() ==> #[trigger] final(app).folders@[k]
                    == (crate::scanner::MarkerFolder {
                    selected: false,
                    ..old(app).folders@[k]
                })) && *final(app) == (App { folders: final(app).folders, ..*old(app) }) && r
                == Action::Nothing)
        },
{
    // Help overlay first: any key closes it.
    if app.show_help {
        app.show_help = false;
        return Action::Nothing;
    }
    // The confirmation dialog.
    if app.state == AppState::Confirming {
        match key {
            Key::Char(c) => {
                if (c as u32) == ('y' as u32) || (c as u32) == ('Y' as u32) {
                    app.state = AppState::Deleting;
                    return Action::Delete;
                }
                if (c as u32) == ('n' as u32) || (c as u32) == ('N' as u32) {
                    app.state = AppState::Browsing;
                    app.message = None;
                }
                return Action::Nothing;
            },
            Key::Esc => {
                app.state = AppState::Browsing;
                app.message = None;
                return Action::Nothing;
            },
            _ => {
                return Action::Nothing;
            },
        }
    }
    // Normal keybinds.
    match key {
        Key::Char(c) => {
            if (c as u32) == ('q' as u32) {
                app.should_quit = true;
                return Action::Quit;
            }
            if (c as u32) == ('c' as u32) && ctrl {
                app.should_quit = true;
                return Action::Quit;
            }
            if (c as u32) == ('k' as u32) {
                app.move_up();
            } else if (c as u32) == ('j' as u32) {
                app.move_down();
            } else if (c as u32) == ('g' as u32) {
                app.go_home();
            } else if (c as u32) == ('G' as u32) {
                app.go_end();
            } else if (c as u32) == (' ' as u32) {
                app.toggle_selection();
            } else if (c as u32) == ('a' as u32) {
                app.select_all();
            } else if (c as u32) == ('n' as u32) {
                app.select_none();
            } else if (c as u32) == ('d' as u32) {
                if app.selected_count() > 0 && app.state == AppState::Browsing {
                    app.state = AppState::Confirming;
                }
            } else if (c as u32) == ('?' as u32) {
                app.show_help = !app.show_help;
            }
            Action::Nothing
        },
        Key::Esc => {
            app.should_quit = true;
            Action::Quit
        },
        Key::Up => {
            app.move_up();
            Action::Nothing
        },
        Key::Down => {
            app.move_down();
            Action::Nothing
        },
        Key::PageUp => {
            app.page_up(PAGE_SIZE);
            Action::Nothing
        },
        Key::PageDown => {
            app.page_down(PAGE_SIZE);
            Action::Nothing
        },
        Key::Home => {
            app.go_home();
            Action::Nothing
        },
        Key::End => {
            app.go_end();
            Action::Nothing
        },
        Key::Other => Action::Nothing,
    }
}

} // verus!
