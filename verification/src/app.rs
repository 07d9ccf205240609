//! Application state for the interactive session: the folder list, cursor,
//! selection, filters and scan progress, mutated only through named
//! transitions.

use vstd::prelude::*;

use vstd::multiset::Multiset;
use vstd::pervasive::VecAdditionalExecFns;

use crate::clock::now_unix_secs;
use crate::config::Config;
use crate::filter::{folder_le, lemma_folder_le_total, lemma_folder_le_trans, Filter, SortOrder};
use crate::scanner::MarkerFolder;

verus! {

/// Application states.
#[derive(Debug, Clone, Copy, PartialEq, Eq, Structural)]
pub enum AppState {
    Scanning,
    Browsing,
    Confirming,
    Deleting,
    Done,
}

/// Input mode for keyboard handling.
#[derive(Clone, Copy, PartialEq, Eq, Structural)]
pub enum InputMode {
    Normal,
    Search,
}

impl Default for InputMode {
    fn default() -> (r: InputMode)
        ensures
            r == InputMode::Normal,
    {
        InputMode::Normal
    }
}

/// Main application state.
pub struct App {
    pub state: AppState,
    pub folders: Vec<MarkerFolder>,
    pub selected_index: usize,
    pub scan_path: Option<String>,
    pub scan_complete: bool,
    pub should_quit: bool,
    pub permanent_delete: bool,
    pub show_help: bool,
    pub message: Option<String>,
    // Filter/search state
    pub filter: Filter,
    pub sort_order: SortOrder,
    pub input_mode: InputMode,
    pub search_input: String,
    pub show_filter_bar: bool,
}

/// How many of the folders are selected.
pub open spec fn count_selected(s: Seq<MarkerFolder>) -> int
    decreases s.len(),
{
    if s.len() == 0 {
        0
    } else {
        count_selected(s.drop_last()) + if s.last().selected {
            1int
        } else {
            0int
        }
    }
}

/// The sum of the sizes of the given folders.
pub open spec fn sum_sizes(s: Seq<MarkerFolder>) -> int
    decreases s.len(),
{
    if s.len() == 0 {
        0
    } else {
        sum_sizes(s.drop_last()) + s.last().size as int
    }
}

/// The sum of the sizes of the selected folders.
pub open spec fn sum_selected_sizes(s: Seq<MarkerFolder>) -> int
    decreases s.len(),
{
    if s.len() == 0 {
        0
    } else {
        sum_selected_sizes(s.drop_last()) + if s.last().selected {
            s.last().size as int
        } else {
            0int
        }
    }
}

pub proof fn lemma_app_sums_nonneg(s: Seq<MarkerFolder>)
    ensures
        0 <= count_selected(s),
        0 <= sum_sizes(s),
        0 <= sum_selected_sizes(s),
    decreases s.len(),
{
    if s.len() > 0 {
        lemma_app_sums_nonneg(s.drop_last());
    }
}

impl App {
    /// The folder list is kept ordered by size, largest first.
    pub open spec fn wf(self) -> bool {
        forall|a: int, b: int|
            0 <= a < b < self.folders.len() ==> (#[trigger] self.folders[a]).size
                >= (#[trigger] self.folders[b]).size
    }

    /// A fresh application in its scanning state.
    pub fn new(permanent_delete: bool) -> (r: App)
        ensures
            r.state == AppState::Scanning,
            r.folders@.len() == 0,
            r.selected_index == 0,
            r.scan_path is None,
            !r.scan_complete,
            !r.should_quit,
            r.permanent_delete == permanent_delete,
            !r.show_help,
            r.message is None,
            r.filter.search_query is None,
            r.filter.project_types@.len() == 0,
            r.filter.min_size is None,
            r.filter.max_age is None,
            r.sort_order == SortOrder::SizeDesc,
            r.input_mode == InputMode::Normal,
            r.search_input@.len() == 0,
            !r.show_filter_bar,
            r.wf(),
    {
        App {
            state: AppState::Scanning,
            folders: Vec::new(),
            selected_index: 0,
            scan_path: None,
            scan_complete: false,
            should_quit: false,
            permanent_delete,
            show_help: false,
            message: None,
            filter: Filter::default(),
            sort_order: SortOrder::SizeDesc,
            input_mode: InputMode::Normal,
            search_input: String::new(),
            show_filter_bar: false,
        }
    }

    /// Create App with config-based defaults.
    pub fn new_with_config(permanent_delete: bool, config: &Config) -> (r: App)
        ensures
            r.state == AppState::Scanning,
            r.folders@.len() == 0,
            r.selected_index == 0,
            r.scan_path is None,
            !r.scan_complete,
            !r.should_quit,
            r.permanent_delete == permanent_delete,
            !r.show_help,
            r.message is None,
            r.filter.search_query is None,
            r.filter.project_types@.len() == 0,
            r.filter.min_size is None,
            r.filter.max_age is None,
            r.sort_order == config.spec_sort_order(),
            r.input_mode == InputMode::Normal,
            r.search_input@.len() == 0,
            r.show_filter_bar == config.display.show_filter_bar,
            r.wf(),
    {
        App {
            state: AppState::Scanning,
            folders: Vec::new(),
            selected_index: 0,
            scan_path: None,
            scan_complete: false,
            should_quit: false,
            permanent_delete,
            show_help: false,
            message: None,
            filter: Filter::default(),
            sort_order: config.parse_sort_order(),
            input_mode: InputMode::Normal,
            search_input: String::new(),
            show_filter_bar: config.display.show_filter_bar,
        }
    }

    /// Record that a path is being sized.
    pub fn set_scanning(&mut self, path: String)
        ensures
            *final(self) == (App { scan_path: Some(path), ..*old(self) }),
    {
        self.scan_path = Some(path);
    }

    /// The walk finished: move to browsing.
    pub fn complete_scan(&mut self)
        ensures
            *final(self) == (App { scan_complete: true, state: AppState::Browsing, ..*old(self) }),
    {
        self.scan_complete = true;
        self.state = AppState::Browsing;
    }

    /// Move selection up one row.
    pub fn move_up(&mut self)
        ensures
            *final(self) == (App {
                selected_index: if old(self).selected_index > 0 {
                    (old(self).selected_index - 1) as usize
                } else {
                    0
                },
                ..*old(self)
            }),
    {
        if self.selected_index > 0 {
            self.selected_index = self.selected_index - 1;
        }
    }

    /// Move selection up by `page_size` items.
    pub fn page_up(&mut self, page_size: usize)
        ensures
            *final(self) == (App {
                selected_index: if old(self).selected_index >= page_size {
                    (old(self).selected_index - page_size) as usize
                } else {
                    0
                },
                ..*old(self)
            }),
    {
        if self.selected_index >= page_size {
            self.selected_index = self.selected_index - page_size;
        } else {
            self.selected_index = 0;
        }
    }

    /// Move selection to first item.
    pub fn go_home(&mut self)
        ensures
            *final(self) == (App { selected_index: 0, ..*old(self) }),
    {
        self.selected_index = 0;
    }

    /// Select every folder.
    pub fn select_all(&mut self)
        ensures
            final(self).folders@.len() == old(self).folders@.len(),
            forall|k: int|
                0 <= k < old(self).folders@.len() ==> #[trigger] final(self).folders@[k]
                    == (MarkerFolder { selected: true, ..old(self).folders@[k] }),
            *final(self) == (App { folders: final(self).folders, ..*old(self) }),
    {
        let mut i: usize = 0;
        while i < self.folders.len()
            invariant
                i <= self.folders@.len(),
                self.folders@.len() == old(self).folders@.len(),
                forall|k: int|
                    0 <= k < i ==> #[trigger] self.folders@[k] == (MarkerFolder {
                        selected: true,
                        ..old(self).folders@[k]
                    }),
                forall|k: int|
                    i <= k < self.folders@.len() ==> #[trigger] self.folders@[k] == old(
                        self,
                    ).folders@[k],
                *self == (App { folders: self.folders, ..*old(self) }),
            decreases self.folders@.len() - i,
        {
            let f = &self.folders[i];
            let updated = MarkerFolder {
                path: f.path.clone(),
                size: f.size,
                project_type: f.project_type.clone(),
                selected: true,
                modified_at: f.modified_at,
            };
            proof {
                assert(updated.path@ == self.folders@[i as int].path@);
            }
            self.folders.set(i, updated);
            i = i + 1;
        }
    }

    /// Deselect every folder.
    pub fn select_none(&mut self)
        ensures
            final(self).folders@.len() == old(self).folders@.len(),
            forall|k: int|
                0 <= k < old(self).folders@.len() ==> #[trigger] final(self).folders@[k]
                    == (MarkerFolder { selected: false, ..old(self).folders@[k] }),
            *final(self) == (App { folders: final(self).folders, ..*old(self) }),
    {
        let mut i: usize = 0;
        while i < self.folders.len()
            invariant
                i <= self.folders@.len(),
                self.folders@.len() == old(self).folders@.len(),
                forall|k: int|
                    0 <= k < i ==> #[trigger] self.folders@[k] == (MarkerFolder {
                        selected: false,
                        ..old(self).folders@[k]
                    }),
                forall|k: int|
                    i <= k < self.folders@.len() ==> #[trigger] self.folders@[k] == old(
                        self,
                    ).folders@[k],
                *self == (App { folders: self.folders, ..*old(self) }),
            decreases self.folders@.len() - i,
        {
            let f = &self.folders[i];
            let updated = MarkerFolder {
                path: f.path.clone(),
                size: f.size,
                project_type: f.project_type.clone(),
                selected: false,
                modified_at: f.modified_at,
            };
            self.folders.set(i, updated);
            i = i + 1;
        }
    }

    /// How many folders are selected.
    pub fn selected_count(&self) -> (r: usize)
        ensures
            r as int == count_selected(self.folders@),
    {
        let mut n: usize = 0;
        let mut i: usize = 0;
        while i < self.folders.len()
            invariant
                i <= self.folders@.len(),
                n as int == count_selected(self.folders@.take(i as int)),
                n <= i,
            decreases self.folders@.len() - i,
        {
            proof {
                assert(self.folders@.take(i + 1).drop_last() =~= self.folders@.take(i as int));
                assert(self.folders@.take(i + 1).last() == self.folders@[i as int]);
            }
            if self.folders[i].selected {
                n = n + 1;
            }
            i = i + 1;
        }
        proof {
            assert(self.folders@.take(self.folders@.len() as int) =~= self.folders@);
        }
        n
    }

    /// Total size of the selected folders, saturating at `u64::MAX`.
    pub fn selected_size(&self) -> (r: u64)
        ensures
            sum_selected_sizes(self.folders@) <= u64::MAX ==> r as int == sum_selected_sizes(
                self.folders@,
            ),
            sum_selected_sizes(self.folders@) > u64::MAX ==> r == u64::MAX,
    {
        let mut acc: u64 = 0;
        let mut i: usize = 0;
        while i < self.folders.len()
            invariant
                i <= self.folders@.len(),
                sum_selected_sizes(self.folders@.take(i as int)) <= u64::MAX ==> acc as int
                    == sum_selected_sizes(self.folders@.take(i as int)),
                sum_selected_sizes(self.folders@.take(i as int)) > u64::MAX ==> acc == u64::MAX,
            decreases self.folders@.len() - i,
        {
            proof {
                assert(self.folders@.take(i + 1).drop_last() =~= self.folders@.take(i as int));
                assert(self.folders@.take(i + 1).last() == self.folders@[i as int]);
                lemma_app_sums_nonneg(self.folders@.take(i as int));
            }
            let f = &self.folders[i];
            if f.selected {
                if u64::MAX - acc < f.size {
                    acc = u64::MAX;
                } else {
                    acc = acc + f.size;
                }
            }
            i = i + 1;
        }
        proof {
            assert(self.folders@.take(self.folders@.len() as int) =~= self.folders@);
        }
        acc
    }

    /// Total size of all folders, saturating at `u64::MAX`.
    pub fn total_size(&self) -> (r: u64)
        ensures
            sum_sizes(self.folders@) <= u64::MAX ==> r as int == sum_sizes(self.folders@),
            sum_sizes(self.folders@) > u64::MAX ==> r == u64::MAX,
    {
        let mut acc: u64 = 0;
        let mut i: usize = 0;
        while i < self.folders.len()
            invariant
                i <= self.folders@.len(),
                sum_sizes(self.folders@.take(i as int)) <= u64::MAX ==> acc as int == sum_sizes(
                    self.folders@.take(i as int),
                ),
                sum_sizes(self.folders@.take(i as int)) > u64::MAX ==> acc == u64::MAX,
            decreases self.folders@.len() - i,
        {
            proof {
                assert(self.folders@.take(i + 1).drop_last() =~= self.folders@.take(i as int));
                assert(self.folders@.take(i + 1).last() == self.folders@[i as int]);
                lemma_app_sums_nonneg(self.folders@.take(i as int));
            }
            let f = &self.folders[i];
            if u64::MAX - acc < f.size {
                acc = u64::MAX;
            } else {
                acc = acc + f.size;
            }
            i = i + 1;
        }
        proof {
            assert(self.folders@.take(self.folders@.len() as int) =~= self.folders@);
        }
        acc
    }

    /// The currently selected folders.
    pub fn get_selected_folders(&self) -> (r: Vec<&MarkerFolder>)
        ensures
            r@.map_values(|f: &MarkerFolder| *f) == self.folders@.filter(
                |f: MarkerFolder| f.selected,
            ),
    {
        let mut r: Vec<&MarkerFolder> = Vec::new();
        let mut i: usize = 0;
        proof {
            reveal(Seq::filter);
            assert(r@.map_values(|f: &MarkerFolder| *f) =~= self.folders@.take(0).filter(
                |f: MarkerFolder| f.selected,
            ));
        }
        while i < self.folders.len()
            invariant
                i <= self.folders@.len(),
                r@.map_values(|f: &MarkerFolder| *f) == self.folders@.take(i as int).filter(
                    |f: MarkerFolder| f.selected,
                ),
            decreases self.folders@.len() - i,
        {
            proof {
                reveal(Seq::filter);
                assert(self.folders@.take(i + 1).drop_last() =~= self.folders@.take(i as int));
                assert(self.folders@.take(i + 1).last() == self.folders@[i as int]);
            }
            let f = &self.folders[i];
            if f.selected {
                r.push(f);
            }
            proof {
                assert(r@.map_values(|f: &MarkerFolder| *f) =~= self.folders@.take(i + 1).filter(
                    |f: MarkerFolder| f.selected,
                ));
            }
            i = i + 1;
        }
        proof {
            assert(self.folders@.take(self.folders@.len() as int) =~= self.folders@);
        }
        r
    }

    /// The indices of the folders that pass the filter when the clock reads
    /// `now`, in discovery order.
    pub open spec fn spec_visible(self, now: u64) -> Seq<usize> {
        Seq::new(self.folders@.len() as nat, |i: int| i as usize).filter(
            |u: usize| self.filter.spec_matches(self.folders@[u as int], now),
        )
    }

    /// What a correct answer of `visible_folder_indices` looks like at clock
    /// value `now`: exactly the matching indices, ordered by the sort order,
    /// stably — indices whose folders the order ties stay in ascending
    /// (discovery) order.
    pub open spec fn visible_ok(self, r: Seq<usize>, now: u64) -> bool {
        &&& r.to_multiset() == self.spec_visible(now).to_multiset()
        &&& forall|k: int| 0 <= k < r.len() ==> (#[trigger] r[k]) < self.folders@.len()
        &&& forall|a: int, b: int|
            0 <= a < b < r.len() ==> folder_le(
                self.sort_order,
                self.folders@[r[a] as int],
                self.folders@[r[b] as int],
            )
        &&& forall|a: int, b: int|
            0 <= a < b < r.len() && folder_le(
                self.sort_order,
                self.folders@[(#[trigger] r[b]) as int],
                self.folders@[(#[trigger] r[a]) as int],
            ) ==> r[a] < r[b]
    }

    /// Get filtered and sorted folder indices, reading ages against the
    /// clock value `now`.
    pub fn visible_folder_indices_at(&self, now: u64) -> (r: Vec<usize>)
        ensures
            self.visible_ok(r@, now),
    {
        let ghost pred = |u: usize| self.filter.spec_matches(self.folders@[u as int], now);
        let mut r: Vec<usize> = Vec::new();
        let mut i: usize = 0;
        proof {
            reveal(Seq::filter);
            assert(r@ =~= Seq::new(0, |k: int| k as usize).filter(pred));
        }
        while i < self.folders.len()
            invariant
                i <= self.folders@.len(),
                r@ == Seq::new(i as nat, |k: int| k as usize).filter(pred),
                pred == (|u: usize| self.filter.spec_matches(self.folders@[u as int], now)),
                forall|k: int| 0 <= k < r@.len() ==> (#[trigger] r@[k]) < self.folders@.len(),
                forall|k: int| 0 <= k < r@.len() ==> (#[trigger] r@[k]) < i,
                strictly_increasing(r@),
            decreases self.folders@.len() - i,
        {
            proof {
                reveal(Seq::filter);
                assert(Seq::new((i + 1) as nat, |k: int| k as usize).drop_last() =~= Seq::new(
                    i as nat,
                    |k: int| k as usize,
                ));
                assert(Seq::new((i + 1) as nat, |k: int| k as usize).last() == i as usize);
            }
            if self.filter.matches_at(&self.folders[i], now) {
                r.push(i);
            }
            proof {
                assert(r@ =~= Seq::new((i + 1) as nat, |k: int| k as usize).filter(pred));
            }
            i = i + 1;
        }
        sort_indices_by(&mut r, &self.folders, self.sort_order);
        r
    }

    /// Get filtered and sorted folder indices. Age criteria are read against
    /// the current clock; without an age filter the clock plays no part.
    pub fn visible_folder_indices(&self) -> (r: Vec<usize>)
        ensures
            exists|now: u64| self.visible_ok(r@, now),
            self.filter.max_age is None ==> self.visible_ok(r@, 0),
    {
        let now = match now_unix_secs() {
            Some(n) => n,
            None => 0,
        };
        let r = self.visible_folder_indices_at(now);
        proof {
            assert(self.visible_ok(r@, now));
            if self.filter.max_age is None {
                let p1 = |u: usize| self.filter.spec_matches(self.folders@[u as int], now);
                let p2 = |u: usize| self.filter.spec_matches(self.folders@[u as int], 0u64);
                lemma_filter_agree(Seq::new(self.folders@.len() as nat, |i: int| i as usize), p1, p2);
            }
        }
        r
    }

    /// Get visible folder count (after filtering).
    pub fn visible_count(&self) -> (r: usize)
        ensures
            exists|now: u64| r == self.spec_visible(now).len(),
            self.filter.max_age is None ==> r == self.spec_visible(0).len(),
    {
        let v = self.visible_folder_indices();
        let ghost now0: u64 = choose|now: u64| self.visible_ok(v@, now);
        proof {
            assert(self.visible_ok(v@, now0));
            lemma_visible_len(*self, v@, now0);
            if self.filter.max_age is None {
                lemma_visible_len(*self, v@, 0);
            }
        }
        v.len()
    }

    /// Move selection down one row, stopping at the last visible folder.
    pub fn move_down(&mut self)
        ensures
            *final(self) == (App { selected_index: final(self).selected_index, ..*old(self) }),
            exists|now: u64| final(self).selected_index == #[trigger] spec_move_down(
                *old(self),
                now,
            ),
            old(self).filter.max_age is None ==> final(self).selected_index == spec_move_down(
                *old(self),
                0,
            ),
    {
        let v = self.visible_folder_indices();
        let ghost now0: u64 = choose|now: u64| self.visible_ok(v@, now);
        proof {
            assert(self.visible_ok(v@, now0));
            lemma_visible_len(*self, v@, now0);
            if self.filter.max_age is None {
                lemma_visible_len(*self, v@, 0);
            }
        }
        let visible_count = v.len();
        if visible_count > 0 && self.selected_index < visible_count - 1 {
            self.selected_index = self.selected_index + 1;
        }
        proof {
            assert(self.selected_index == spec_move_down(*old(self), now0));
        }
    }

    /// Move selection down by `page_size` items.
    pub fn page_down(&mut self, page_size: usize)
        requires
            old(self).selected_index + page_size <= usize::MAX,
        ensures
            *final(self) == (App { selected_index: final(self).selected_index, ..*old(self) }),
            exists|now: u64| final(self).selected_index == #[trigger] spec_page_down(
                *old(self),
                page_size,
                now,
            ),
            old(self).filter.max_age is None ==> final(self).selected_index == spec_page_down(
                *old(self),
                page_size,
                0,
            ),
    {
        let v = self.visible_folder_indices();
        let ghost now0: u64 = choose|now: u64| self.visible_ok(v@, now);
        proof {
            assert(self.visible_ok(v@, now0));
            lemma_visible_len(*self, v@, now0);
            if self.filter.max_age is None {
                lemma_visible_len(*self, v@, 0);
            }
        }
        let visible_count = v.len();
        let max_index = if visible_count > 0 {
            visible_count - 1
        } else {
            0
        };
        let target = self.selected_index + page_size;
        self.selected_index = if target < max_index {
            target
        } else {
            max_index
        };
        proof {
            assert(self.selected_index == spec_page_down(*old(self), page_size, now0));
        }
    }

    /// Move selection to last item.
    pub fn go_end(&mut self)
        ensures
            *final(self) == (App { selected_index: final(self).selected_index, ..*old(self) }),
            exists|now: u64| final(self).selected_index == #[trigger] spec_go_end(
                *old(self),
                now,
            ),
            old(self).filter.max_age is None ==> final(self).selected_index == spec_go_end(
                *old(self),
                0,
            ),
    {
        let v = self.visible_folder_indices();
        let ghost now0: u64 = choose|now: u64| self.visible_ok(v@, now);
        proof {
            assert(self.visible_ok(v@, now0));
            lemma_visible_len(*self, v@, now0);
            if self.filter.max_age is None {
                lemma_visible_len(*self, v@, 0);
            }
        }
        let visible_count = v.len();
        if visible_count > 0 {
            self.selected_index = visible_count - 1;
        }
        proof {
            assert(self.selected_index == spec_go_end(*old(self), now0));
        }
    }

    /// Toggle the selection flag of the folder under the cursor: when the
    /// cursor points into the visible list `v`, exactly the folder at the
    /// cursor's visible position has its `selected` flag negated; past the
    /// end of the list nothing changes. The witnessing list is one the
    /// current clock admits, and with no age filter set the clock plays no
    /// part.
    pub fn toggle_selection(&mut self)
        ensures
            *final(self) == (App { folders: final(self).folders, ..*old(self) }),
            final(self).folders@.len() == old(self).folders@.len(),
            exists|v: Seq<usize>, now: u64|
                #[trigger] old(self).visible_ok(v, now) && spec_toggle_outcome(
                    *old(self),
                    *final(self),
                    v,
                ),
            old(self).filter.max_age is None ==> exists|v: Seq<usize>|
                #[trigger] old(self).visible_ok(v, 0) && spec_toggle_outcome(
                    *old(self),
                    *final(self),
                    v,
                ),
    {
        let visible = self.visible_folder_indices();
        let ghost now0: u64 = choose|now: u64| self.visible_ok(visible@, now);
        if self.selected_index < visible.len() {
            let ix = visible[self.selected_index];
            proof {
                assert(self.visible_ok(visible@, now0));
                assert(visible@[old(self).selected_index as int] < self.folders@.len());
            }
            let f = &self.folders[ix];
            let updated = MarkerFolder {
                path: f.path.clone(),
                size: f.size,
                project_type: f.project_type.clone(),
                selected: !f.selected,
                modified_at: f.modified_at,
            };
            self.folders.set(ix, updated);
            proof {
                assert(self.folders@ == old(self).folders@.update(
                    ix as int,
                    MarkerFolder {
                        selected: !old(self).folders@[ix as int].selected,
                        ..old(self).folders@[ix as int]
                    },
                ));
            }
        }
        proof {
            assert(old(self).visible_ok(visible@, now0));
            assert(spec_toggle_outcome(*old(self), *self, visible@));
            if old(self).filter.max_age is None {
                assert(old(self).visible_ok(visible@, 0));
            }
        }
    }

    /// Add a discovered folder, keeping the list ordered by size, largest
    /// first; among equal sizes the newcomer goes last.
    pub fn add_folder(&mut self, folder: MarkerFolder)
        requires
            old(self).wf(),
        ensures
            final(self).wf(),
            *final(self) == (App { folders: final(self).folders, ..*old(self) }),
            exists|p: int|
                0 <= p <= old(self).folders@.len() && (forall|k: int|
                    0 <= k < p ==> (#[trigger] old(self).folders@[k]).size >= folder.size) && (p
                    == old(self).folders@.len() || old(self).folders@[p].size < folder.size)
                    && final(self).folders@ == old(self).folders@.insert(p, folder),
    {
        let mut pos: usize = 0;
        while pos < self.folders.len() && self.folders[pos].size >= folder.size
            invariant
                pos <= self.folders@.len(),
                forall|k: int| 0 <= k < pos ==> (#[trigger] self.folders@[k]).size >= folder.size,
                self.folders@ == old(self).folders@,
                *self == *old(self),
            decreases self.folders@.len() - pos,
        {
            pos = pos + 1;
        }
        self.folders.insert(pos, folder);
        proof {
            let ghost p = pos as int;
            let ghost olds = old(self).folders@;
            let ghost news = self.folders@;
            assert forall|a: int, b: int| 0 <= a < b < news.len() implies (
            #[trigger] news[a]).size >= (#[trigger] news[b]).size by {
                if a < p && b < p {
                    assert(news[a] == olds[a] && news[b] == olds[b]);
                } else if a < p && b == p {
                    assert(news[a] == olds[a]);
                } else if a < p && b > p {
                    assert(news[a] == olds[a] && news[b] == olds[b - 1]);
                } else if a == p && b > p {
                    assert(news[b] == olds[b - 1]);
                    assert(olds[b - 1].size <= olds[p].size);
                } else {
                    assert(news[a] == olds[a - 1] && news[b] == olds[b - 1]);
                }
            }
        }
    }

    /// Drop the folders whose paths were deleted, clamping the cursor to the
    /// remaining list.
    pub fn remove_deleted(&mut self, paths: &Vec<String>)
        requires
            old(self).wf(),
        ensures
            final(self).wf(),
            final(self).folders@ == old(self).folders@.filter(
                |f: MarkerFolder| !paths_contain(paths@, f.path@),
            ),
            *final(self) == (App {
                folders: final(self).folders,
                selected_index: final(self).selected_index,
                ..*old(self)
            }),
            final(self).selected_index == (if old(self).selected_index
                >= final(self).folders@.len() && final(self).folders@.len() > 0 {
                (final(self).folders@.len() - 1) as usize
            } else {
                old(self).selected_index
            }),
    {
        let ghost pred = |f: MarkerFolder| !paths_contain(paths@, f.path@);
        let mut kept: Vec<MarkerFolder> = Vec::new();
        let mut i: usize = 0;
        proof {
            reveal(Seq::filter);
            assert(kept@ =~= old(self).folders@.take(0).filter(pred));
        }
        while i < self.folders.len()
            invariant
                i <= self.folders@.len(),
                self.folders@ == old(self).folders@,
                *self == *old(self),
                pred == (|f: MarkerFolder| !paths_contain(paths@, f.path@)),
                kept@ == old(self).folders@.take(i as int).filter(pred),
            decreases self.folders@.len() - i,
        {
            proof {
                reveal(Seq::filter);
                assert(self.folders@.take(i + 1).drop_last() =~= self.folders@.take(i as int));
                assert(self.folders@.take(i + 1).last() == self.folders@[i as int]);
            }
            let f = &self.folders[i];
            if !paths_have_exec(paths, f.path.as_str()) {
                let copied = MarkerFolder {
                    path: f.path.clone(),
                    size: f.size,
                    project_type: f.project_type.clone(),
                    selected: f.selected,
                    modified_at: f.modified_at,
                };
                proof {
                    assert(copied == self.folders@[i as int]);
                }
                kept.push(copied);
            }
            proof {
                reveal(Seq::filter);
                assert(kept@ =~= self.folders@.take(i + 1).filter(pred));
            }
            i = i + 1;
        }
        proof {
            assert(old(self).folders@.take(old(self).folders@.len() as int) =~= old(
                self,
            ).folders@);
            lemma_filter_keeps_sorted(old(self).folders@, pred);
        }
        self.folders = kept;
        if self.selected_index >= self.folders.len() && self.folders.len() > 0 {
            self.selected_index = self.folders.len() - 1;
        }
    }

    /// Enter search mode.
    pub fn enter_search_mode(&mut self)
        ensures
            *final(self) == (App {
                input_mode: InputMode::Search,
                search_input: final(self).search_input,
                ..*old(self)
            }),
            final(self).search_input@.len() == 0,
    {
        self.input_mode = InputMode::Search;
        self.search_input = String::new();
    }

    /// Exit search mode without applying.
    pub fn exit_search_mode(&mut self)
        ensures
            *final(self) == (App { input_mode: InputMode::Normal, ..*old(self) }),
    {
        self.input_mode = InputMode::Normal;
    }

    /// Apply search query and exit search mode.
    pub fn apply_search(&mut self)
        ensures
            old(self).search_input@.len() == 0 ==> final(self).filter.search_query is None,
            old(self).search_input@.len() > 0 ==> (final(self).filter.search_query matches Some(q)
                && q@ == old(self).search_input@),
            *final(self) == (App {
                filter: final(self).filter,
                input_mode: InputMode::Normal,
                selected_index: 0,
                ..*old(self)
            }),
            final(self).filter == (Filter {
                search_query: final(self).filter.search_query,
                ..old(self).filter
            }),
    {
        if self.search_input.as_str().is_empty() {
            self.filter.search_query = None;
        } else {
            self.filter.search_query = Some(self.search_input.clone());
        }
        self.input_mode = InputMode::Normal;
        self.selected_index = 0;
    }

    /// Toggle filter bar visibility.
    pub fn toggle_filter_bar(&mut self)
        ensures
            *final(self) == (App { show_filter_bar: !old(self).show_filter_bar, ..*old(self) }),
    {
        self.show_filter_bar = !self.show_filter_bar;
    }

    /// Cycle through sort orders.
    pub fn cycle_sort(&mut self)
        ensures
            *final(self) == (App { sort_order: old(self).sort_order.spec_next(), ..*old(self) }),
    {
        self.sort_order = self.sort_order.next();
    }

    /// Clear all filters.
    pub fn clear_filters(&mut self)
        ensures
            final(self).filter.search_query is None,
            final(self).filter.project_types@.len() == 0,
            final(self).filter.min_size is None,
            final(self).filter.max_age is None,
            final(self).search_input@.len() == 0,
            final(self).selected_index == 0,
            *final(self) == (App {
                filter: final(self).filter,
                search_input: final(self).search_input,
                selected_index: 0,
                ..*old(self)
            }),
    {
        self.filter.clear();
        self.search_input = String::new();
        self.selected_index = 0;
    }
}

/// The cursor after moving down one row when the clock reads `now`.
pub open spec fn spec_move_down(app: App, now: u64) -> usize {
    let c = app.spec_visible(now).len();
    if c > 0 && app.selected_index < c - 1 {
        (app.selected_index + 1) as usize
    } else {
        app.selected_index
    }
}

/// The cursor after paging down when the clock reads `now`.
pub open spec fn spec_page_down(app: App, page_size: usize, now: u64) -> usize {
    let c = app.spec_visible(now).len();
    let max_index = if c > 0 {
        c - 1
    } else {
        0
    };
    if app.selected_index + page_size < max_index {
        (app.selected_index + page_size) as usize
    } else {
        max_index as usize
    }
}

/// The cursor after jumping to the end when the clock reads `now`.
pub open spec fn spec_go_end(app: App, now: u64) -> usize {
    let c = app.spec_visible(now).len();
    if c > 0 {
        (c - 1) as usize
    } else {
        app.selected_index
    }
}

/// What toggling leaves behind, read against a visible list `v`: a cursor
/// inside the list negates exactly the `selected` flag of the folder at its
/// visible position; a cursor past the end changes nothing.
pub open spec fn spec_toggle_outcome(pre: App, post: App, v: Seq<usize>) -> bool {
    if pre.selected_index < v.len() {
        post.folders@ == pre.folders@.update(
            v[pre.selected_index as int] as int,
            MarkerFolder {
                selected: !pre.folders@[v[pre.selected_index as int] as int].selected,
                ..pre.folders@[v[pre.selected_index as int] as int]
            },
        )
    } else {
        post == pre
    }
}

/// Holds when some path in `ps` reads as `p`.
pub open spec fn paths_contain(ps: Seq<String>, p: Seq<char>) -> bool {
    exists|k: int| 0 <= k < ps.len() && (#[trigger] ps[k])@ == p
}

fn paths_have_exec(ps: &Vec<String>, p: &str) -> (r: bool)
    ensures
        r == paths_contain(ps@, p@),
{
    let mut k: usize = 0;
    while k < ps.len()
        invariant
            k <= ps.len(),
            forall|j: int| 0 <= j < k ==> (#[trigger] ps@[j])@ != p@,
        decreases ps.len() - k,
    {
        if crate::text::str_eq(ps[k].as_str(), p) {
            return true;
        }
        k = k + 1;
    }
    false
}

proof fn lemma_filter_agree<A>(s: Seq<A>, p1: spec_fn(A) -> bool, p2: spec_fn(A) -> bool)
    requires
        forall|i: int| 0 <= i < s.len() ==> p1(#[trigger] s[i]) == p2(s[i]),
    ensures
        s.filter(p1) == s.filter(p2),
    decreases s.len(),
{
    reveal(Seq::filter);
    if s.len() > 0 {
        assert(forall|i: int| 0 <= i < s.drop_last().len() ==> s.drop_last()[i] == s[i]);
        lemma_filter_agree(s.drop_last(), p1, p2);
    }
}

proof fn lemma_filter_keeps_sorted(s: Seq<MarkerFolder>, pred: spec_fn(MarkerFolder) -> bool)
    requires
        forall|a: int, b: int|
            0 <= a < b < s.len() ==> (#[trigger] s[a]).size >= (#[trigger] s[b]).size,
    ensures
        forall|a: int, b: int|
            0 <= a < b < s.filter(pred).len() ==> (#[trigger] s.filter(pred)[a]).size
                >= (#[trigger] s.filter(pred)[b]).size,
    decreases s.len(),
{
    reveal(Seq::filter);
    if s.len() > 0 {
        let sp = s.drop_last();
        assert(forall|i: int| 0 <= i < sp.len() ==> sp[i] == s[i]);
        lemma_filter_keeps_sorted(sp, pred);
        let fp = sp.filter(pred);
        if pred(s.last()) {
            assert(s.filter(pred) == fp.push(s.last()));
            assert forall|i: int| 0 <= i < fp.len() implies (#[trigger] fp[i]).size >= s.last().size by {
                assert(fp.contains(fp[i]));
                sp.lemma_filter_contains_rev(pred, fp[i]);
                let j = choose|j: int| 0 <= j < sp.len() && sp[j] == fp[i];
                assert(s[j].size >= s[s.len() - 1].size);
            }
        }
    }
}

/// An index sequence in ascending order, each index once.
pub open spec fn strictly_increasing(s: Seq<usize>) -> bool {
    forall|a: int, b: int| 0 <= a < b < s.len() ==> (#[trigger] s[a]) < (#[trigger] s[b])
}

/// Sorts folder indices by the given order: the result holds exactly the
/// same indices, arranged so that earlier entries come no later than later
/// ones under the order's relation. The sort is stable: on an ascending
/// input, indices whose folders the order ties keep their ascending order.
pub fn sort_indices_by(idx: &mut Vec<usize>, folders: &Vec<MarkerFolder>, order: SortOrder)
    requires
        forall|k: int| 0 <= k < old(idx)@.len() ==> (#[trigger] old(idx)@[k]) < folders@.len(),
    ensures
        final(idx)@.to_multiset() == old(idx)@.to_multiset(),
        final(idx)@.len() == old(idx)@.len(),
        forall|k: int| 0 <= k < final(idx)@.len() ==> (#[trigger] final(idx)@[k]) < folders@.len(),
        forall|a: int, b: int|
            0 <= a < b < final(idx)@.len() ==> folder_le(
                order,
                folders@[final(idx)@[a] as int],
                folders@[final(idx)@[b] as int],
            ),
        strictly_increasing(old(idx)@) ==> forall|a: int, b: int|
            0 <= a < b < final(idx)@.len() && folder_le(
                order,
                folders@[(#[trigger] final(idx)@[b]) as int],
                folders@[(#[trigger] final(idx)@[a]) as int],
            ) ==> final(idx)@[a] < final(idx)@[b],
{
    broadcast use vstd::seq_lib::group_to_multiset_ensures;

    let mut work: Vec<usize> = Vec::new();
    let mut j: usize = 0;
    while j < idx.len()
        invariant
            j <= idx@.len(),
            idx@ == old(idx)@,
            work@ == idx@.take(j as int),
        decreases idx@.len() - j,
    {
        proof {
            assert(idx@.take(j + 1) =~= idx@.take(j as int).push(idx@[j as int]));
        }
        work.push(idx[j]);
        j = j + 1;
    }
    proof {
        assert(idx@.take(idx@.len() as int) =~= idx@);
    }
    let mut out: Vec<usize> = Vec::new();
    proof {
        assert(out@.to_multiset().add(work@.to_multiset()) =~= old(idx)@.to_multiset());
    }
    while work.len() > 0
        invariant
            out@.to_multiset().add(work@.to_multiset()) == old(idx)@.to_multiset(),
            forall|k: int| 0 <= k < work@.len() ==> (#[trigger] work@[k]) < folders@.len(),
            forall|k: int| 0 <= k < out@.len() ==> (#[trigger] out@[k]) < folders@.len(),
            forall|a: int, b: int|
                0 <= a < b < out@.len() ==> folder_le(
                    order,
                    folders@[out@[a] as int],
                    folders@[out@[b] as int],
                ),
            forall|o: int, w: int|
                0 <= o < out@.len() && 0 <= w < work@.len() ==> folder_le(
                    order,
                    folders@[(#[trigger] out@[o]) as int],
                    folders@[(#[trigger] work@[w]) as int],
                ),
            strictly_increasing(old(idx)@) ==> strictly_increasing(work@),
            strictly_increasing(old(idx)@) ==> forall|a: int, b: int|
                0 <= a < b < out@.len() && folder_le(
                    order,
                    folders@[(#[trigger] out@[b]) as int],
                    folders@[(#[trigger] out@[a]) as int],
                ) ==> out@[a] < out@[b],
            strictly_increasing(old(idx)@) ==> forall|o: int, w: int|
                0 <= o < out@.len() && 0 <= w < work@.len() && folder_le(
                    order,
                    folders@[(#[trigger] work@[w]) as int],
                    folders@[(#[trigger] out@[o]) as int],
                ) ==> out@[o] < work@[w],
        decreases work@.len(),
    {
        let mut m: usize = 0;
        let mut t: usize = 1;
        proof {
            lemma_folder_le_total(
                order,
                folders@[work@[0] as int],
                folders@[work@[0] as int],
            );
        }
        while t < work.len()
            invariant
                m < t <= work@.len(),
                work@.len() > 0,
                forall|k: int| 0 <= k < work@.len() ==> (#[trigger] work@[k]) < folders@.len(),
                forall|k: int|
                    0 <= k < t ==> folder_le(
                        order,
                        folders@[work@[m as int] as int],
                        folders@[(#[trigger] work@[k]) as int],
                    ),
                forall|k: int|
                    0 <= k < m ==> !folder_le(
                        order,
                        folders@[(#[trigger] work@[k]) as int],
                        folders@[work@[m as int] as int],
                    ),
            decreases work@.len() - t,
        {
            if !crate::filter::folder_le_exec(order, &folders[work[m]], &folders[work[t]]) {
                proof {
                    lemma_folder_le_total(
                        order,
                        folders@[work@[m as int] as int],
                        folders@[work@[t as int] as int],
                    );
                    assert forall|k: int|
                        0 <= k < t + 1 implies folder_le(
                        order,
                        folders@[work@[t as int] as int],
                        folders@[(#[trigger] work@[k]) as int],
                    ) by {
                        if k < t {
                            lemma_folder_le_trans(
                                order,
                                folders@[work@[t as int] as int],
                                folders@[work@[m as int] as int],
                                folders@[work@[k] as int],
                            );
                        } else {
                            lemma_folder_le_total(
                                order,
                                folders@[work@[t as int] as int],
                                folders@[work@[t as int] as int],
                            );
                        }
                    }
                    assert forall|k: int| 0 <= k < t implies !folder_le(
                        order,
                        folders@[(#[trigger] work@[k]) as int],
                        folders@[work@[t as int] as int],
                    ) by {
                        if folder_le(
                            order,
                            folders@[work@[k] as int],
                            folders@[work@[t as int] as int],
                        ) {
                            if k < m {
                                lemma_folder_le_trans(
                                    order,
                                    folders@[work@[k] as int],
                                    folders@[work@[t as int] as int],
                                    folders@[work@[m as int] as int],
                                );
                            } else {
                                lemma_folder_le_trans(
                                    order,
                                    folders@[work@[m as int] as int],
                                    folders@[work@[k] as int],
                                    folders@[work@[t as int] as int],
                                );
                            }
                        }
                    }
                }
                m = t;
            }
            t = t + 1;
        }
        let chosen = work[m];
        let ghost old_out = out@;
        let ghost old_work = work@;
        out.push(chosen);
        work.remove(m);
        proof {
            broadcast use vstd::seq_lib::group_to_multiset_ensures;

            assert(out@ == old_out.push(chosen));
            assert(old_out.push(chosen).to_multiset() =~= old_out.to_multiset().insert(chosen));
            assert(work@ == old_work.remove(m as int));
            assert(old_work.remove(m as int).to_multiset() =~= old_work.to_multiset().remove(
                old_work[m as int],
            ));
            assert(old_work[m as int] == chosen);
            assert(old_work.to_multiset().count(chosen) >= 1) by {
                assert(old_work[m as int] == chosen);
                assert(old_work.contains(chosen));
            }
            assert(out@.to_multiset().add(work@.to_multiset()) =~= old_out.to_multiset().add(
                old_work.to_multiset(),
            ));
            assert forall|w: int| 0 <= w < work@.len() implies folder_le(
                order,
                folders@[chosen as int],
                folders@[(#[trigger] work@[w]) as int],
            ) by {
                if w < m {
                    assert(work@[w] == old_work[w]);
                } else {
                    assert(work@[w] == old_work[w + 1]);
                }
            }
            assert forall|a: int, b: int| 0 <= a < b < out@.len() implies folder_le(
                order,
                folders@[out@[a] as int],
                folders@[out@[b] as int],
            ) by {
                assert(out@[a] == old_out[a]);
                if b < out@.len() - 1 {
                    assert(out@[b] == old_out[b]);
                } else {
                    assert(out@[b] == chosen);
                    assert(folder_le(
                        order,
                        folders@[old_out[a] as int],
                        folders@[old_work[m as int] as int],
                    ));
                }
            }
            assert forall|o: int, w: int|
                0 <= o < out@.len() && 0 <= w < work@.len() implies folder_le(
                order,
                folders@[(#[trigger] out@[o]) as int],
                folders@[(#[trigger] work@[w]) as int],
            ) by {
                let ow = if w < m {
                    old_work[w]
                } else {
                    old_work[w + 1]
                };
                assert(work@[w] == ow);
                if o < out@.len() - 1 {
                    assert(out@[o] == old_out[o]);
                } else {
                    assert(out@[o] == chosen);
                }
            }
            if strictly_increasing(old(idx)@) {
                assert forall|a: int, b: int| 0 <= a < b < work@.len() implies (
                #[trigger] work@[a]) < (#[trigger] work@[b]) by {
                    let oa = if a < m {
                        a
                    } else {
                        a + 1
                    };
                    let ob = if b < m {
                        b
                    } else {
                        b + 1
                    };
                    assert(work@[a] == old_work[oa] && work@[b] == old_work[ob]);
                }
                assert forall|a: int, b: int|
                    0 <= a < b < out@.len() && folder_le(
                    order,
                    folders@[(#[trigger] out@[b]) as int],
                    folders@[(#[trigger] out@[a]) as int],
                ) implies out@[a] < out@[b] by {
                    assert(out@[a] == old_out[a]);
                    if b < out@.len() - 1 {
                        assert(out@[b] == old_out[b]);
                    } else {
                        assert(out@[b] == chosen);
                        assert(folder_le(
                            order,
                            folders@[old_work[m as int] as int],
                            folders@[old_out[a] as int],
                        ));
                        assert(old_out[a] < old_work[m as int]);
                    }
                }
                assert forall|o: int, w: int|
                    0 <= o < out@.len() && 0 <= w < work@.len() && folder_le(
                    order,
                    folders@[(#[trigger] work@[w]) as int],
                    folders@[(#[trigger] out@[o]) as int],
                ) implies out@[o] < work@[w] by {
                    let k = if w < m {
                        w
                    } else {
                        w + 1
                    };
                    assert(work@[w] == old_work[k]);
                    if o < out@.len() - 1 {
                        assert(out@[o] == old_out[o]);
                    } else {
                        assert(out@[o] == chosen);
                        if k < m {
                            assert(!folder_le(
                                order,
                                folders@[old_work[k] as int],
                                folders@[old_work[m as int] as int],
                            ));
                        } else {
                            assert(old_work[m as int] < old_work[k]);
                        }
                    }
                }
            }
        }
    }
    proof {
        assert(work@.to_multiset() =~= Multiset::<usize>::empty());
        assert(out@.to_multiset().add(Multiset::<usize>::empty()) =~= out@.to_multiset());
        assert(out@.to_multiset() == old(idx)@.to_multiset());
        assert(out@.len() == out@.to_multiset().len());
        assert(old(idx)@.len() == old(idx)@.to_multiset().len());
    }
    *idx = out;
}

proof fn lemma_visible_len(app: App, v: Seq<usize>, now: u64)
    requires
        app.visible_ok(v, now),
    ensures
        v.len() == app.spec_visible(now).len(),
{
    broadcast use vstd::seq_lib::group_to_multiset_ensures;

    assert(v.to_multiset() == app.spec_visible(now).to_multiset());
    assert(v.len() == v.to_multiset().len());
    assert(app.spec_visible(now).len() == app.spec_visible(now).to_multiset().len());
}

} // verus!
