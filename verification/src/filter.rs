//! Filtering and search functionality for folder lists.

use vstd::prelude::*;

use crate::clock::now_unix_secs;
use crate::scanner::MarkerFolder;
use crate::text::{contains_seq, contains_sub, lower_of, lowercase, str_eq};

verus! {

/// Filter criteria for folders. `max_age` is in whole seconds: folders whose
/// last modification lies at least that far in the past pass the filter.
#[derive(Clone)]
pub struct Filter {
    /// Text search in path (case-insensitive).
    pub search_query: Option<String>,
    /// Filter by project types (empty = all).
    pub project_types: Vec<String>,
    /// Minimum size in bytes.
    pub min_size: Option<u64>,
    /// Maximum age in seconds (folders older than this pass).
    pub max_age: Option<u64>,
}

impl Default for Filter {
    /// The empty filter: everything matches.
    fn default() -> (r: Filter)
        ensures
            r.search_query is None,
            r.project_types@.len() == 0,
            r.min_size is None,
            r.max_age is None,
    {
        Filter { search_query: None, project_types: Vec::new(), min_size: None, max_age: None }
    }
}

impl Filter {
    /// What `matches` decides when the clock reads `now`: the folder passes
    /// every criterion that is set.
    pub open spec fn spec_matches(self, folder: MarkerFolder, now: u64) -> bool {
        &&& (self.search_query matches Some(q) ==> contains_seq(
            lower_of(folder.path@),
            lower_of(q@),
        ))
        &&& (self.project_types.len() > 0 ==> exists|k: int|
            0 <= k < self.project_types.len() && (#[trigger] self.project_types[k])@
                == folder.project_type@)
        &&& (self.min_size matches Some(m) ==> folder.size >= m)
        &&& (self.max_age matches Some(age) ==> (folder.modified_at matches Some(m) ==> (now >= m
            ==> now - m >= age)))
    }

    /// Check if folder matches all filter criteria, reading ages against the
    /// clock value `now`.
    pub fn matches_at(&self, folder: &MarkerFolder, now: u64) -> (r: bool)
        ensures
            r == self.spec_matches(*folder, now),
    {
        if let Some(query) = &self.search_query {
            let path_lower = lowercase(folder.path.as_str());
            let query_lower = lowercase(query.as_str());
            if !contains_sub(path_lower.as_str(), query_lower.as_str()) {
                return false;
            }
        }
        if self.project_types.len() > 0 {
            let mut found = false;
            let mut k: usize = 0;
            while k < self.project_types.len()
                invariant
                    k <= self.project_types.len(),
                    found ==> exists|j: int|
                        0 <= j < self.project_types.len() && (#[trigger] self.project_types[j])@
                            == folder.project_type@,
                    !found ==> forall|j: int|
                        0 <= j < k ==> (#[trigger] self.project_types[j])@
                            != folder.project_type@,
                ensures
                    found == exists|j: int|
                        0 <= j < self.project_types.len() && (#[trigger] self.project_types[j])@
                            == folder.project_type@,
                decreases self.project_types.len() - k,
            {
                if str_eq(self.project_types[k].as_str(), folder.project_type.as_str()) {
                    found = true;
                    break;
                }
                k = k + 1;
            }
            if !found {
                return false;
            }
        }
        if let Some(min) = self.min_size {
            if folder.size < min {
                return false;
            }
        }
        if let Some(age) = self.max_age {
            if let Some(modified) = folder.modified_at {
                if now >= modified && now - modified < age {
                    return false;
                }
            }
        }
        true
    }

    /// Check if folder matches all filter criteria. Age criteria are read
    /// against the current clock; when no age filter is set the clock plays
    /// no part in the answer.
    pub fn matches(&self, folder: &MarkerFolder) -> (r: bool)
        ensures
            exists|now: u64| r == self.spec_matches(*folder, now),
            self.max_age is None ==> r == self.spec_matches(*folder, 0),
    {
        let now = match now_unix_secs() {
            Some(n) => n,
            None => 0,
        };
        let r = self.matches_at(folder, now);
        proof {
            if self.max_age is None {
                assert(self.spec_matches(*folder, now) == self.spec_matches(*folder, 0));
            }
        }
        r
    }

    /// Check if any filter is active.
    pub fn is_active(&self) -> (r: bool)
        ensures
            r == (self.search_query is Some || self.project_types.len() > 0
                || self.min_size is Some || self.max_age is Some),
    {
        self.search_query.is_some() || self.project_types.len() > 0 || self.min_size.is_some()
            || self.max_age.is_some()
    }

    /// Clear all filters.
    pub fn clear(&mut self)
        ensures
            final(self).search_query is None,
            final(self).project_types@.len() == 0,
            final(self).min_size is None,
            final(self).max_age is None,
    {
        *self = Filter::default();
    }
}

/// Sort order for the folder list.
#[derive(Clone, Copy, Debug, PartialEq, Eq, Structural)]
pub enum SortOrder {
    SizeDesc,
    SizeAsc,
    NameAsc,
    NameDesc,
    DateDesc,
    DateAsc,
}

impl Default for SortOrder {
    fn default() -> (r: SortOrder)
        ensures
            r == SortOrder::SizeDesc,
    {
        SortOrder::SizeDesc
    }
}

impl SortOrder {
    /// The successor in the cycle of sort orders.
    pub open spec fn spec_next(self) -> SortOrder {
        match self {
            SortOrder::SizeDesc => SortOrder::SizeAsc,
            SortOrder::SizeAsc => SortOrder::NameAsc,
            SortOrder::NameAsc => SortOrder::NameDesc,
            SortOrder::NameDesc => SortOrder::DateDesc,
            SortOrder::DateDesc => SortOrder::DateAsc,
            SortOrder::DateAsc => SortOrder::SizeDesc,
        }
    }

    /// Cycle to next sort order.
    pub fn next(&self) -> (r: SortOrder)
        ensures
            r == self.spec_next(),
    {
        match self {
            SortOrder::SizeDesc => SortOrder::SizeAsc,
            SortOrder::SizeAsc => SortOrder::NameAsc,
            SortOrder::NameAsc => SortOrder::NameDesc,
            SortOrder::NameDesc => SortOrder::DateDesc,
            SortOrder::DateDesc => SortOrder::DateAsc,
            SortOrder::DateAsc => SortOrder::SizeDesc,
        }
    }

    /// The human-readable label of this sort order.
    pub open spec fn spec_label(self) -> Seq<char> {
        match self {
            SortOrder::SizeDesc => "Size ↓"@,
            SortOrder::SizeAsc => "Size ↑"@,
            SortOrder::NameAsc => "Name A-Z"@,
            SortOrder::NameDesc => "Name Z-A"@,
            SortOrder::DateDesc => "Newest"@,
            SortOrder::DateAsc => "Oldest"@,
        }
    }

    /// Human-readable label.
    pub fn label(&self) -> (r: &'static str)
        ensures
            r@ == self.spec_label(),
    {
        match self {
            SortOrder::SizeDesc => "Size ↓",
            SortOrder::SizeAsc => "Size ↑",
            SortOrder::NameAsc => "Name A-Z",
            SortOrder::NameDesc => "Name Z-A",
            SortOrder::DateDesc => "Newest",
            SortOrder::DateAsc => "Oldest",
        }
    }
}

/// Ordering on optional timestamps: absence sorts before any time.
pub open spec fn opt_le(a: Option<u64>, b: Option<u64>) -> bool {
    match (a, b) {
        (Option::None, _) => true,
        (Option::Some(_), Option::None) => false,
        (Option::Some(x), Option::Some(y)) => x <= y,
    }
}

/// The "comes no later than" relation each sort order imposes on folders.
pub open spec fn folder_le(order: SortOrder, a: MarkerFolder, b: MarkerFolder) -> bool {
    match order {
        SortOrder::SizeDesc => a.size >= b.size,
        SortOrder::SizeAsc => a.size <= b.size,
        SortOrder::NameAsc => crate::text::lex_le(a.path@, b.path@),
        SortOrder::NameDesc => crate::text::lex_le(b.path@, a.path@),
        SortOrder::DateDesc => opt_le(b.modified_at, a.modified_at),
        SortOrder::DateAsc => opt_le(a.modified_at, b.modified_at),
    }
}

/// Every sort order relates any two folders one way or the other.
pub proof fn lemma_folder_le_total(order: SortOrder, a: MarkerFolder, b: MarkerFolder)
    ensures
        folder_le(order, a, b) || folder_le(order, b, a),
{
    crate::text::lemma_lex_le_total(a.path@, b.path@);
}

/// Every sort order is transitive.
pub proof fn lemma_folder_le_trans(order: SortOrder, a: MarkerFolder, b: MarkerFolder, c: MarkerFolder)
    ensures
        folder_le(order, a, b) && folder_le(order, b, c) ==> folder_le(order, a, c),
{
    if folder_le(order, a, b) && folder_le(order, b, c) {
        match order {
            SortOrder::NameAsc => {
                crate::text::lemma_lex_le_trans(a.path@, b.path@, c.path@);
            },
            SortOrder::NameDesc => {
                crate::text::lemma_lex_le_trans(c.path@, b.path@, a.path@);
            },
            _ => {},
        }
    }
}

/// Decides `folder_le` for a sort order.
pub fn folder_le_exec(order: SortOrder, a: &MarkerFolder, b: &MarkerFolder) -> (r: bool)
    ensures
        r == folder_le(order, *a, *b),
{
    match order {
        SortOrder::SizeDesc => a.size >= b.size,
        SortOrder::SizeAsc => a.size <= b.size,
        SortOrder::NameAsc => crate::text::str_le(a.path.as_str(), b.path.as_str()),
        SortOrder::NameDesc => crate::text::str_le(b.path.as_str(), a.path.as_str()),
        SortOrder::DateDesc => opt_le_exec(&b.modified_at, &a.modified_at),
        SortOrder::DateAsc => opt_le_exec(&a.modified_at, &b.modified_at),
    }
}

fn opt_le_exec(a: &Option<u64>, b: &Option<u64>) -> (r: bool)
    ensures
        r == opt_le(*a, *b),
{
    match (a, b) {
        (Option::None, _) => true,
        (Option::Some(_), Option::None) => false,
        (Option::Some(x), Option::Some(y)) => *x <= *y,
    }
}

} // verus!
