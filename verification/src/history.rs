//! Deletion history: a size-bounded, append-only ledger of completed
//! deletion batches, queried to find and replay an undo.

use vstd::prelude::*;

use crate::clock::now_unix_secs;

verus! {

/// Maximum history entries to retain.
pub const MAX_HISTORY_ENTRIES: usize = 100;

/// Deletion method used.
#[derive(Debug, Clone, Copy, PartialEq, Eq, Structural)]
pub enum DeletionMethod {
    Trash,
    Permanent,
}

/// Record of a single deletion operation. `timestamp` is in whole seconds
/// since the Unix epoch, set at construction.
#[derive(Debug)]
pub struct DeletionRecord {
    pub timestamp: u64,
    pub paths: Vec<String>,
    pub total_size: u64,
    pub method: DeletionMethod,
}

/// The mathematical content of a record: its paths as character sequences.
pub struct RecordView {
    pub timestamp: u64,
    pub paths: Seq<Seq<char>>,
    pub total_size: u64,
    pub method: DeletionMethod,
}

impl View for DeletionRecord {
    type V = RecordView;

    open spec fn view(&self) -> RecordView {
        RecordView {
            timestamp: self.timestamp,
            paths: self.paths.deep_view(),
            total_size: self.total_size,
            method: self.method,
        }
    }
}

impl DeletionRecord {
    /// A record stamped with the current time; a clock reading before the
    /// epoch stamps zero.
    pub fn new(paths: Vec<String>, total_size: u64, method: DeletionMethod) -> (r: DeletionRecord)
        ensures
            r.paths == paths,
            r.total_size == total_size,
            r.method == method,
    {
        let timestamp: u64 = match now_unix_secs() {
            Some(s) => s,
            None => 0,
        };
        DeletionRecord { timestamp, paths, total_size, method }
    }

    /// Only trash-based deletions can be undone.
    pub fn can_undo(&self) -> (r: bool)
        ensures
            r == (self.method == DeletionMethod::Trash),
    {
        match self.method {
            DeletionMethod::Trash => true,
            DeletionMethod::Permanent => false,
        }
    }

    /// A field-for-field copy, with its contents pinned down.
    pub fn duplicate(&self) -> (r: DeletionRecord)
        ensures
            r@ == self@,
            r.paths@.len() == self.paths@.len(),
    {
        let paths = self.paths.clone();
        proof {
            assert forall|i: int| 0 <= i < self.paths@.len() implies (#[trigger] paths@[i])@
                == self.paths@[i]@ by {
                assert(vstd::pervasive::cloned::<String>(self.paths@[i], paths@[i]));
            }
            assert(paths.deep_view() =~= self.paths.deep_view());
        }
        DeletionRecord {
            timestamp: self.timestamp,
            paths,
            total_size: self.total_size,
            method: self.method,
        }
    }
}

/// The index of the most recent record whose method is `Trash`.
pub open spec fn spec_last_undoable(s: Seq<DeletionRecord>) -> Option<int>
    decreases s.len(),
{
    if s.len() == 0 {
        None
    } else if s.last().method == DeletionMethod::Trash {
        Some(s.len() - 1)
    } else {
        spec_last_undoable(s.drop_last())
    }
}

/// The most recent Trash-method record is returned even when more recent
/// Permanent-method records follow it: the found index carries the Trash
/// method, nothing after it does, and only an all-Permanent history has none.
pub proof fn lemma_last_undoable_is_most_recent_trash(s: Seq<DeletionRecord>)
    ensures
        spec_last_undoable(s) matches Some(i) ==> 0 <= i < s.len() && s[i].method
            == DeletionMethod::Trash && forall|j: int|
            i < j < s.len() ==> (#[trigger] s[j]).method != DeletionMethod::Trash,
        spec_last_undoable(s) is None ==> forall|j: int|
            0 <= j < s.len() ==> (#[trigger] s[j]).method != DeletionMethod::Trash,
    decreases s.len(),
{
    if s.len() > 0 && s.last().method != DeletionMethod::Trash {
        lemma_last_undoable_is_most_recent_trash(s.drop_last());
        match spec_last_undoable(s) {
            Some(i) => {
                assert forall|j: int| i < j < s.len() implies (#[trigger] s[j]).method
                    != DeletionMethod::Trash by {
                    if j < s.len() - 1 {
                        assert(s.drop_last()[j] == s[j]);
                    }
                }
            },
            None => {
                assert forall|j: int| 0 <= j < s.len() implies (#[trigger] s[j]).method
                    != DeletionMethod::Trash by {
                    if j < s.len() - 1 {
                        assert(s.drop_last()[j] == s[j]);
                    }
                }
            },
        }
    }
}

/// Deletion history manager.
#[derive(Debug)]
pub struct History {
    pub records: Vec<DeletionRecord>,
}

impl Default for History {
    /// The empty history.
    fn default() -> (r: History)
        ensures
            r.records@.len() == 0,
    {
        History { records: Vec::new() }
    }
}

impl History {
    /// What the ledger holds after appending `record` and evicting from the
    /// front down to the size bound.
    pub open spec fn spec_after_add(s: Seq<DeletionRecord>, record: DeletionRecord) -> Seq<
        DeletionRecord,
    > {
        let full = s.push(record);
        if full.len() > MAX_HISTORY_ENTRIES {
            full.skip(full.len() - MAX_HISTORY_ENTRIES as int)
        } else {
            full
        }
    }

    /// Add a deletion record, evicting the earliest records once the ledger
    /// exceeds its bound; the remainder keeps its relative order, and the
    /// ledger never holds more than `MAX_HISTORY_ENTRIES` records.
    pub fn add(&mut self, record: DeletionRecord)
        ensures
            final(self).records@ == Self::spec_after_add(old(self).records@, record),
            final(self).records@.len() <= MAX_HISTORY_ENTRIES,
            final(self).records@.len() > 0,
    {
        let ghost full = old(self).records@.push(record);
        self.records.push(record);
        proof {
            assert(full.skip(0) =~= full);
        }
        while self.records.len() > MAX_HISTORY_ENTRIES
            invariant
                self.records@.len() <= full.len(),
                full.len() > MAX_HISTORY_ENTRIES ==> self.records@.len() >= MAX_HISTORY_ENTRIES,
                full.len() <= MAX_HISTORY_ENTRIES ==> self.records@.len() == full.len(),
                self.records@ =~= full.skip(full.len() - self.records@.len()),
            decreases self.records.len(),
        {
            self.records.remove(0);
            proof {
                assert(self.records@ =~= full.skip(full.len() - self.records@.len()));
            }
        }
        proof {
            if full.len() > MAX_HISTORY_ENTRIES {
                assert(self.records@.len() == MAX_HISTORY_ENTRIES);
                assert(full.len() - self.records@.len() == full.len()
                    - MAX_HISTORY_ENTRIES as int);
            } else {
                assert(full.len() - self.records@.len() == 0);
                assert(full.skip(0) =~= full);
            }
        }
    }

    /// Get the last undoable deletion.
    pub fn last_undoable(&self) -> (r: Option<&DeletionRecord>)
        ensures
            match spec_last_undoable(self.records@) {
                Some(i) => r matches Some(rec) && *rec == self.records@[i],
                None => r is None,
            },
    {
        let mut k: usize = self.records.len();
        proof {
            assert(self.records@.take(self.records@.len() as int) =~= self.records@);
        }
        loop
            invariant
                k <= self.records.len(),
                spec_last_undoable(self.records@) == spec_last_undoable(
                    self.records@.take(k as int),
                ),
            decreases k,
        {
            if k == 0 {
                return None;
            }
            let rec = &self.records[k - 1];
            proof {
                assert(self.records@.take(k as int).last() == self.records@[k - 1]);
                assert(self.records@.take(k as int).drop_last() =~= self.records@.take(k - 1));
            }
            if rec.can_undo() {
                return Some(rec);
            }
            k = k - 1;
        }
    }

    /// Remove the most recent Trash-method record; a no-op if none exists.
    pub fn remove_last_undoable(&mut self)
        ensures
            match spec_last_undoable(old(self).records@) {
                Some(i) => final(self).records@ == old(self).records@.remove(i),
                None => final(self).records@ == old(self).records@,
            },
    {
        let mut k: usize = self.records.len();
        proof {
            assert(self.records@.take(self.records@.len() as int) =~= self.records@);
        }
        loop
            invariant
                k <= self.records.len(),
                self.records@ == old(self).records@,
                spec_last_undoable(self.records@) == spec_last_undoable(
                    self.records@.take(k as int),
                ),
            decreases k,
        {
            if k == 0 {
                return ;
            }
            proof {
                assert(self.records@.take(k as int).last() == self.records@[k - 1]);
                assert(self.records@.take(k as int).drop_last() =~= self.records@.take(k - 1));
            }
            if self.records[k - 1].can_undo() {
                self.records.remove(k - 1);
                return ;
            }
            k = k - 1;
        }
    }

    /// Records the batch only when its execution fully succeeded: a failed
    /// or partial batch leaves the ledger exactly as it was.
    pub fn record_outcome(&mut self, execution_ok: bool, record: DeletionRecord)
        ensures
            execution_ok ==> final(self).records@ == Self::spec_after_add(
                old(self).records@,
                record,
            ),
            !execution_ok ==> final(self).records@ == old(self).records@,
    {
        if execution_ok {
            self.add(record);
        }
    }

    /// After an undo attempt: when at least one path was restored, the
    /// restored record leaves the ledger; otherwise nothing changes. Returns
    /// whether the ledger changed and so needs persisting.
    pub fn finish_undo(&mut self, restored_count: usize) -> (changed: bool)
        ensures
            restored_count == 0 ==> !changed && final(self).records@ == old(self).records@,
            restored_count > 0 ==> match spec_last_undoable(old(self).records@) {
                Some(i) => changed && final(self).records@ == old(self).records@.remove(i),
                None => !changed && final(self).records@ == old(self).records@,
            },
    {
        if restored_count == 0 {
            return false;
        }
        let had = self.last_undoable().is_some();
        if had {
            self.remove_last_undoable();
        }
        had
    }
}

} // verus!
