//! Space analysis and report generation: pure aggregation over the folders
//! a scan discovered.

use vstd::prelude::*;

use crate::app::sum_sizes;
use crate::clock::now_unix_secs;
use crate::filter::folder_le;
use crate::filter::SortOrder;
use crate::scanner::MarkerFolder;
use crate::text::str_eq;
use crate::utils::{format_size, spec_format_size};

verus! {

/// Seconds in a week, in thirty days, and in ninety days.
pub const WEEK_SECS: u64 = 604800;

pub const MONTH_SECS: u64 = 2592000;

pub const QUARTER_SECS: u64 = 7776000;

/// Statistics for a project type.
#[derive(Debug)]
pub struct TypeStats {
    pub count: usize,
    pub total_size: u64,
    pub avg_size: u64,
}

/// One project type's entry in the report.
#[derive(Debug)]
pub struct TypeEntry {
    pub name: String,
    pub stats: TypeStats,
}

/// Age breakdown of folders.
#[derive(Debug)]
pub struct AgeBreakdown {
    pub under_1_week: usize,
    pub under_1_month: usize,
    pub under_3_months: usize,
    pub over_3_months: usize,
}

impl Default for AgeBreakdown {
    fn default() -> (r: AgeBreakdown)
        ensures
            r.under_1_week == 0,
            r.under_1_month == 0,
            r.under_3_months == 0,
            r.over_3_months == 0,
    {
        AgeBreakdown { under_1_week: 0, under_1_month: 0, under_3_months: 0, over_3_months: 0 }
    }
}

/// Summary of a single folder.
#[derive(Debug)]
pub struct FolderSummary {
    pub path: String,
    pub size: u64,
    pub size_human: String,
    pub project_type: String,
}

/// Complete space analysis report.
#[derive(Debug)]
pub struct SpaceReport {
    pub total_folders: usize,
    pub total_size: u64,
    pub total_size_human: String,
    pub by_project_type: Vec<TypeEntry>,
    pub age_breakdown: AgeBreakdown,
    pub top_10_largest: Vec<FolderSummary>,
}

/// How many folders carry the given project type.
pub open spec fn count_type(s: Seq<MarkerFolder>, t: Seq<char>) -> int
    decreases s.len(),
{
    if s.len() == 0 {
        0
    } else {
        count_type(s.drop_last(), t) + if s.last().project_type@ == t {
            1int
        } else {
            0int
        }
    }
}

/// The total size of the folders carrying the given project type.
pub open spec fn sum_type(s: Seq<MarkerFolder>, t: Seq<char>) -> int
    decreases s.len(),
{
    if s.len() == 0 {
        0
    } else {
        sum_type(s.drop_last(), t) + if s.last().project_type@ == t {
            s.last().size as int
        } else {
            0int
        }
    }
}

proof fn lemma_type_sums_nonneg(s: Seq<MarkerFolder>, t: Seq<char>)
    ensures
        0 <= count_type(s, t) <= s.len(),
        0 <= sum_type(s, t),
    decreases s.len(),
{
    if s.len() > 0 {
        lemma_type_sums_nonneg(s.drop_last(), t);
    }
}

proof fn lemma_count_type_zero(s: Seq<MarkerFolder>, t: Seq<char>)
    requires
        forall|j: int| 0 <= j < s.len() ==> (#[trigger] s[j]).project_type@ != t,
    ensures
        count_type(s, t) == 0,
    decreases s.len(),
{
    if s.len() > 0 {
        assert(forall|j: int| 0 <= j < s.drop_last().len() ==> s.drop_last()[j] == s[j]);
        lemma_count_type_zero(s.drop_last(), t);
    }
}

/// Whether a folder's age, read at clock value `now`, lies in `[lo, hi)`.
/// Folders without a readable timestamp, or stamped in the future, never
/// count.
pub open spec fn age_in(f: MarkerFolder, now: u64, lo: u64, hi: u64) -> bool {
    f.modified_at matches Some(m) && now >= m && lo <= now - m < hi
}

/// Whether a folder's age, read at clock value `now`, is at least `lo`.
pub open spec fn age_at_least(f: MarkerFolder, now: u64, lo: u64) -> bool {
    f.modified_at matches Some(m) && now >= m && now - m >= lo
}

/// How many folders fall in the age window `[lo, hi)`.
pub open spec fn count_age_in(s: Seq<MarkerFolder>, now: u64, lo: u64, hi: u64) -> int
    decreases s.len(),
{
    if s.len() == 0 {
        0
    } else {
        count_age_in(s.drop_last(), now, lo, hi) + if age_in(s.last(), now, lo, hi) {
            1int
        } else {
            0int
        }
    }
}

/// How many folders are at least `lo` seconds old.
pub open spec fn count_age_at_least(s: Seq<MarkerFolder>, now: u64, lo: u64) -> int
    decreases s.len(),
{
    if s.len() == 0 {
        0
    } else {
        count_age_at_least(s.drop_last(), now, lo) + if age_at_least(s.last(), now, lo) {
            1int
        } else {
            0int
        }
    }
}

/// The four buckets of the age breakdown at clock value `now`.
pub open spec fn age_breakdown_ok(ab: AgeBreakdown, s: Seq<MarkerFolder>, now: u64) -> bool {
    &&& ab.under_1_week as int == count_age_in(s, now, 0, WEEK_SECS)
    &&& ab.under_1_month as int == count_age_in(s, now, WEEK_SECS, MONTH_SECS)
    &&& ab.under_3_months as int == count_age_in(s, now, MONTH_SECS, QUARTER_SECS)
    &&& ab.over_3_months as int == count_age_at_least(s, now, QUARTER_SECS)
}

/// A report row faithfully summarises a folder.
pub open spec fn summary_matches(sm: FolderSummary, f: MarkerFolder) -> bool {
    &&& sm.path@ == f.path@
    &&& sm.size == f.size
    &&& sm.size_human@ == spec_format_size(f.size as int)
    &&& sm.project_type@ == f.project_type@
}

/// The largest-folders table is a prefix of the stable size-sorted
/// arrangement of all the folders: sizes descend, and equal sizes keep
/// ascending (discovery) order.
pub open spec fn top_ok(
    top: Seq<FolderSummary>,
    folders: Seq<MarkerFolder>,
    ord: Seq<usize>,
) -> bool {
    &&& ord.to_multiset() == Seq::new(folders.len() as nat, |i: int| i as usize).to_multiset()
    &&& forall|k: int| 0 <= k < ord.len() ==> (#[trigger] ord[k]) < folders.len()
    &&& forall|a: int, b: int|
        0 <= a < b < ord.len() ==> (#[trigger] folders[ord[a] as int]).size
            >= (#[trigger] folders[ord[b] as int]).size
    &&& forall|a: int, b: int|
        0 <= a < b < ord.len() && (#[trigger] folders[ord[b] as int]).size == (
        #[trigger] folders[ord[a] as int]).size ==> ord[a] < ord[b]
    &&& top.len() == if folders.len() < 10 {
        folders.len() as int
    } else {
        10int
    }
    &&& forall|k: int| 0 <= k < top.len() ==> summary_matches(#[trigger] top[k], folders[ord[k] as int])
}

/// Every entry of the grouped table is exact, names are unique, and every
/// folder's project type has an entry.
pub open spec fn grouping_ok(entries: Seq<TypeEntry>, folders: Seq<MarkerFolder>) -> bool {
    &&& forall|a: int, b: int|
        0 <= a < b < entries.len() ==> (#[trigger] entries[a]).name@ != (
        #[trigger] entries[b]).name@
    &&& forall|k: int|
        0 <= k < entries.len() ==> {
            let e = #[trigger] entries[k];
            &&& e.stats.count as int == count_type(folders, e.name@)
            &&& e.stats.count >= 1
            &&& (sum_type(folders, e.name@) <= u64::MAX ==> e.stats.total_size as int == sum_type(
                folders,
                e.name@,
            ))
            &&& (sum_type(folders, e.name@) > u64::MAX ==> e.stats.total_size == u64::MAX)
            &&& e.stats.avg_size as int == e.stats.total_size as int / e.stats.count as int
        }
    &&& forall|j: int|
        0 <= j < folders.len() ==> exists|k: int|
            0 <= k < entries.len() && (#[trigger] entries[k]).name@ == (
            #[trigger] folders[j]).project_type@
}

impl SpaceReport {
    /// Generate report from folder list. The age breakdown is read against
    /// the current clock.
    pub fn generate(folders: &Vec<MarkerFolder>) -> (r: SpaceReport)
        ensures
            r.total_folders == folders@.len(),
            sum_sizes(folders@) <= u64::MAX ==> r.total_size as int == sum_sizes(folders@),
            sum_sizes(folders@) > u64::MAX ==> r.total_size == u64::MAX,
            r.total_size_human@ == spec_format_size(r.total_size as int),
            grouping_ok(r.by_project_type@, folders@),
            exists|now: u64| #[trigger] age_breakdown_ok(r.age_breakdown, folders@, now),
            exists|ord: Seq<usize>| #[trigger] top_ok(r.top_10_largest@, folders@, ord),
    {
        let total_folders = folders.len();
        let total_size = total_size_of(folders);
        let total_size_human = format_size(total_size);
        let by_project_type = group_by_type(folders);
        let now = match now_unix_secs() {
            Some(n) => n,
            None => 0,
        };
        let age_breakdown = Self::calculate_age_breakdown(folders, now);
        let top_10_largest = top_largest(folders);
        let ghost ord0: Seq<usize> = choose|ord: Seq<usize>| top_ok(top_10_largest@, folders@, ord);
        let report = SpaceReport {
            total_folders,
            total_size,
            total_size_human,
            by_project_type,
            age_breakdown,
            top_10_largest,
        };
        proof {
            assert(age_breakdown_ok(report.age_breakdown, folders@, now));
            assert(top_ok(report.top_10_largest@, folders@, ord0));
        }
        report
    }

    /// Count folders into age buckets, reading ages at clock value `now`.
    pub fn calculate_age_breakdown(folders: &Vec<MarkerFolder>, now: u64) -> (r: AgeBreakdown)
        ensures
            age_breakdown_ok(r, folders@, now),
    {
        let mut week: usize = 0;
        let mut month: usize = 0;
        let mut quarter: usize = 0;
        let mut older: usize = 0;
        let mut i: usize = 0;
        while i < folders.len()
            invariant
                i <= folders@.len(),
                week as int == count_age_in(folders@.take(i as int), now, 0, WEEK_SECS),
                month as int == count_age_in(folders@.take(i as int), now, WEEK_SECS, MONTH_SECS),
                quarter as int == count_age_in(
                    folders@.take(i as int),
                    now,
                    MONTH_SECS,
                    QUARTER_SECS,
                ),
                older as int == count_age_at_least(folders@.take(i as int), now, QUARTER_SECS),
                week <= i && month <= i && quarter <= i && older <= i,
            decreases folders@.len() - i,
        {
            proof {
                assert(folders@.take(i + 1).drop_last() =~= folders@.take(i as int));
                assert(folders@.take(i + 1).last() == folders@[i as int]);
            }
            let f = &folders[i];
            if let Some(modified) = f.modified_at {
                if now >= modified {
                    let age = now - modified;
                    if age < WEEK_SECS {
                        week = week + 1;
                    } else if age < MONTH_SECS {
                        month = month + 1;
                    } else if age < QUARTER_SECS {
                        quarter = quarter + 1;
                    } else {
                        older = older + 1;
                    }
                }
            }
            i = i + 1;
        }
        proof {
            assert(folders@.take(folders@.len() as int) =~= folders@);
        }
        AgeBreakdown {
            under_1_week: week,
            under_1_month: month,
            under_3_months: quarter,
            over_3_months: older,
        }
    }

    /// The statistics recorded for a project type, if the type appears.
    pub fn type_stats(&self, name: &str) -> (r: Option<&TypeStats>)
        ensures
            match r {
                Some(st) => exists|k: int|
                    0 <= k < self.by_project_type@.len() && (
                    #[trigger] self.by_project_type@[k]).name@ == name@
                        && *st == self.by_project_type@[k].stats,
                None => forall|k: int|
                    0 <= k < self.by_project_type@.len() ==> (
                    #[trigger] self.by_project_type@[k]).name@ != name@,
            },
    {
        let mut k: usize = 0;
        while k < self.by_project_type.len()
            invariant
                k <= self.by_project_type@.len(),
                forall|j: int|
                    0 <= j < k ==> (#[trigger] self.by_project_type@[j]).name@ != name@,
            decreases self.by_project_type@.len() - k,
        {
            if str_eq(self.by_project_type[k].name.as_str(), name) {
                return Some(&self.by_project_type[k].stats);
            }
            k = k + 1;
        }
        None
    }

    /// Export to CSV: a fixed header, then one quoted row per listed folder.
    pub fn to_csv(&self) -> (r: String)
        ensures
            r@ == "Path,Size (bytes),Size (human),Project Type\n"@ + csv_rows(
                self.top_10_largest@,
            ),
    {
        let mut csv = "Path,Size (bytes),Size (human),Project Type\n".to_owned();
        let mut i: usize = 0;
        proof {
            assert(self.top_10_largest@.take(0) =~= Seq::<FolderSummary>::empty());
            assert(csv@ + csv_rows(self.top_10_largest@.take(0)) =~= csv@);
        }
        while i < self.top_10_largest.len()
            invariant
                i <= self.top_10_largest@.len(),
                csv@ == "Path,Size (bytes),Size (human),Project Type\n"@ + csv_rows(
                    self.top_10_largest@.take(i as int),
                ),
            decreases self.top_10_largest@.len() - i,
        {
            proof {
                assert(self.top_10_largest@.take(i + 1).drop_last() =~= self.top_10_largest@.take(
                    i as int,
                ));
                assert(self.top_10_largest@.take(i + 1).last() == self.top_10_largest@[i as int]);
            }
            let row = &self.top_10_largest[i];
            csv.push('"');
            csv.append(row.path.as_str());
            csv.append("\",");
            crate::text::append_u64(&mut csv, row.size);
            csv.push(',');
            csv.append(row.size_human.as_str());
            csv.push(',');
            csv.append(row.project_type.as_str());
            csv.push('\n');
            proof {
                assert(csv@ =~= "Path,Size (bytes),Size (human),Project Type\n"@ + csv_rows(
                    self.top_10_largest@.take(i + 1),
                ));
            }
            i = i + 1;
        }
        proof {
            assert(self.top_10_largest@.take(self.top_10_largest@.len() as int)
                =~= self.top_10_largest@);
        }
        csv
    }
}

/// One CSV row: the quoted path, the byte size, the human form, the type.
pub open spec fn csv_row(sm: FolderSummary) -> Seq<char> {
    seq!['"'] + sm.path@ + "\","@ + crate::text::render_u64(sm.size as int) + seq![',']
        + sm.size_human@ + seq![','] + sm.project_type@ + seq!['\n']
}

/// The rows of the CSV export, in table order.
pub open spec fn csv_rows(s: Seq<FolderSummary>) -> Seq<char>
    decreases s.len(),
{
    if s.len() == 0 {
        Seq::<char>::empty()
    } else {
        csv_rows(s.drop_last()) + csv_row(s.last())
    }
}

fn total_size_of(folders: &Vec<MarkerFolder>) -> (r: u64)
    ensures
        sum_sizes(folders@) <= u64::MAX ==> r as int == sum_sizes(folders@),
        sum_sizes(folders@) > u64::MAX ==> r == u64::MAX,
{
    let mut acc: u64 = 0;
    let mut i: usize = 0;
    while i < folders.len()
        invariant
            i <= folders@.len(),
            sum_sizes(folders@.take(i as int)) <= u64::MAX ==> acc as int == sum_sizes(
                folders@.take(i as int),
            ),
            sum_sizes(folders@.take(i as int)) > u64::MAX ==> acc == u64::MAX,
        decreases folders@.len() - i,
    {
        proof {
            assert(folders@.take(i + 1).drop_last() =~= folders@.take(i as int));
            assert(folders@.take(i + 1).last() == folders@[i as int]);
            crate::app::lemma_app_sums_nonneg(folders@.take(i as int));
        }
        let f = &folders[i];
        if u64::MAX - acc < f.size {
            acc = u64::MAX;
        } else {
            acc = acc + f.size;
        }
        i = i + 1;
    }
    proof {
        assert(folders@.take(folders@.len() as int) =~= folders@);
    }
    acc
}

fn group_by_type(folders: &Vec<MarkerFolder>) -> (r: Vec<TypeEntry>)
    ensures
        grouping_ok(r@, folders@),
{
    let mut entries: Vec<TypeEntry> = Vec::new();
    let mut i: usize = 0;
    while i < folders.len()
        invariant
            i <= folders@.len(),
            forall|a: int, b: int|
                0 <= a < b < entries@.len() ==> (#[trigger] entries@[a]).name@ != (
                #[trigger] entries@[b]).name@,
            forall|k: int|
                0 <= k < entries@.len() ==> {
                    let e = #[trigger] entries@[k];
                    &&& e.stats.count as int == count_type(folders@.take(i as int), e.name@)
                    &&& e.stats.count >= 1
                    &&& (sum_type(folders@.take(i as int), e.name@) <= u64::MAX
                        ==> e.stats.total_size as int == sum_type(
                        folders@.take(i as int),
                        e.name@,
                    ))
                    &&& (sum_type(folders@.take(i as int), e.name@) > u64::MAX
                        ==> e.stats.total_size == u64::MAX)
                    &&& e.stats.avg_size == 0
                },
            forall|j: int|
                0 <= j < i ==> exists|k: int|
                    0 <= k < entries@.len() && (#[trigger] entries@[k]).name@ == (
                    #[trigger] folders@[j]).project_type@,
        decreases folders@.len() - i,
    {
        proof {
            assert(folders@.take(i + 1).drop_last() =~= folders@.take(i as int));
            assert(folders@.take(i + 1).last() == folders@[i as int]);
        }
        let f = &folders[i];
        let mut found: Option<usize> = None;
        let mut k: usize = 0;
        while k < entries.len()
            invariant
                k <= entries@.len(),
                i < folders@.len(),
                found is None ==> forall|j: int|
                    0 <= j < k ==> (#[trigger] entries@[j]).name@ != folders@[i as int].project_type@,
                found matches Some(p) ==> p < entries@.len() && entries@[p as int].name@
                    == folders@[i as int].project_type@,
            ensures
                found is None ==> forall|j: int|
                    0 <= j < entries@.len() ==> (#[trigger] entries@[j]).name@
                        != folders@[i as int].project_type@,
                found matches Some(p) ==> p < entries@.len() && entries@[p as int].name@
                    == folders@[i as int].project_type@,
            decreases entries@.len() - k,
        {
            if str_eq(entries[k].name.as_str(), folders[i].project_type.as_str()) {
                found = Some(k);
                break ;
            }
            k = k + 1;
        }
        let ghost pre_entries = entries@;
        match found {
            Some(p) => {
                let e = &entries[p];
                proof {
                    lemma_type_sums_nonneg(folders@.take(i as int), e.name@);
                }
                let new_total: u64 = if u64::MAX - e.stats.total_size < f.size {
                    u64::MAX
                } else {
                    e.stats.total_size + f.size
                };
                let updated = TypeEntry {
                    name: e.name.clone(),
                    stats: TypeStats {
                        count: e.stats.count + 1,
                        total_size: new_total,
                        avg_size: 0,
                    },
                };
                proof {
                    assert(updated.name@ == pre_entries[p as int].name@);
                }
                entries.set(p, updated);
                proof {
                    assert forall|k2: int| 0 <= k2 < entries@.len() implies {
                        let e2 = #[trigger] entries@[k2];
                        &&& e2.stats.count as int == count_type(folders@.take(i + 1), e2.name@)
                        &&& e2.stats.count >= 1
                        &&& (sum_type(folders@.take(i + 1), e2.name@) <= u64::MAX
                            ==> e2.stats.total_size as int == sum_type(
                            folders@.take(i + 1),
                            e2.name@,
                        ))
                        &&& (sum_type(folders@.take(i + 1), e2.name@) > u64::MAX
                            ==> e2.stats.total_size == u64::MAX)
                        &&& e2.stats.avg_size == 0
                    } by {
                        if k2 != p {
                            assert(entries@[k2] == pre_entries[k2]);
                            assert(entries@[k2].name@ != folders@[i as int].project_type@);
                        }
                    }
                    assert(forall|k2: int|
                        0 <= k2 < entries@.len() ==> (#[trigger] entries@[k2]).name@
                            == pre_entries[k2].name@);
                    assert forall|j: int| 0 <= j < i + 1 implies exists|k2: int|
                        0 <= k2 < entries@.len() && (#[trigger] entries@[k2]).name@ == (
                        #[trigger] folders@[j]).project_type@ by {
                        if j < i {
                            let w = choose|k2: int|
                                0 <= k2 < pre_entries.len() && (#[trigger] pre_entries[k2]).name@
                                    == folders@[j].project_type@;
                            assert(entries@[w].name@ == folders@[j].project_type@);
                        } else {
                            assert(entries@[p as int].name@ == folders@[j].project_type@);
                        }
                    }
                }
            },
            None => {
                proof {
                    assert(forall|j: int|
                        0 <= j < entries@.len() ==> (#[trigger] entries@[j]).name@
                            != folders@[i as int].project_type@);
                }
                let entry = TypeEntry {
                    name: f.project_type.clone(),
                    stats: TypeStats { count: 1, total_size: f.size, avg_size: 0 },
                };
                entries.push(entry);
                proof {
                    assert forall|k2: int| 0 <= k2 < entries@.len() implies {
                        let e2 = #[trigger] entries@[k2];
                        &&& e2.stats.count as int == count_type(folders@.take(i + 1), e2.name@)
                        &&& e2.stats.count >= 1
                        &&& (sum_type(folders@.take(i + 1), e2.name@) <= u64::MAX
                            ==> e2.stats.total_size as int == sum_type(
                            folders@.take(i + 1),
                            e2.name@,
                        ))
                        &&& (sum_type(folders@.take(i + 1), e2.name@) > u64::MAX
                            ==> e2.stats.total_size == u64::MAX)
                        &&& e2.stats.avg_size == 0
                    } by {
                        if k2 < entries@.len() - 1 {
                            assert(entries@[k2] == pre_entries[k2]);
                            assert(entries@[k2].name@ != folders@[i as int].project_type@);
                        } else {
                            assert(entries@[k2].name@ == folders@[i as int].project_type@);
                            let sub = folders@.take(i as int);
                            assert(forall|j: int|
                                0 <= j < sub.len() ==> (#[trigger] sub[j])
                                    == folders@[j]);
                            lemma_count_type_zero(sub, entries@[k2].name@);
                            lemma_sum_type_zero(sub, entries@[k2].name@);
                        }
                    }
                    assert forall|j: int| 0 <= j < i + 1 implies exists|k2: int|
                        0 <= k2 < entries@.len() && (#[trigger] entries@[k2]).name@ == (
                        #[trigger] folders@[j]).project_type@ by {
                        if j < i {
                            let w = choose|k2: int|
                                0 <= k2 < pre_entries.len() && (#[trigger] pre_entries[k2]).name@
                                    == folders@[j].project_type@;
                            assert(entries@[w].name@ == folders@[j].project_type@);
                        } else {
                            assert(entries@[entries@.len() - 1].name@
                                == folders@[j].project_type@);
                        }
                    }
                }
            },
        }
        i = i + 1;
    }
    proof {
        assert(folders@.take(folders@.len() as int) =~= folders@);
    }
    // fill in the averages
    let mut k: usize = 0;
    let ghost grouped = entries@;
    while k < entries.len()
        invariant
            k <= entries@.len(),
            entries@.len() == grouped.len(),
            forall|j: int|
                k <= j < entries@.len() ==> #[trigger] entries@[j] == grouped[j],
            forall|j: int|
                0 <= j < k ==> {
                    let e = #[trigger] entries@[j];
                    &&& e.name@ == grouped[j].name@
                    &&& e.stats.count == grouped[j].stats.count
                    &&& e.stats.total_size == grouped[j].stats.total_size
                    &&& e.stats.avg_size as int == e.stats.total_size as int
                        / e.stats.count as int
                },
            forall|j: int|
                0 <= j < grouped.len() ==> (#[trigger] grouped[j]).stats.count >= 1,
        decreases entries@.len() - k,
    {
        let e = &entries[k];
        let updated = TypeEntry {
            name: e.name.clone(),
            stats: TypeStats {
                count: e.stats.count,
                total_size: e.stats.total_size,
                avg_size: e.stats.total_size / (e.stats.count as u64),
            },
        };
        proof {
            assert(updated.name@ == grouped[k as int].name@);
        }
        entries.set(k, updated);
        k = k + 1;
    }
    proof {
        assert forall|j: int| 0 <= j < entries@.len() implies (#[trigger] entries@[j]).name@
            == grouped[j].name@ by {}
        assert forall|j: int| 0 <= j < folders@.len() implies exists|k2: int|
            0 <= k2 < entries@.len() && (#[trigger] entries@[k2]).name@ == (
            #[trigger] folders@[j]).project_type@ by {
            let w = choose|k2: int|
                0 <= k2 < grouped.len() && (#[trigger] grouped[k2]).name@
                    == folders@[j].project_type@;
            assert(entries@[w].name@ == folders@[j].project_type@);
        }
        assert(grouping_ok(entries@, folders@));
    }
    entries
}

fn top_largest(folders: &Vec<MarkerFolder>) -> (r: Vec<FolderSummary>)
    ensures
        exists|ord: Seq<usize>| #[trigger] top_ok(r@, folders@, ord),
{
    let mut idx: Vec<usize> = Vec::new();
    let mut i: usize = 0;
    while i < folders.len()
        invariant
            i <= folders@.len(),
            idx@ == Seq::new(i as nat, |k: int| k as usize),
        decreases folders@.len() - i,
    {
        proof {
            assert(Seq::new((i + 1) as nat, |k: int| k as usize) =~= Seq::new(
                i as nat,
                |k: int| k as usize,
            ).push(i as usize));
        }
        idx.push(i);
        i = i + 1;
    }
    let ghost range = Seq::new(folders@.len() as nat, |k: int| k as usize);
    proof {
        assert(crate::app::strictly_increasing(idx@));
    }
    crate::app::sort_indices_by(&mut idx, folders, SortOrder::SizeDesc);
    let take_n = if folders.len() < 10 {
        folders.len()
    } else {
        10
    };
    let mut out: Vec<FolderSummary> = Vec::new();
    let mut k: usize = 0;
    while k < take_n
        invariant
            k <= take_n,
            take_n == if folders@.len() < 10 {
                folders@.len() as int
            } else {
                10int
            },
            take_n <= idx@.len(),
            idx@.to_multiset() == range.to_multiset(),
            range == Seq::new(folders@.len() as nat, |k2: int| k2 as usize),
            forall|j: int| 0 <= j < idx@.len() ==> (#[trigger] idx@[j]) < folders@.len(),
            forall|a: int, b: int|
                0 <= a < b < idx@.len() ==> folder_le(
                    SortOrder::SizeDesc,
                    folders@[idx@[a] as int],
                    folders@[idx@[b] as int],
                ),
            forall|a: int, b: int|
                0 <= a < b < idx@.len() && folder_le(
                    SortOrder::SizeDesc,
                    folders@[(#[trigger] idx@[b]) as int],
                    folders@[(#[trigger] idx@[a]) as int],
                ) ==> idx@[a] < idx@[b],
            out@.len() == k,
            forall|j: int|
                0 <= j < k ==> summary_matches(#[trigger] out@[j], folders@[idx@[j] as int]),
        decreases take_n - k,
    {
        let ix = idx[k];
        let f = &folders[ix];
        let sm = FolderSummary {
            path: f.path.clone(),
            size: f.size,
            size_human: format_size(f.size),
            project_type: f.project_type.clone(),
        };
        out.push(sm);
        k = k + 1;
    }
    proof {
        assert forall|a: int, b: int| 0 <= a < b < idx@.len() implies (
        #[trigger] folders@[idx@[a] as int]).size >= (#[trigger] folders@[idx@[b] as int]).size by {
            assert(folder_le(
                SortOrder::SizeDesc,
                folders@[idx@[a] as int],
                folders@[idx@[b] as int],
            ));
        }
        assert forall|a: int, b: int|
            0 <= a < b < idx@.len() && (#[trigger] folders@[idx@[b] as int]).size == (
        #[trigger] folders@[idx@[a] as int]).size implies idx@[a] < idx@[b] by {
            assert(folder_le(
                SortOrder::SizeDesc,
                folders@[idx@[b] as int],
                folders@[idx@[a] as int],
            ));
        }
        assert(idx@.len() == folders@.len()) by {
            broadcast use vstd::seq_lib::group_to_multiset_ensures;

            assert(idx@.len() == idx@.to_multiset().len());
            assert(range.len() == range.to_multiset().len());
        }
        assert(top_ok(out@, folders@, idx@));
    }
    out
}

proof fn lemma_sum_type_zero(s: Seq<MarkerFolder>, t: Seq<char>)
    requires
        forall|j: int| 0 <= j < s.len() ==> (#[trigger] s[j]).project_type@ != t,
    ensures
        sum_type(s, t) == 0,
    decreases s.len(),
{
    if s.len() > 0 {
        assert(forall|j: int| 0 <= j < s.drop_last().len() ==> s.drop_last()[j] == s[j]);
        lemma_sum_type_zero(s.drop_last(), t);
    }
}

} // verus!
