//! Finding marker directories: the data model of a discovered folder, the
//! pruning and exclusion rules of the walk, and recursive sizing.

use vstd::prelude::*;

use crate::text::{contains_seq, contains_sub, str_eq};
use crate::utils::format_size;

verus! {

/// The directory name this tool searches for.
pub open spec fn marker() -> Seq<char> {
    ".markerdir"@
}

/// The marker directory name as a string slice.
pub fn marker_name() -> (r: &'static str)
    ensures
        r@ == marker(),
{
    ".markerdir"
}

/// Which family of path syntax and system paths applies. Windows paths
/// also use `\\` as a separator and compare case-insensitively against the
/// deny-list; everywhere else `/` is the only separator and a backslash is
/// an ordinary name character.
#[derive(Clone, Copy, Debug, PartialEq, Eq, Structural)]
pub enum Platform {
    Unix,
    Windows,
}

/// Which characters separate path components on a platform.
pub open spec fn is_separator(c: char, platform: Platform) -> bool {
    c == '/' || (platform == Platform::Windows && c == '\\')
}

/// Decides `is_separator` for one character.
pub fn is_sep(c: char, platform: Platform) -> (r: bool)
    ensures
        r == is_separator(c, platform),
{
    if (c as u32) == ('/' as u32) {
        return true;
    }
    match platform {
        Platform::Windows => (c as u32) == ('\\' as u32),
        Platform::Unix => false,
    }
}

/// One discovered marker directory with its metadata. `modified_at` is the
/// directory's own last-modification time in seconds since the Unix epoch,
/// absent when it could not be read.
pub struct MarkerFolder {
    pub path: String,
    pub size: u64,
    pub project_type: String,
    pub selected: bool,
    pub modified_at: Option<u64>,
}

impl MarkerFolder {
    /// Format size for display (e.g., "156.2 MB").
    pub fn size_display(&self) -> (r: String)
        ensures
            r@ == crate::utils::spec_format_size(self.size as int),
    {
        format_size(self.size)
    }
}

/// Events emitted during scanning.
pub enum ScanEvent {
    Scanning(String),
    Found(MarkerFolder),
    Complete,
}

/// What the sizing walk reports for one directory entry.
pub struct FileMeta {
    pub is_file: bool,
    pub size: u64,
}

/// Total byte length of the regular files among `s`.
pub open spec fn sum_file_sizes(s: Seq<FileMeta>) -> int
    decreases s.len(),
{
    if s.len() == 0 {
        0
    } else {
        sum_file_sizes(s.drop_last()) + if s.last().is_file {
            s.last().size as int
        } else {
            0
        }
    }
}

proof fn lemma_sum_file_sizes_nonneg(s: Seq<FileMeta>)
    ensures
        0 <= sum_file_sizes(s),
    decreases s.len(),
{
    if s.len() > 0 {
        lemma_sum_file_sizes_nonneg(s.drop_last());
    }
}

/// Sums the sizes of the regular files among `files`, saturating at
/// `u64::MAX`: every byte of every regular file is counted, hidden or not.
pub fn dir_size_from(files: &Vec<FileMeta>) -> (r: u64)
    ensures
        sum_file_sizes(files@) <= u64::MAX ==> r == sum_file_sizes(files@),
        sum_file_sizes(files@) > u64::MAX ==> r == u64::MAX,
{
    let mut acc: u64 = 0;
    let mut i: usize = 0;
    while i < files.len()
        invariant
            i <= files.len(),
            sum_file_sizes(files@.take(i as int)) <= u64::MAX ==> acc == sum_file_sizes(
                files@.take(i as int),
            ),
            sum_file_sizes(files@.take(i as int)) > u64::MAX ==> acc == u64::MAX,
        decreases files.len() - i,
    {
        proof {
            assert(files@.take(i + 1).drop_last() =~= files@.take(i as int));
            assert(files@.take(i + 1).last() == files@[i as int]);
            lemma_sum_file_sizes_nonneg(files@.take(i as int));
        }
        let f = &files[i];
        if f.is_file {
            if u64::MAX - acc < f.size {
                acc = u64::MAX;
            } else {
                acc = acc + f.size;
            }
        }
        i = i + 1;
    }
    proof {
        assert(files@.take(files@.len() as int) =~= files@);
    }
    acc
}

/// The final path component: everything after the last separator of the
/// platform's syntax.
pub open spec fn last_component(p: Seq<char>, platform: Platform) -> Seq<char>
    decreases p.len(),
{
    if p.len() == 0 {
        p
    } else if is_separator(p.last(), platform) {
        Seq::<char>::empty()
    } else {
        last_component(p.drop_last(), platform).push(p.last())
    }
}

proof fn lemma_last_component_suffix(p: Seq<char>, cut: int, platform: Platform)
    requires
        0 <= cut <= p.len(),
        forall|k: int| cut <= k < p.len() ==> !is_separator(#[trigger] p[k], platform),
        cut > 0 ==> is_separator(p[cut - 1], platform),
    ensures
        last_component(p, platform) == p.subrange(cut, p.len() as int),
    decreases p.len(),
{
    if p.len() == 0 {
        assert(p.subrange(0, 0) =~= p);
    } else if cut == p.len() {
        assert(is_separator(p.last(), platform));
        assert(p.subrange(cut, p.len() as int) =~= Seq::<char>::empty());
    } else {
        assert(!is_separator(p.last(), platform));
        lemma_last_component_suffix(p.drop_last(), cut, platform);
        assert(p.drop_last().subrange(cut, p.len() - 1).push(p.last()) =~= p.subrange(
            cut,
            p.len() as int,
        ));
    }
}

/// Decides whether the final component of `path` is exactly the marker
/// name, reading separators by the platform's syntax.
pub fn is_marker_name(path: &str, platform: Platform) -> (r: bool)
    ensures
        r == (last_component(path@, platform) == marker()),
{
    let n = path.unicode_len();
    let mut cut: usize = n;
    loop
        invariant
            cut <= n,
            n == path@.len(),
            forall|k: int| cut <= k < n ==> !is_separator(#[trigger] path@[k], platform),
        ensures
            cut <= n,
            forall|k: int| cut <= k < n ==> !is_separator(#[trigger] path@[k], platform),
            cut > 0 ==> is_separator(path@[cut - 1], platform),
        decreases cut,
    {
        if cut == 0 {
            break;
        }
        if is_sep(path.get_char(cut - 1), platform) {
            break;
        }
        cut = cut - 1;
    }
    proof {
        lemma_last_component_suffix(path@, cut as int, platform);
    }
    let comp = path.substring_char(cut, n);
    str_eq(comp, ".markerdir")
}

/// The pruning rule of the walk: a hidden entry (name beginning with a dot)
/// is descended into only when it is the marker directory itself.
pub open spec fn spec_keep_entry(name: Seq<char>) -> bool {
    name == marker() || !(name.len() > 0 && name[0] == '.')
}

/// Decides `spec_keep_entry` for a directory-entry name.
pub fn keep_entry(name: &str) -> (r: bool)
    ensures
        r == spec_keep_entry(name@),
{
    if str_eq(name, ".markerdir") {
        return true;
    }
    if name.unicode_len() == 0 {
        return true;
    }
    let c = name.get_char(0);
    (c as u32) != ('.' as u32)
}

/// Holds when `path` contains any of the exclusion patterns as a substring.
pub open spec fn spec_excluded(path: Seq<char>, patterns: Seq<String>) -> bool {
    exists|k: int| 0 <= k < patterns.len() && contains_seq(path, (#[trigger] patterns[k])@)
}

/// Scanner for finding marker directories.
pub struct Scanner {
    pub root: String,
    pub include_global: bool,
    pub exclude_patterns: Vec<String>,
}

impl Scanner {
    pub fn new(root: String, include_global: bool, exclude_patterns: Vec<String>) -> (r: Scanner)
        ensures
            r.root == root,
            r.include_global == include_global,
            r.exclude_patterns == exclude_patterns,
    {
        Scanner { root, include_global, exclude_patterns }
    }

    /// Check if a path should be excluded based on patterns.
    pub fn should_exclude(path: &str, patterns: &Vec<String>) -> (r: bool)
        ensures
            r == spec_excluded(path@, patterns@),
    {
        let mut k: usize = 0;
        while k < patterns.len()
            invariant
                k <= patterns.len(),
                forall|j: int| 0 <= j < k ==> !contains_seq(path@, (#[trigger] patterns@[j])@),
            decreases patterns.len() - k,
        {
            if contains_sub(path, patterns[k].as_str()) {
                return true;
            }
            k = k + 1;
        }
        false
    }
}

/// What the pruned walk reports for one directory entry.
pub struct WalkEntry {
    pub path: String,
    pub is_dir: bool,
}

/// Relies on jwalk::WalkDir: walks the tree under `root` in parallel without
/// skipping hidden entries itself; the pruning closure keeps exactly the
/// children that `keep_entry` admits. What comes back depends on the disk,
/// so nothing is promised of it.
#[verifier::external_body]
fn walk_tree(root: &String) -> (r: Vec<WalkEntry>) {
    jwalk::WalkDir::new(root)
        .skip_hidden(false)
        .process_read_dir(|_depth, _path, _state, children| {
            children.retain(|e| match e {
                Ok(e) => keep_entry(&e.file_name.to_string_lossy()),
                Err(_) => false,
            });
        })
        .into_iter()
        .filter_map(|e| e.ok())
        .map(|e| WalkEntry {
            path: e.path().to_string_lossy().into_owned(),
            is_dir: e.file_type().is_dir(),
        })
        .collect()
}

/// Relies on jwalk::WalkDir: lists every entry under `path`, hidden ones
/// included, with whether it is a regular file and its byte length. What
/// comes back depends on the disk, so nothing is promised of it.
#[verifier::external_body]
fn walk_files(path: &String) -> (r: Vec<FileMeta>) {
    jwalk::WalkDir::new(path)
        .skip_hidden(false)
        .into_iter()
        .filter_map(|e| e.ok())
        .filter_map(|e| e.metadata().ok())
        .map(|m| FileMeta { is_file: m.is_file(), size: m.len() })
        .collect()
}

/// Relies on jwalk::WalkDir and std::time::SystemTime: the directory's own
/// last-modification time in seconds since the Unix epoch, absent when it
/// cannot be read.
#[verifier::external_body]
fn dir_modified_secs(path: &String) -> (r: Option<u64>) {
    jwalk::WalkDir::new(path)
        .max_depth(0)
        .into_iter()
        .next()
        .and_then(|e| e.ok())
        .and_then(|e| e.metadata().ok())
        .and_then(|m| m.modified().ok())
        .and_then(|t| t.duration_since(std::time::UNIX_EPOCH).ok())
        .map(|d| d.as_secs())
}

/// Relies on jwalk::WalkDir: the names of the entries directly inside
/// `path`, the directory's own entry included. What comes back depends on
/// the disk, so nothing is promised.
#[verifier::external_body]
fn list_dir_names(path: &String) -> (r: Vec<String>) {
    jwalk::WalkDir::new(path)
        .skip_hidden(false)
        .max_depth(1)
        .into_iter()
        .filter_map(|e| e.ok())
        .map(|e| e.file_name.to_string_lossy().into_owned())
        .collect()
}

/// Relies on dirs::home_dir: the platform home directory, when one is
/// configured for the process environment.
#[verifier::external_body]
fn home_dir_string() -> (r: Option<String>) {
    dirs::home_dir().map(|h| h.to_string_lossy().into_owned())
}

/// Whether the walk entry survives every check and becomes a `Found`
/// folder: a marker directory, not the excluded global one, matching no
/// exclusion pattern.
pub open spec fn planned(
    e: WalkEntry,
    include_global: bool,
    global: Option<String>,
    patterns: Seq<String>,
    platform: Platform,
) -> bool {
    &&& e.is_dir
    &&& last_component(e.path@, platform) == marker()
    &&& !(!include_global && (global matches Some(g) && e.path@ == g@))
    &&& !spec_excluded(e.path@, patterns)
}

/// The paths of the entries that the scan reports, in walk order.
pub open spec fn spec_plan(
    entries: Seq<WalkEntry>,
    include_global: bool,
    global: Option<String>,
    patterns: Seq<String>,
    platform: Platform,
) -> Seq<String> {
    entries.filter(
        |e: WalkEntry| planned(e, include_global, global, patterns, platform),
    ).map_values(|e: WalkEntry| e.path)
}

/// Selects the surviving marker-directory paths from the walk entries.
pub fn plan_matches(
    entries: &Vec<WalkEntry>,
    include_global: bool,
    global: &Option<String>,
    patterns: &Vec<String>,
    platform: Platform,
) -> (r: Vec<String>)
    ensures
        r@ == spec_plan(entries@, include_global, *global, patterns@, platform),
{
    let ghost pred = |e: WalkEntry| planned(e, include_global, *global, patterns@, platform);
    let mut r: Vec<String> = Vec::new();
    let mut i: usize = 0;
    proof {
        reveal(Seq::filter);
        assert(r@ =~= entries@.take(0).filter(pred).map_values(|e: WalkEntry| e.path));
    }
    while i < entries.len()
        invariant
            i <= entries@.len(),
            pred == (|e: WalkEntry| planned(e, include_global, *global, patterns@, platform)),
            r@ == entries@.take(i as int).filter(pred).map_values(|e: WalkEntry| e.path),
        decreases entries@.len() - i,
    {
        proof {
            reveal(Seq::filter);
            assert(entries@.take(i + 1).drop_last() =~= entries@.take(i as int));
            assert(entries@.take(i + 1).last() == entries@[i as int]);
        }
        let e = &entries[i];
        let mut keep = false;
        if e.is_dir && is_marker_name(e.path.as_str(), platform) {
            let mut skip = false;
            if !include_global {
                if let Some(g) = global {
                    if str_eq(e.path.as_str(), g.as_str()) {
                        skip = true;
                    }
                }
            }
            if !skip && !Scanner::should_exclude(e.path.as_str(), patterns) {
                keep = true;
            }
        }
        if keep {
            let p = e.path.clone();
            proof {
                assert(p == entries@[i as int].path);
            }
            r.push(p);
        }
        proof {
            assert(r@ =~= entries@.take(i + 1).filter(pred).map_values(|e: WalkEntry| e.path));
        }
        i = i + 1;
    }
    proof {
        assert(entries@.take(entries@.len() as int) =~= entries@);
    }
    r
}

/// The global marker directory appears in the plan exactly when
/// `include_global` is set: given that the walk met it as a directory and no
/// exclusion pattern covers it, it is reported iff the flag asks for it —
/// and with the flag off, no entry carrying its path is ever reported.
pub proof fn lemma_global_in_plan_iff(
    entries: Seq<WalkEntry>,
    include_global: bool,
    global: Option<String>,
    patterns: Seq<String>,
    platform: Platform,
    g: String,
    w: int,
)
    requires
        global == Some(g),
        last_component(g@, platform) == marker(),
        !spec_excluded(g@, patterns),
        0 <= w < entries.len(),
        entries[w].path@ == g@,
        entries[w].is_dir,
    ensures
        include_global <==> exists|j: int|
            0 <= j < spec_plan(entries, include_global, global, patterns, platform).len() && (
            #[trigger] spec_plan(entries, include_global, global, patterns, platform)[j])@ == g@,
{
    let pred = |e: WalkEntry| planned(e, include_global, global, patterns, platform);
    let plan = spec_plan(entries, include_global, global, patterns, platform);
    let filtered = entries.filter(pred);
    if include_global {
        assert(pred(entries[w]));
        entries.lemma_filter_contains(pred, w);
        assert(filtered.contains(entries[w]));
        let j = choose|j: int| 0 <= j < filtered.len() && filtered[j] == entries[w];
        assert(plan[j]@ == g@);
    } else {
        if exists|j: int| 0 <= j < plan.len() && (#[trigger] plan[j])@ == g@ {
            let j = choose|j: int| 0 <= j < plan.len() && (#[trigger] plan[j])@ == g@;
            entries.lemma_filter_pred(pred, j);
            assert(pred(filtered[j]));
            assert(plan[j] == filtered[j].path);
            assert(filtered[j].path@ == g@);
            assert(false);
        }
    }
}

/// The parent path: everything before the final separator, or that
/// separator alone when it comes first.
pub open spec fn spec_parent(p: Seq<char>, platform: Platform) -> Option<Seq<char>> {
    let comp = last_component(p, platform);
    if comp.len() == p.len() {
        None
    } else {
        let cut = p.len() - comp.len() - 1;
        if cut == 0 {
            Some(p.subrange(0, 1))
        } else {
            Some(p.subrange(0, cut as int))
        }
    }
}

/// The parent of a path, as `spec_parent` describes it.
pub fn parent_of(path: &str, platform: Platform) -> (r: Option<String>)
    ensures
        match spec_parent(path@, platform) {
            None => r is None,
            Some(pp) => r matches Some(s) && s@ == pp,
        },
{
    let n = path.unicode_len();
    let mut cut: usize = n;
    loop
        invariant
            cut <= n,
            n == path@.len(),
            forall|k: int| cut <= k < n ==> !is_separator(#[trigger] path@[k], platform),
        ensures
            cut <= n,
            forall|k: int| cut <= k < n ==> !is_separator(#[trigger] path@[k], platform),
            cut > 0 ==> is_separator(path@[cut - 1], platform),
        decreases cut,
    {
        if cut == 0 {
            break ;
        }
        if is_sep(path.get_char(cut - 1), platform) {
            break ;
        }
        cut = cut - 1;
    }
    proof {
        lemma_last_component_suffix(path@, cut as int, platform);
        assert(last_component(path@, platform).len() == n - cut);
    }
    if cut == 0 {
        proof {
            assert(path@.subrange(0, n as int) =~= path@);
        }
        None
    } else if cut == 1 {
        let s = path.substring_char(0, 1);
        Some(s.to_owned())
    } else {
        let s = path.substring_char(0, cut - 1);
        Some(s.to_owned())
    }
}

impl Scanner {
    /// Walks the root and reports the surviving marker-directory paths, in
    /// walk order: every reported path has the marker name as its final
    /// component and matches no exclusion pattern. The consumer can size
    /// each one with `found_folder` as the scan streams.
    pub fn plan(&self, platform: Platform) -> (r: Vec<String>)
        ensures
            forall|k: int|
                0 <= k < r@.len() ==> last_component((#[trigger] r@[k])@, platform) == marker()
                    && !spec_excluded(r@[k]@, self.exclude_patterns@),
    {
        let global: Option<String> = match home_dir_string() {
            Some(h) => {
                let mut g = h;
                match platform {
                    Platform::Windows => g.push('\\'),
                    Platform::Unix => g.push('/'),
                }
                g.append(".markerdir");
                Some(g)
            },
            None => None,
        };
        let entries = walk_tree(&self.root);
        let r = plan_matches(
            &entries,
            self.include_global,
            &global,
            &self.exclude_patterns,
            platform,
        );
        proof {
            let pred = |e: WalkEntry|
                planned(e, self.include_global, global, self.exclude_patterns@, platform);
            let filtered = entries@.filter(pred);
            assert forall|k: int| 0 <= k < r@.len() implies last_component(
                (#[trigger] r@[k])@,
                platform,
            ) == marker() && !spec_excluded(r@[k]@, self.exclude_patterns@) by {
                entries@.lemma_filter_pred(pred, k);
                assert(r@[k] == filtered[k].path);
                assert(pred(filtered[k]));
            }
        }
        r
    }

    /// Sizes and classifies one reported marker directory: sums the byte
    /// lengths of the regular files under it (hidden ones included), probes
    /// the owning directory's marker files, and reads the directory's own
    /// timestamp. The record carries exactly the given path and starts
    /// unselected.
    pub fn found_folder(path: &String, platform: Platform) -> (r: MarkerFolder)
        ensures
            r.path@ == path@,
            !r.selected,
    {
        let files = walk_files(path);
        let size = dir_size_from(&files);
        let names: Vec<String> = match parent_of(path.as_str(), platform) {
            Some(parent) => list_dir_names(&parent),
            None => Vec::new(),
        };
        let markers = crate::project::markers_from_names(&names);
        let project_type = crate::project::detect(&markers);
        let modified_at = dir_modified_secs(path);
        MarkerFolder { path: path.clone(), size, project_type, selected: false, modified_at }
    }

    /// Walks the root, sizes and classifies each surviving marker directory,
    /// and returns the full ordered event stream: for each reported folder a
    /// `Scanning` event directly followed by its `Found` event carrying the
    /// same path, and a single final `Complete`. Every streamed path has the
    /// marker name as its final component and matches no exclusion pattern.
    pub fn scan_events(&self, platform: Platform) -> (r: Vec<ScanEvent>)
        ensures
            r@.len() % 2 == 1,
            r@.last() == ScanEvent::Complete,
            forall|i: int|
                #![trigger r@[2 * i]]
                0 <= i < (r@.len() - 1) / 2 ==> {
                    &&& r@[2 * i] matches ScanEvent::Scanning(p)
                    &&& r@[2 * i + 1] matches ScanEvent::Found(f)
                    &&& f.path@ == p@
                    &&& !f.selected
                    &&& last_component(f.path@, platform) == marker()
                    &&& !spec_excluded(f.path@, self.exclude_patterns@)
                },
    {
        let plan = self.plan(platform);
        let mut events: Vec<ScanEvent> = Vec::new();
        let mut i: usize = 0;
        while i < plan.len()
            invariant
                i <= plan@.len(),
                events@.len() == 2 * i,
                forall|k: int|
                    0 <= k < plan@.len() ==> last_component((#[trigger] plan@[k])@, platform)
                        == marker() && !spec_excluded(plan@[k]@, self.exclude_patterns@),
                forall|j: int|
                    #![trigger events@[2 * j]]
                    0 <= j < i ==> {
                        &&& events@[2 * j] matches ScanEvent::Scanning(p)
                        &&& events@[2 * j + 1] matches ScanEvent::Found(f)
                        &&& f.path@ == p@
                        &&& !f.selected
                        &&& last_component(f.path@, platform) == marker()
                        &&& !spec_excluded(f.path@, self.exclude_patterns@)
                    },
            decreases plan@.len() - i,
        {
            let path = &plan[i];
            events.push(ScanEvent::Scanning(path.clone()));
            events.push(ScanEvent::Found(Self::found_folder(path, platform)));
            i = i + 1;
        }
        events.push(ScanEvent::Complete);
        events
    }
}

} // verus!
