//! Deletion safety validation: rejects unsafe deletion requests before any
//! destructive call is made.

use vstd::prelude::*;

use crate::scanner::{last_component, marker};
use crate::text::{eq_ignore_ascii_case_seq, str_eq, str_eq_ignore_ascii_case};

pub use crate::scanner::Platform;

verus! {

/// What the filesystem currently says about a candidate path.
#[derive(Clone, Copy, Debug, PartialEq, Eq, Structural)]
pub struct PathStatus {
    pub exists: bool,
    pub is_dir: bool,
}

/// The safety rule a path can break, in the order the checks run.
#[derive(Clone, Copy, Debug, PartialEq, Eq, Structural)]
pub enum Rule {
    SystemDirectory,
    NotMarkerDirectory,
    DoesNotExist,
    NotADirectory,
}

/// A rejected batch: the first offending path and the rule it broke.
#[derive(Debug)]
pub struct ValidationError {
    pub rule: Rule,
    pub path: String,
}

impl ValidationError {
    /// The operator-facing description of the rejection.
    pub fn message(&self) -> (r: String)
        ensures
            self.rule == Rule::SystemDirectory ==> r@ == "Refusing to delete system directory: "@
                + self.path@,
            self.rule == Rule::NotMarkerDirectory ==> r@ == "Not a .markerdir folder: "@
                + self.path@,
            self.rule == Rule::DoesNotExist ==> r@ == "Path does not exist: "@ + self.path@,
            self.rule == Rule::NotADirectory ==> r@ == "Path is not a directory: "@ + self.path@,
    {
        let mut m: String = match self.rule {
            Rule::SystemDirectory => "Refusing to delete system directory: ".to_owned(),
            Rule::NotMarkerDirectory => "Not a .markerdir folder: ".to_owned(),
            Rule::DoesNotExist => "Path does not exist: ".to_owned(),
            Rule::NotADirectory => "Path is not a directory: ".to_owned(),
        };
        m.append(self.path.as_str());
        m
    }
}

/// The fixed deny-list of root and system directories for a platform.
pub open spec fn forbidden_paths(platform: Platform) -> Seq<Seq<char>> {
    match platform {
        Platform::Unix => seq!["/"@, "/Users"@, "/System"@, "/Library"@, "/Applications"@],
        Platform::Windows => seq![
            "C:\\"@,
            "C:\\Windows"@,
            "C:\\Program Files"@,
            "C:\\Program Files (x86)"@,
            "C:\\Users"@,
        ],
    }
}

/// Whether `p` names a deny-listed directory: exactly on Unix,
/// case-insensitively on Windows.
pub open spec fn path_forbidden(p: Seq<char>, platform: Platform) -> bool {
    exists|k: int|
        0 <= k < forbidden_paths(platform).len() && (match platform {
            Platform::Unix => p == forbidden_paths(platform)[k],
            Platform::Windows => eq_ignore_ascii_case_seq(p, #[trigger] forbidden_paths(platform)[k]),
        })
}

/// The first safety rule `p` breaks, checked in order: deny-list, marker
/// name, existence, directory-ness; `None` when every check passes. The
/// marker-name rule reads path separators by the platform's syntax.
pub open spec fn spec_first_violation(p: Seq<char>, st: PathStatus, platform: Platform) -> Option<
    Rule,
> {
    if path_forbidden(p, platform) {
        Some(Rule::SystemDirectory)
    } else if last_component(p, platform) != marker() {
        Some(Rule::NotMarkerDirectory)
    } else if !st.exists {
        Some(Rule::DoesNotExist)
    } else if !st.is_dir {
        Some(Rule::NotADirectory)
    } else {
        None
    }
}

/// The position of the first path in the batch that breaks a rule.
pub open spec fn first_invalid(
    paths: Seq<String>,
    status: Seq<PathStatus>,
    platform: Platform,
) -> Option<int>
    decreases paths.len(),
{
    if paths.len() == 0 {
        None
    } else if spec_first_violation(paths[0]@, status[0], platform) is Some {
        Some(0)
    } else {
        match first_invalid(paths.skip(1), status.skip(1), platform) {
            Some(i) => Some(i + 1),
            None => None,
        }
    }
}

/// `first_invalid` finds exactly the earliest offending path: before it
/// every path passes, at it a rule breaks, and it is `None` only when the
/// whole batch passes.
pub proof fn lemma_first_invalid_characterization(
    paths: Seq<String>,
    status: Seq<PathStatus>,
    platform: Platform,
)
    requires
        paths.len() == status.len(),
    ensures
        match first_invalid(paths, status, platform) {
            None => forall|k: int|
                0 <= k < paths.len() ==> spec_first_violation(
                    (#[trigger] paths[k])@,
                    status[k],
                    platform,
                ) is None,
            Some(i) => 0 <= i < paths.len() && spec_first_violation(
                paths[i]@,
                status[i],
                platform,
            ) is Some && forall|j: int|
                0 <= j < i ==> spec_first_violation(
                    (#[trigger] paths[j])@,
                    status[j],
                    platform,
                ) is None,
        },
    decreases paths.len(),
{
    if paths.len() > 0 {
        let ps = paths.skip(1);
        let ss = status.skip(1);
        if spec_first_violation(paths[0]@, status[0], platform) is None {
            lemma_first_invalid_characterization(ps, ss, platform);
            match first_invalid(ps, ss, platform) {
                None => {
                    assert(first_invalid(paths, status, platform) is None);
                    assert forall|k: int| 0 <= k < paths.len() implies spec_first_violation(
                        (#[trigger] paths[k])@,
                        status[k],
                        platform,
                    ) is None by {
                        if k > 0 {
                            assert(ps[k - 1] == paths[k]);
                            assert(ss[k - 1] == status[k]);
                            assert(spec_first_violation(ps[k - 1]@, ss[k - 1], platform) is None);
                        }
                    }
                },
                Some(i) => {
                    assert(first_invalid(paths, status, platform) == Some(i + 1));
                    assert(ps[i] == paths[i + 1]);
                    assert(ss[i] == status[i + 1]);
                    assert(spec_first_violation(paths[i + 1]@, status[i + 1], platform) is Some);
                    assert forall|j: int| 0 <= j < i + 1 implies spec_first_violation(
                        (#[trigger] paths[j])@,
                        status[j],
                        platform,
                    ) is None by {
                        if j > 0 {
                            assert(ps[j - 1] == paths[j]);
                            assert(ss[j - 1] == status[j]);
                            assert(spec_first_violation(ps[j - 1]@, ss[j - 1], platform) is None);
                        }
                    }
                },
            }
        }
    }
}

/// A batch with any path whose final component is not the marker name is
/// rejected, whatever the other paths look like: batch semantics are
/// all-or-nothing.
pub proof fn lemma_rejects_non_marker_path(
    paths: Seq<String>,
    status: Seq<PathStatus>,
    platform: Platform,
    k: int,
)
    requires
        paths.len() == status.len(),
        0 <= k < paths.len(),
        last_component(paths[k]@, platform) != marker(),
    ensures
        first_invalid(paths, status, platform) is Some,
{
    lemma_first_invalid_characterization(paths, status, platform);
}

/// A batch naming the filesystem root or a deny-listed system directory is
/// rejected; on Windows the comparison ignores ASCII case.
pub proof fn lemma_rejects_system_directory(
    paths: Seq<String>,
    status: Seq<PathStatus>,
    platform: Platform,
    k: int,
)
    requires
        paths.len() == status.len(),
        0 <= k < paths.len(),
        path_forbidden(paths[k]@, platform),
    ensures
        first_invalid(paths, status, platform) is Some,
{
    lemma_first_invalid_characterization(paths, status, platform);
}

fn path_is_forbidden(path: &str, platform: Platform) -> (r: bool)
    ensures
        r == path_forbidden(path@, platform),
{
    match platform {
        Platform::Unix => {
            let r = str_eq(path, "/") || str_eq(path, "/Users") || str_eq(path, "/System")
                || str_eq(path, "/Library") || str_eq(path, "/Applications");
            proof {
                let fs = forbidden_paths(Platform::Unix);
                if r {
                    if path@ == "/"@ {
                        assert(path@ == fs[0]);
                    } else if path@ == "/Users"@ {
                        assert(path@ == fs[1]);
                    } else if path@ == "/System"@ {
                        assert(path@ == fs[2]);
                    } else if path@ == "/Library"@ {
                        assert(path@ == fs[3]);
                    } else {
                        assert(path@ == fs[4]);
                    }
                } else {
                    assert forall|k: int| 0 <= k < fs.len() implies path@ != fs[k] by {
                        assert(fs[0] == "/"@);
                        assert(fs[1] == "/Users"@);
                        assert(fs[2] == "/System"@);
                        assert(fs[3] == "/Library"@);
                        assert(fs[4] == "/Applications"@);
                    }
                }
            }
            r
        },
        Platform::Windows => {
            let r = str_eq_ignore_ascii_case(path, "C:\\") || str_eq_ignore_ascii_case(
                path,
                "C:\\Windows",
            ) || str_eq_ignore_ascii_case(path, "C:\\Program Files") || str_eq_ignore_ascii_case(
                path,
                "C:\\Program Files (x86)",
            ) || str_eq_ignore_ascii_case(path, "C:\\Users");
            proof {
                let fs = forbidden_paths(Platform::Windows);
                if r {
                    if eq_ignore_ascii_case_seq(path@, "C:\\"@) {
                        assert(eq_ignore_ascii_case_seq(path@, fs[0]));
                    } else if eq_ignore_ascii_case_seq(path@, "C:\\Windows"@) {
                        assert(eq_ignore_ascii_case_seq(path@, fs[1]));
                    } else if eq_ignore_ascii_case_seq(path@, "C:\\Program Files"@) {
                        assert(eq_ignore_ascii_case_seq(path@, fs[2]));
                    } else if eq_ignore_ascii_case_seq(path@, "C:\\Program Files (x86)"@) {
                        assert(eq_ignore_ascii_case_seq(path@, fs[3]));
                    } else {
                        assert(eq_ignore_ascii_case_seq(path@, fs[4]));
                    }
                } else {
                    assert forall|k: int| 0 <= k < fs.len() implies !eq_ignore_ascii_case_seq(
                        path@,
                        fs[k],
                    ) by {
                        assert(fs[0] == "C:\\"@);
                        assert(fs[1] == "C:\\Windows"@);
                        assert(fs[2] == "C:\\Program Files"@);
                        assert(fs[3] == "C:\\Program Files (x86)"@);
                        assert(fs[4] == "C:\\Users"@);
                    }
                }
            }
            r
        },
    }
}

/// Runs the per-path checks in order and reports the first broken rule.
pub fn check_path(path: &str, st: PathStatus, platform: Platform) -> (r: Option<Rule>)
    ensures
        r == spec_first_violation(path@, st, platform),
{
    if path_is_forbidden(path, platform) {
        Some(Rule::SystemDirectory)
    } else if !crate::scanner::is_marker_name(path, platform) {
        Some(Rule::NotMarkerDirectory)
    } else if !st.exists {
        Some(Rule::DoesNotExist)
    } else if !st.is_dir {
        Some(Rule::NotADirectory)
    } else {
        None
    }
}

/// Validate paths before deletion. Succeeds only when every path passes all
/// safety checks; a single failing path rejects the whole batch, reporting
/// the first offending path and the rule it broke. `status` carries what the
/// filesystem currently says about each corresponding path.
pub fn validate_deletion(
    paths: &Vec<String>,
    status: &Vec<PathStatus>,
    platform: Platform,
) -> (r: Result<(), ValidationError>)
    requires
        paths@.len() == status@.len(),
    ensures
        match first_invalid(paths@, status@, platform) {
            None => r is Ok,
            Some(i) => r matches Err(e) && e.path@ == paths@[i]@ && Some(e.rule)
                == spec_first_violation(paths@[i]@, status@[i], platform),
        },
{
    proof {
        lemma_first_invalid_characterization(paths@, status@, platform);
    }
    let mut k: usize = 0;
    while k < paths.len()
        invariant
            paths@.len() == status@.len(),
            k <= paths@.len(),
            forall|j: int|
                0 <= j < k ==> spec_first_violation(
                    (#[trigger] paths@[j])@,
                    status@[j],
                    platform,
                ) is None,
            match first_invalid(paths@, status@, platform) {
                None => forall|j: int|
                    0 <= j < paths@.len() ==> spec_first_violation(
                        (#[trigger] paths@[j])@,
                        status@[j],
                        platform,
                    ) is None,
                Some(i) => 0 <= i < paths@.len() && spec_first_violation(
                    paths@[i]@,
                    status@[i],
                    platform,
                ) is Some && forall|j: int|
                    0 <= j < i ==> spec_first_violation(
                        (#[trigger] paths@[j])@,
                        status@[j],
                        platform,
                    ) is None,
            },
        decreases paths@.len() - k,
    {
        let v = check_path(paths[k].as_str(), status[k], platform);
        if let Some(rule) = v {
            return Err(ValidationError { rule, path: paths[k].clone() });
        }
        k = k + 1;
    }
    Ok(())
}

} // verus!
