//! Project detection: identifies the project type from the marker files
//! present in the directory that owns the marker directory.

use vstd::prelude::*;

use crate::text::str_eq;

verus! {

/// Which well-known marker files exist beside the marker directory.
#[derive(Clone, Copy)]
pub struct ProjectMarkers {
    pub cargo_toml: bool,
    pub package_json: bool,
    pub next_config_js: bool,
    pub next_config_mjs: bool,
    pub next_config_ts: bool,
    pub nuxt_config_ts: bool,
    pub nuxt_config_js: bool,
    pub vite_config_ts: bool,
    pub vite_config_js: bool,
    pub angular_json: bool,
    pub pyproject_toml: bool,
    pub setup_py: bool,
    pub requirements_txt: bool,
    pub go_mod: bool,
    pub pubspec_yaml: bool,
    pub gemfile: bool,
    pub pom_xml: bool,
    pub build_gradle: bool,
    pub build_gradle_kts: bool,
}

impl ProjectMarkers {
    /// Markers as probed in a directory where none of the files exist.
    pub fn none() -> (r: ProjectMarkers)
        ensures
            r == ProjectMarkers::spec_none(),
    {
        ProjectMarkers {
            cargo_toml: false,
            package_json: false,
            next_config_js: false,
            next_config_mjs: false,
            next_config_ts: false,
            nuxt_config_ts: false,
            nuxt_config_js: false,
            vite_config_ts: false,
            vite_config_js: false,
            angular_json: false,
            pyproject_toml: false,
            setup_py: false,
            requirements_txt: false,
            go_mod: false,
            pubspec_yaml: false,
            gemfile: false,
            pom_xml: false,
            build_gradle: false,
            build_gradle_kts: false,
        }
    }

    pub open spec fn spec_none() -> ProjectMarkers {
        ProjectMarkers {
            cargo_toml: false,
            package_json: false,
            next_config_js: false,
            next_config_mjs: false,
            next_config_ts: false,
            nuxt_config_ts: false,
            nuxt_config_js: false,
            vite_config_ts: false,
            vite_config_js: false,
            angular_json: false,
            pyproject_toml: false,
            setup_py: false,
            requirements_txt: false,
            go_mod: false,
            pubspec_yaml: false,
            gemfile: false,
            pom_xml: false,
            build_gradle: false,
            build_gradle_kts: false,
        }
    }
}

/// The classifier's label for a set of markers, with the same priority order
/// the probes are made in: Rust first, then the Node.js ecosystem (with its
/// framework refinements), Python, Go, Flutter, Ruby, Java, and Unknown last.
pub open spec fn spec_detect(m: ProjectMarkers) -> Seq<char> {
    if m.cargo_toml {
        "Rust"@
    } else if m.package_json {
        if m.next_config_js || m.next_config_mjs || m.next_config_ts {
            "Next.js"@
        } else if m.nuxt_config_ts || m.nuxt_config_js {
            "Nuxt"@
        } else if m.vite_config_ts || m.vite_config_js {
            "Vite"@
        } else if m.angular_json {
            "Angular"@
        } else {
            "Node.js"@
        }
    } else if m.pyproject_toml || m.setup_py || m.requirements_txt {
        "Python"@
    } else if m.go_mod {
        "Go"@
    } else if m.pubspec_yaml {
        "Flutter"@
    } else if m.gemfile {
        "Ruby"@
    } else if m.pom_xml || m.build_gradle || m.build_gradle_kts {
        "Java"@
    } else {
        "Unknown"@
    }
}

/// Detect project type from the marker files beside the marker directory.
pub fn detect(m: &ProjectMarkers) -> (r: String)
    ensures
        r@ == spec_detect(*m),
{
    if m.cargo_toml {
        "Rust".to_owned()
    } else if m.package_json {
        if m.next_config_js || m.next_config_mjs || m.next_config_ts {
            "Next.js".to_owned()
        } else if m.nuxt_config_ts || m.nuxt_config_js {
            "Nuxt".to_owned()
        } else if m.vite_config_ts || m.vite_config_js {
            "Vite".to_owned()
        } else if m.angular_json {
            "Angular".to_owned()
        } else {
            "Node.js".to_owned()
        }
    } else if m.pyproject_toml || m.setup_py || m.requirements_txt {
        "Python".to_owned()
    } else if m.go_mod {
        "Go".to_owned()
    } else if m.pubspec_yaml {
        "Flutter".to_owned()
    } else if m.gemfile {
        "Ruby".to_owned()
    } else if m.pom_xml || m.build_gradle || m.build_gradle_kts {
        "Java".to_owned()
    } else {
        "Unknown".to_owned()
    }
}

/// Holds when some element of `names` views as `s`.
pub open spec fn names_contain(names: Seq<String>, s: Seq<char>) -> bool {
    exists|k: int| 0 <= k < names.len() && (#[trigger] names[k])@ == s
}

fn names_have(names: &Vec<String>, wanted: &str) -> (r: bool)
    ensures
        r == names_contain(names@, wanted@),
{
    let mut k: usize = 0;
    while k < names.len()
        invariant
            k <= names.len(),
            forall|j: int| 0 <= j < k ==> (#[trigger] names@[j])@ != wanted@,
        decreases names.len() - k,
    {
        if str_eq(names[k].as_str(), wanted) {
            return true;
        }
        k = k + 1;
    }
    false
}

/// Builds the marker-file probe from the names present in a directory,
/// mirroring the per-file existence probes of the classifier.
pub fn markers_from_names(names: &Vec<String>) -> (r: ProjectMarkers)
    ensures
        r.cargo_toml == names_contain(names@, "Cargo.toml"@),
        r.package_json == names_contain(names@, "package.json"@),
        r.next_config_js == names_contain(names@, "next.config.js"@),
        r.next_config_mjs == names_contain(names@, "next.config.mjs"@),
        r.next_config_ts == names_contain(names@, "next.config.ts"@),
        r.nuxt_config_ts == names_contain(names@, "nuxt.config.ts"@),
        r.nuxt_config_js == names_contain(names@, "nuxt.config.js"@),
        r.vite_config_ts == names_contain(names@, "vite.config.ts"@),
        r.vite_config_js == names_contain(names@, "vite.config.js"@),
        r.angular_json == names_contain(names@, "angular.json"@),
        r.pyproject_toml == names_contain(names@, "pyproject.toml"@),
        r.setup_py == names_contain(names@, "setup.py"@),
        r.requirements_txt == names_contain(names@, "requirements.txt"@),
        r.go_mod == names_contain(names@, "go.mod"@),
        r.pubspec_yaml == names_contain(names@, "pubspec.yaml"@),
        r.gemfile == names_contain(names@, "Gemfile"@),
        r.pom_xml == names_contain(names@, "pom.xml"@),
        r.build_gradle == names_contain(names@, "build.gradle"@),
        r.build_gradle_kts == names_contain(names@, "build.gradle.kts"@),
{
    ProjectMarkers {
        cargo_toml: names_have(names, "Cargo.toml"),
        package_json: names_have(names, "package.json"),
        next_config_js: names_have(names, "next.config.js"),
        next_config_mjs: names_have(names, "next.config.mjs"),
        next_config_ts: names_have(names, "next.config.ts"),
        nuxt_config_ts: names_have(names, "nuxt.config.ts"),
        nuxt_config_js: names_have(names, "nuxt.config.js"),
        vite_config_ts: names_have(names, "vite.config.ts"),
        vite_config_js: names_have(names, "vite.config.js"),
        angular_json: names_have(names, "angular.json"),
        pyproject_toml: names_have(names, "pyproject.toml"),
        setup_py: names_have(names, "setup.py"),
        requirements_txt: names_have(names, "requirements.txt"),
        go_mod: names_have(names, "go.mod"),
        pubspec_yaml: names_have(names, "pubspec.yaml"),
        gemfile: names_have(names, "Gemfile"),
        pom_xml: names_have(names, "pom.xml"),
        build_gradle: names_have(names, "build.gradle"),
        build_gradle_kts: names_have(names, "build.gradle.kts"),
    }
}

} // verus!
