//! Configuration values for persistent preferences. Reading and parsing the
//! configuration file happens outside the library; the values and the rules
//! over them live here.

use vstd::prelude::*;

use crate::filter::SortOrder;
use crate::text::str_eq;

verus! {

/// Scan-related configuration.
#[derive(Debug)]
pub struct ScanConfig {
    /// Default paths to scan (empty = home directory).
    pub default_paths: Vec<String>,
    /// Patterns to exclude from scanning.
    pub exclude_patterns: Vec<String>,
    /// Include the global home marker directory.
    pub include_global: bool,
}

impl Default for ScanConfig {
    fn default() -> (r: ScanConfig)
        ensures
            r.default_paths@.len() == 0,
            r.exclude_patterns@.len() == 0,
            !r.include_global,
    {
        ScanConfig { default_paths: Vec::new(), exclude_patterns: Vec::new(), include_global: false }
    }
}

/// Display-related configuration.
#[derive(Debug)]
pub struct DisplayConfig {
    /// Show project type column.
    pub show_project_type: bool,
    /// Show filter bar by default.
    pub show_filter_bar: bool,
    /// Default sort order: size_desc, size_asc, name_asc, name_desc,
    /// date_desc, date_asc.
    pub default_sort: String,
}

impl Default for DisplayConfig {
    fn default() -> (r: DisplayConfig)
        ensures
            r.show_project_type,
            !r.show_filter_bar,
            r.default_sort@ == "size_desc"@,
    {
        DisplayConfig {
            show_project_type: true,
            show_filter_bar: false,
            default_sort: "size_desc".to_owned(),
        }
    }
}

/// Behavior-related configuration.
#[derive(Debug)]
pub struct BehaviorConfig {
    /// Use permanent delete instead of trash.
    pub permanent_delete: bool,
    /// Show confirmation dialog before delete.
    pub confirm_delete: bool,
}

impl Default for BehaviorConfig {
    fn default() -> (r: BehaviorConfig)
        ensures
            !r.permanent_delete,
            r.confirm_delete,
    {
        BehaviorConfig { permanent_delete: false, confirm_delete: true }
    }
}

/// Main configuration structure.
#[derive(Debug)]
pub struct Config {
    pub scan: ScanConfig,
    pub display: DisplayConfig,
    pub behavior: BehaviorConfig,
}

impl Default for Config {
    fn default() -> (r: Config)
        ensures
            r.scan.default_paths@.len() == 0,
            r.scan.exclude_patterns@.len() == 0,
            !r.scan.include_global,
            r.display.show_project_type,
            !r.display.show_filter_bar,
            r.display.default_sort@ == "size_desc"@,
            !r.behavior.permanent_delete,
            r.behavior.confirm_delete,
    {
        Config {
            scan: ScanConfig::default(),
            display: DisplayConfig::default(),
            behavior: BehaviorConfig::default(),
        }
    }
}

impl Config {
    /// The sort order that the configured name denotes; anything unknown
    /// falls back to sorting by size, largest first.
    pub open spec fn spec_sort_order(self) -> SortOrder {
        let s = self.display.default_sort@;
        if s == "size_asc"@ {
            SortOrder::SizeAsc
        } else if s == "name_asc"@ {
            SortOrder::NameAsc
        } else if s == "name_desc"@ {
            SortOrder::NameDesc
        } else if s == "date_desc"@ {
            SortOrder::DateDesc
        } else if s == "date_asc"@ {
            SortOrder::DateAsc
        } else {
            SortOrder::SizeDesc
        }
    }

    /// Parse sort order string to a `SortOrder` value.
    pub fn parse_sort_order(&self) -> (r: SortOrder)
        ensures
            r == self.spec_sort_order(),
    {
        let s = self.display.default_sort.as_str();
        if str_eq(s, "size_asc") {
            SortOrder::SizeAsc
        } else if str_eq(s, "name_asc") {
            SortOrder::NameAsc
        } else if str_eq(s, "name_desc") {
            SortOrder::NameDesc
        } else if str_eq(s, "date_desc") {
            SortOrder::DateDesc
        } else if str_eq(s, "date_asc") {
            SortOrder::DateAsc
        } else {
            SortOrder::SizeDesc
        }
    }

    /// Generate default config file content with comments; `path` is where
    /// the file will live.
    pub fn default_config_content(path: &str) -> (r: String)
        ensures
            r@ == "# MarkerKill Configuration\n# Location: "@ + path@ + config_template_tail(),
    {
        let mut out = "# MarkerKill Configuration\n# Location: ".to_owned();
        out.append(path);
        out.append(
            "\n\n[scan]\n# Default paths to scan (empty = home directory)\n# default_paths = [\"~/Projects\", \"~/Work\"]\n\n# Patterns to exclude from scanning\n# exclude_patterns = [\"node_modules\", \".git\"]\n\n# Include global ~/.markerdir folder in scan\ninclude_global = false\n\n[display]\n# Show project type column\nshow_project_type = true\n\n# Show filter bar by default\nshow_filter_bar = false\n\n# Default sort: \"size_desc\", \"size_asc\", \"name_asc\", \"name_desc\", \"date_desc\", \"date_asc\"\ndefault_sort = \"size_desc\"\n\n[behavior]\n# Use permanent delete instead of moving to trash\npermanent_delete = false\n\n# Show confirmation dialog before deleting\nconfirm_delete = true\n",
        );
        out
    }
}

/// The fixed remainder of the default configuration file, after the line
/// naming its location.
pub open spec fn config_template_tail() -> Seq<char> {
    "\n\n[scan]\n# Default paths to scan (empty = home directory)\n# default_paths = [\"~/Projects\", \"~/Work\"]\n\n# Patterns to exclude from scanning\n# exclude_patterns = [\"node_modules\", \".git\"]\n\n# Include global ~/.markerdir folder in scan\ninclude_global = false\n\n[display]\n# Show project type column\nshow_project_type = true\n\n# Show filter bar by default\nshow_filter_bar = false\n\n# Default sort: \"size_desc\", \"size_asc\", \"name_asc\", \"name_desc\", \"date_desc\", \"date_asc\"\ndefault_sort = \"size_desc\"\n\n[behavior]\n# Use permanent delete instead of moving to trash\npermanent_delete = false\n\n# Show confirmation dialog before deleting\nconfirm_delete = true\n"@
}

} // verus!
