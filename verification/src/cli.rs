//! The command-line surface: which flags a run carries. Argument parsing
//! itself happens outside the library; the selected options live here.

use vstd::prelude::*;

verus! {

/// The options one invocation runs with.
#[derive(Debug)]
pub struct Args {
    /// Directory to scan (default: home directory).
    pub path: Option<String>,
    /// List folders without the interactive session.
    pub dry_run: bool,
    /// Include the global home marker directory.
    pub include_global: bool,
    /// Permanently delete instead of moving to trash.
    pub permanent: bool,
    /// Create a default config file.
    pub init_config: bool,
    /// Show the config file location.
    pub config_path: bool,
    /// Undo the last trash-based deletion.
    pub undo: bool,
    /// Show deletion history.
    pub history: bool,
    /// Generate a space analysis report.
    pub report: bool,
    /// Export format: json or csv.
    pub export: Option<String>,
}

} // verus!
