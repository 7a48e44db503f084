//! An earlier shape of the command-line request, kept for compatibility
//! with callers of the older interface.

use vstd::prelude::*;

verus! {

/// The older invocation request: as `Args`, with display flags for the
/// root list and the output directory, and without a profile name.
pub struct Config {
    pub scan: bool,
    pub full_scan: bool,
    pub verbose: bool,
    pub root: Option<Vec<String>>,
    pub remove_roots: Option<Vec<String>>,
    pub display_root: bool,
    pub add_keywords: Option<Vec<String>>,
    pub remove_keywords: Option<Vec<String>>,
    pub display_keywords: bool,
    pub output_directory: Option<String>,
    pub print_output_directory: bool,
    pub print_settings: bool,
    pub reset_settings: bool,
    pub case_sensitive: bool,
    pub pattern_file: Option<String>,
}

} // verus!
