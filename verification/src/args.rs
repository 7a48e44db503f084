//! The parsed command-line request. Argument parsing itself is the
//! application's; this is the plain shape it hands to the library.

use vstd::prelude::*;

verus! {

/// One invocation's request: which scan to run, what to add or remove, and
/// which configuration profile to use.
pub struct Args {
    pub scan: bool,
    pub full_scan: bool,
    pub verbose: bool,
    pub roots: Option<Vec<String>>,
    pub remove_roots: Option<Vec<String>>,
    pub add_keywords: Option<Vec<String>>,
    pub remove_keywords: Option<Vec<String>>,
    pub display_keywords: bool,
    pub output_directory: Option<String>,
    pub print_settings: bool,
    pub reset_settings: bool,
    pub case_sensitive: bool,
    pub pattern_file: Option<String>,
    pub config_file: String,
}

} // verus!
