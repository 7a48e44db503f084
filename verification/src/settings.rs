//! The persisted configuration: roots, encrypted patterns, password hash,
//! the incremental-scan flag and watermark, and the pipeline bounds.

use vstd::prelude::*;

verus! {

/// The persistent configuration of the scanner, written back at the end of
/// a run. `initial_scan == true` forces a full pass on the next scan.
pub struct ConfigFile {
    pub initial_scan: bool,
    pub output_directory: Option<String>,
    pub keywords: Vec<String>,
    pub roots: Vec<String>,
    pub secret: Option<String>,
    pub time_last_scan: String,
    pub max_scan_threads: usize,
    pub max_file_threads: usize,
    pub max_write_lines: u16,
}

impl Default for ConfigFile {
    /// The defaults of a fresh (or reset) configuration: everything empty,
    /// a forced full scan, and the standard pipeline bounds.
    fn default() -> (c: Self)
        ensures
            c.initial_scan == true,
            c.output_directory is None,
            c.keywords@.len() == 0,
            c.roots@.len() == 0,
            c.secret is None,
            c.time_last_scan@.len() == 0,
            c.max_scan_threads == 2,
            c.max_file_threads == 5,
            c.max_write_lines == 10000,
    {
        ConfigFile {
            initial_scan: true,
            output_directory: None,
            keywords: Vec::new(),
            roots: Vec::new(),
            secret: None,
            time_last_scan: String::new(),
            max_scan_threads: 2,
            max_file_threads: 5,
            max_write_lines: 10000,
        }
    }
}

} // verus!
