//! The per-invocation scan settings, immutable once constructed.

use vstd::prelude::*;

verus! {

/// Everything one scan run needs: the flags, the decrypted patterns, the
/// roots, the watermark, the output directory and the pipeline bounds.
/// Timestamps are UTC epoch milliseconds.
pub struct ScanSettings {
    pub full_scan: bool,
    pub time_stamp: i64,
    pub verbose: bool,
    pub keywords: Vec<String>,
    pub roots: Vec<String>,
    pub last_scan_time_stamp: Option<i64>,
    pub output_dir: String,
    pub case_sensitive: bool,
    pub max_scan_threads: usize,
    pub max_file_threads: usize,
    pub max_write_lines: u16,
}

impl ScanSettings {
    /// Bundles one invocation's settings; `time_stamp` is the wall clock at
    /// construction, supplied by the caller.
    pub fn new(
        full_scan: bool,
        verbose: bool,
        keywords: Vec<String>,
        roots: Vec<String>,
        last_scan_time_stamp: Option<i64>,
        output_dir: String,
        case_sensitive: bool,
        max_scan_threads: usize,
        max_file_threads: usize,
        max_write_lines: u16,
        time_stamp: i64,
    ) -> (s: Self)
        ensures
            s == (ScanSettings {
                full_scan,
                time_stamp,
                verbose,
                keywords,
                roots,
                last_scan_time_stamp,
                output_dir,
                case_sensitive,
                max_scan_threads,
                max_file_threads,
                max_write_lines,
            }),
    {
        ScanSettings {
            full_scan,
            time_stamp,
            verbose,
            keywords,
            roots,
            last_scan_time_stamp,
            output_dir,
            case_sensitive,
            max_scan_threads,
            max_file_threads,
            max_write_lines,
        }
    }
}

} // verus!
