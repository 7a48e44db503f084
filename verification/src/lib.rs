//! Recursively scans directory roots for regular-expression patterns across
//! common document formats and streams the findings to rotating CSV files.
//!
//! The crate holds the verified core: the pattern vault (password-derived
//! AES-GCM with PBKDF2 verification), the extractor registry and matcher,
//! the per-file scan step, the CSV artifact format with its rotation rule,
//! and the incremental-scan state machine over the persisted settings.
//! Directory walking, threading and file I/O live in the surrounding
//! application, which feeds plain values into these functions.

use vstd::prelude::*;

pub mod settings;
pub mod text;
pub mod hexcode;
pub mod encryption;
pub mod matcher;
pub mod file_handler;
pub mod csv_writer;
pub mod scanner;
pub mod scan_settings;
pub mod args;
pub mod config;
pub mod run;
pub mod scan_manager;

verus! {

/// One finding record: the deduplicated matches of one file, joined into a
/// single string, together with the file's name and full path.
pub struct Row {
    pub findings: String,
    pub filename: String,
    pub path: String,
}

/// A message on a per-root scan channel: a finding record, or the
/// end-of-stream sentinel after which the writer terminates.
pub enum ScanMessage {
    Msg(Row),
    END,
}

} // verus!
