//! Scan planning: turning the persisted state and the user's flags into
//! the effective scan mode and watermark. The thread orchestration that
//! runs one pipeline per root lives in the surrounding application.

use vstd::prelude::*;

verus! {

/// What chrono's UTC timestamp parsing yields for a stored watermark
/// string: the epoch milliseconds, or nothing when the string does not
/// parse. The outcome depends on the string alone.
pub uninterp spec fn parsed_epoch_of(s: Seq<char>) -> Option<i64>;

/// Relies on chrono's `DateTime<Utc>` FromStr parsing and
/// timestamp_millis: the stored watermark string as epoch milliseconds,
/// or nothing when it does not parse.
#[verifier::external_body]
pub fn parse_timestamp(s: &str) -> (r: Option<i64>)
    ensures
        r == parsed_epoch_of(s@),
{
    match s.parse::<chrono::DateTime<chrono::Utc>>() {
        Ok(t) => Some(t.timestamp_millis()),
        Err(_) => None,
    }
}

/// The scan mode of one run: a full pass when the user forced one or the
/// configuration demands an initial scan.
pub open spec fn full_scan_of(initial_scan: bool, user_full: bool) -> bool {
    initial_scan || user_full
}

/// The effective watermark of one run, in epoch milliseconds: the epoch
/// for a full pass or an absent (or unparsable) previous stamp, else the
/// previous stamp.
pub open spec fn watermark_of(full_scan: bool, last: Option<i64>) -> i64 {
    if full_scan {
        0
    } else {
        match last {
            Some(t) => t,
            None => 0,
        }
    }
}

/// Plans one scan: whether it is a full pass, and the watermark files are
/// filtered against. An unparsable previous stamp degrades to the epoch,
/// which scans every file.
pub fn plan_scan(initial_scan: bool, user_full: bool, last: Option<i64>) -> (r: (bool, i64))
    ensures
        r.0 == full_scan_of(initial_scan, user_full),
        r.1 == watermark_of(r.0, last),
{
    let full = initial_scan || user_full;
    let watermark: i64 = if full {
        0
    } else {
        match last {
            Some(t) => t,
            None => 0,
        }
    };
    (full, watermark)
}

} // verus!
