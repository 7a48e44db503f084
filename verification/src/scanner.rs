//! The walk-side eligibility rule of the incremental scan: which directory
//! entries are handed to file workers, by modification time against the
//! watermark.

use vstd::prelude::*;

verus! {

/// One directory entry as the walker sees it: the path and the
/// modification time in epoch milliseconds, when it could be read.
pub struct FileEntry {
    pub path: String,
    pub mtime: Option<i64>,
}

/// The plain value of one entry: its path's characters and its
/// modification time.
pub open spec fn entry_view(e: FileEntry) -> (Seq<char>, Option<i64>) {
    (e.path@, e.mtime)
}

/// The plain values of a list of entries.
pub open spec fn entry_views(s: Seq<FileEntry>) -> Seq<(Seq<char>, Option<i64>)> {
    s.map_values(|e: FileEntry| entry_view(e))
}

/// The eligibility rule: a file is scanned when its modification time is at
/// or after the watermark, or when the time could not be read (fail open).
pub open spec fn eligible(mtime: Option<i64>, watermark: i64) -> bool {
    match mtime {
        None => true,
        Some(t) => t >= watermark,
    }
}

/// Decides whether one entry is scanned: modification time at or after the
/// watermark, or unreadable.
pub fn is_eligible(mtime: Option<i64>, watermark: i64) -> (r: bool)
    ensures
        r == eligible(mtime, watermark),
{
    match mtime {
        None => true,
        Some(t) => t >= watermark,
    }
}

/// The entries the walker hands to workers: those eligible under the
/// watermark, in walk order.
pub open spec fn eligible_entries(
    entries: Seq<(Seq<char>, Option<i64>)>,
    watermark: i64,
) -> Seq<(Seq<char>, Option<i64>)>
    decreases entries.len(),
{
    if entries.len() == 0 {
        Seq::empty()
    } else {
        eligible_entries(entries.drop_last(), watermark) + (if eligible(
            entries.last().1,
            watermark,
        ) {
            seq![entries.last()]
        } else {
            Seq::empty()
        })
    }
}

/// Filters a walk's entries down to the eligible ones, in walk order.
pub fn select_eligible(entries: &Vec<FileEntry>, watermark: i64) -> (r: Vec<FileEntry>)
    ensures
        entry_views(r@) == eligible_entries(entry_views(entries@), watermark),
{
    let ghost evs = entry_views(entries@);
    let mut r: Vec<FileEntry> = Vec::new();
    let mut i: usize = 0;
    while i < entries.len()
        invariant
            i <= entries@.len(),
            evs == entry_views(entries@),
            entry_views(r@) == eligible_entries(evs.take(i as int), watermark),
        decreases entries@.len() - i,
    {
        let e = &entries[i];
        proof {
            assert(evs.take(i + 1).drop_last() =~= evs.take(i as int));
            assert(evs.take(i + 1).last() == entry_view(entries@[i as int]));
        }
        if is_eligible(e.mtime, watermark) {
            r.push(FileEntry { path: e.path.clone(), mtime: e.mtime });
        }
        proof {
            assert(entry_views(r@) =~= eligible_entries(evs.take(i + 1), watermark));
        }
        i = i + 1;
    }
    proof {
        assert(evs.take(evs.len() as int) =~= evs);
    }
    r
}

/// An incremental re-scan with no file changed since the watermark selects
/// nothing: when every entry has a readable modification time strictly
/// before the watermark, no entry is eligible.
pub proof fn lemma_unchanged_rescan(entries: Seq<(Seq<char>, Option<i64>)>, watermark: i64)
    requires
        forall|i: int|
            0 <= i < entries.len() ==> ((#[trigger] entries[i].1) matches Some(t) && t
                < watermark),
    ensures
        eligible_entries(entries, watermark).len() == 0,
    decreases entries.len(),
{
    if entries.len() > 0 {
        lemma_unchanged_rescan(entries.drop_last(), watermark);
    }
}

/// A partial scan keeps exactly the touched (or unreadable) entries: an
/// entry is selected if and only if it stands in the walk and is eligible.
pub proof fn lemma_eligible_iff(
    entries: Seq<(Seq<char>, Option<i64>)>,
    watermark: i64,
    e: (Seq<char>, Option<i64>),
)
    ensures
        eligible_entries(entries, watermark).contains(e) <==> (entries.contains(e) && eligible(
            e.1,
            watermark,
        )),
    decreases entries.len(),
{
    if entries.len() > 0 {
        lemma_eligible_iff(entries.drop_last(), watermark, e);
        let sel = eligible_entries(entries, watermark);
        let sel0 = eligible_entries(entries.drop_last(), watermark);
        if sel.contains(e) {
            let k = choose|k: int| 0 <= k < sel.len() && sel[k] == e;
            if k < sel0.len() {
                assert(sel0[k] == e);
                assert(entries.drop_last().contains(e));
                let j = choose|j: int|
                    0 <= j < entries.drop_last().len() && entries.drop_last()[j] == e;
                assert(entries[j] == e);
            } else {
                assert(e == entries.last());
                assert(entries[entries.len() - 1] == e);
            }
        }
        if entries.contains(e) && eligible(e.1, watermark) {
            let j = choose|j: int| 0 <= j < entries.len() && entries[j] == e;
            if j < entries.len() - 1 {
                assert(entries.drop_last()[j] == e);
                assert(sel0.contains(e));
                let k = choose|k: int| 0 <= k < sel0.len() && sel0[k] == e;
                assert(sel[k] == e);
            } else {
                assert(sel[sel.len() - 1] == e);
            }
        }
    }
}

} // verus!
