//! What is kept between runs: the history is bounded, and old log files go.
use vstd::prelude::*;
use crate::models::HistoryEntry;

verus! {

/// The number of history entries that are kept.
pub const HISTORY_LIMIT: usize = 500;

/// The history as it is kept: the newest `HISTORY_LIMIT` entries.
pub open spec fn bounded_history(history: Seq<HistoryEntry>) -> Seq<HistoryEntry> {
    if history.len() > HISTORY_LIMIT {
        history.skip(history.len() - HISTORY_LIMIT)
    } else {
        history
    }
}

/// Drops the oldest entries beyond the limit.
pub fn trim_history(history: &mut Vec<HistoryEntry>)
    ensures
        final(history)@ == bounded_history(old(history)@),
        final(history)@.len() <= HISTORY_LIMIT,
{
    if history.len() > HISTORY_LIMIT {
        let remove_count = history.len() - HISTORY_LIMIT;
        let kept = history.split_off(remove_count);
        *history = kept;
    }
}

/// Appends an entry and drops the oldest ones beyond the limit.
pub fn add_history(history: &mut Vec<HistoryEntry>, entry: HistoryEntry)
    ensures
        final(history)@ == bounded_history(old(history)@.push(entry)),
{
    history.push(entry);
    trim_history(history);
}

/// Adding an entry keeps it as the newest one and keeps the history within its
/// limit; the entries before it are the newest of the earlier history.
pub proof fn law_added_entry_is_newest(history: Seq<HistoryEntry>, entry: HistoryEntry)
    ensures
        bounded_history(history.push(entry)).len() <= HISTORY_LIMIT,
        bounded_history(history.push(entry)).len() > 0,
        bounded_history(history.push(entry)).last() == entry,
        bounded_history(history.push(entry)).drop_last() == history.skip(
            history.len() + 1 - bounded_history(history.push(entry)).len(),
        ),
{
    let h = history.push(entry);
    let b = bounded_history(h);
    assert(b.last() == entry);
    assert(b.drop_last() =~= history.skip(history.len() + 1 - b.len()));
}

/// A log file is removed once it is more than 14 days old.
pub open spec fn log_expired_spec(age_secs: u64, age_nanos: u32) -> bool {
    age_secs > 1209600 || (age_secs == 1209600 && age_nanos > 0)
}

/// Whether a log file of the given age (as a `Duration`) is removed.
pub fn log_is_expired(age_secs: u64, age_nanos: u32) -> (r: bool)
    ensures
        r == log_expired_spec(age_secs, age_nanos),
{
    age_secs > 1209600 || (age_secs == 1209600 && age_nanos > 0)
}

} // verus!
