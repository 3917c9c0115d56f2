//! Entries of the replicated log.

use vstd::prelude::*;

verus! {

/// A command together with the term in which a leader received it and its
/// position in the log.
#[derive(Debug, Clone)]
pub struct LogEntry<T> {
    pub term: u64,
    pub index: u64,
    pub command: T,
}

/// Every entry's index is its position in the log.
pub open spec fn indices_match_positions<T>(log: Seq<LogEntry<T>>) -> bool {
    forall|i: int| 0 <= i < log.len() ==> #[trigger] log[i].index == i
}

/// No entry's term is above `term`.
pub open spec fn terms_at_most<T>(log: Seq<LogEntry<T>>, term: u64) -> bool {
    forall|i: int| 0 <= i < log.len() ==> #[trigger] log[i].term <= term
}

/// The terms of the log never decrease from one entry to the next.
pub open spec fn terms_non_decreasing<T>(log: Seq<LogEntry<T>>) -> bool {
    forall|i: int, j: int| 0 <= i <= j < log.len() ==> #[trigger] log[i].term <= #[trigger] log[j].term
}

} // verus!
