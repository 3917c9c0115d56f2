//! An earlier single-node model of Raft's log replication: a node that
//! answers AppendEntries requests and a key-value data store that set
//! commands are stepped into.

use vstd::hash_map::StringHashMap;
use vstd::prelude::*;

verus! {

pub enum NodeType {
    Leader,
    Follower,
    Candidate,
}

pub type NodeID = String;

/// The key-value store that committed commands are applied to.
pub type DataStore = StringHashMap<String>;

pub struct SetCommand {
    pub key: String,
    pub value: String,
}

/// Applies one set command to the data store.
pub fn step(store: &mut DataStore, command: &SetCommand)
    ensures
        final(store)@ == old(store)@.insert(command.key@, command.value),
{
    store.insert(command.key.clone(), command.value.clone());
}

pub struct LogEntry {
    pub term: usize,
    pub command: SetCommand,
}

/// A log entry together with the position it is meant to take in the log.
pub struct LogEntryithIndex {
    pub index: usize,
    pub entry: LogEntry,
}

pub struct Node<Sleep> {
    pub node_type: NodeType,
    pub term: usize,
    pub voted_for: Option<NodeID>,
    pub log: Vec<LogEntry>,
    pub data_store: DataStore,
    pub commit_index: usize,
    pub sleep: Sleep,
}

pub struct AppendEntriesRPCRequest {
    pub term: usize,
    pub leader_id: NodeID,
    pub prev_log_index: usize,
    pub prev_log_term: usize,
    pub entries: Vec<LogEntryithIndex>,
    pub leader_commit: usize,
}

pub struct AppendEntriesRPCResponse {
    pub term: usize,
    pub success: bool,
}

/// A request is accepted when its term is not behind the node's and the
/// entry it names as preceding its entries, if the log has one there, carries
/// the term the request expects.
pub open spec fn request_accepted(term: usize, log: Seq<LogEntry>, request: AppendEntriesRPCRequest) -> bool {
    &&& request.term >= term
    &&& !(request.prev_log_index < log.len() && log[request.prev_log_index as int].term
        != request.prev_log_term)
}

/// What one received entry does to the log: an entry whose position is
/// already taken by an entry of another term replaces it and everything
/// after it; an entry whose position is taken by an entry of the same term
/// leaves the log alone; any other entry is appended at the end.
pub open spec fn apply_entry(log: Seq<LogEntry>, e: LogEntryithIndex) -> Seq<LogEntry> {
    if e.index < log.len() {
        if log[e.index as int].term != e.entry.term {
            log.take(e.index as int).push(e.entry)
        } else {
            log
        }
    } else {
        log.push(e.entry)
    }
}

/// The log after the received entries are applied one after the other.
pub open spec fn apply_entries(log: Seq<LogEntry>, entries: Seq<LogEntryithIndex>) -> Seq<LogEntry>
    decreases entries.len(),
{
    if entries.len() == 0 {
        log
    } else {
        apply_entry(apply_entries(log, entries.drop_last()), entries.last())
    }
}

/// The index of the last received entry, or 0 when there is none.
pub open spec fn last_entry_index(entries: Seq<LogEntryithIndex>) -> usize {
    if entries.len() == 0 {
        0
    } else {
        entries.last().index
    }
}

/// The commit index after an accepted request.
pub open spec fn next_commit_index(commit_index: usize, request: AppendEntriesRPCRequest) -> usize {
    if request.leader_commit > commit_index {
        let last = last_entry_index(request.entries@);
        if request.leader_commit <= last {
            request.leader_commit
        } else {
            last
        }
    } else {
        commit_index
    }
}

/// The log after a request, accepted or not.
pub open spec fn appended_log(term: usize, log: Seq<LogEntry>, request: AppendEntriesRPCRequest) -> Seq<
    LogEntry,
> {
    if request_accepted(term, log, request) {
        apply_entries(log, request.entries@)
    } else {
        log
    }
}

/// The commit index after a request, accepted or not.
pub open spec fn appended_commit_index(
    term: usize,
    log: Seq<LogEntry>,
    commit_index: usize,
    request: AppendEntriesRPCRequest,
) -> usize {
    if request_accepted(term, log, request) {
        next_commit_index(commit_index, request)
    } else {
        commit_index
    }
}

impl<Sleep> Node<Sleep> {
    /// A follower in term 0 with an empty log and an empty data store.
    pub fn new(sleep: Sleep) -> (node: Self)
        ensures
            node.node_type == NodeType::Follower,
            node.term == 0,
            node.voted_for is None,
            node.log@.len() == 0,
            node.data_store@ == Map::<Seq<char>, String>::empty(),
            node.commit_index == 0,
            node.sleep == sleep,
    {
        Node {
            node_type: NodeType::Follower,
            term: 0,
            voted_for: None,
            log: Vec::new(),
            data_store: DataStore::new(),
            commit_index: 0,
            sleep,
        }
    }

    /// Handles an AppendEntries request from a leader.
    pub fn append_entries(&mut self, request: AppendEntriesRPCRequest) -> (response:
        AppendEntriesRPCResponse)
        ensures
            response.term == old(self).term,
            response.success == request_accepted(old(self).term, old(self).log@, request),
            response.success <==> (request.term >= old(self).term && (request.prev_log_index
                >= old(self).log@.len() || old(self).log@[request.prev_log_index as int].term
                == request.prev_log_term)),
            !response.success ==> final(self).log@ == old(self).log@ && final(self).commit_index
                == old(self).commit_index,
            final(self).log@ == appended_log(old(self).term, old(self).log@, request),
            response.success && request.leader_commit > old(self).commit_index
                && request.entries@.len() == 0 ==> final(self).commit_index == 0,
            response.success && request.leader_commit > old(self).commit_index
                && request.entries@.len() > 0 ==> final(self).commit_index == if request.leader_commit
                <= request.entries@.last().index {
                request.leader_commit
            } else {
                request.entries@.last().index
            },
            request.leader_commit <= old(self).commit_index ==> final(self).commit_index == old(
                self,
            ).commit_index,
            final(self).commit_index == appended_commit_index(
                old(self).term,
                old(self).log@,
                old(self).commit_index,
                request,
            ),
            final(self).node_type == old(self).node_type,
            final(self).term == old(self).term,
            final(self).voted_for == old(self).voted_for,
            final(self).data_store == old(self).data_store,
            final(self).sleep == old(self).sleep,
    {
        let ghost old_log = self.log@;
        let ghost req = request;
        let mut success = true;

        if request.term < self.term {
            success = false;
        }
        if request.prev_log_index < self.log.len() {
            if self.log[request.prev_log_index].term != request.prev_log_term {
                success = false;
            }
        }

        if success {
            if request.leader_commit > self.commit_index {
                let n = request.entries.len();
                let last_new_entry_index = if n > 0 {
                    request.entries[n - 1].index
                } else {
                    0
                };
                self.commit_index =
                    if request.leader_commit <= last_new_entry_index {
                        request.leader_commit
                    } else {
                        last_new_entry_index
                    };
            }
            let ghost entries = request.entries@;
            for item in it: request.entries.into_iter()
                invariant
                    it.seq() == entries,
                    self.term == old(self).term,
                    self.commit_index == next_commit_index(old(self).commit_index, req),
                    self.node_type == old(self).node_type,
                    self.voted_for == old(self).voted_for,
                    self.data_store == old(self).data_store,
                    self.sleep == old(self).sleep,
                    self.log@ == apply_entries(old_log, entries.take(it.index() as int)),
            {
                proof {
                    assert(entries.take(it.index() + 1).drop_last() == entries.take(it.index() as int));
                }
                let LogEntryithIndex { index, entry } = item;
                if index < self.log.len() {
                    if self.log[index].term != entry.term {
                        self.log.truncate(index);
                        self.log.push(entry);
                    }
                } else {
                    self.log.push(entry);
                }
            }
            proof {
                assert(entries.take(entries.len() as int) == entries);
            }
        }
        AppendEntriesRPCResponse { term: self.term, success }
    }
}

/// The received entries take consecutive positions, the first at `start`.
pub open spec fn entries_in_order(entries: Seq<LogEntryithIndex>, start: int) -> bool {
    forall|k: int| 0 <= k < entries.len() ==> #[trigger] entries[k].index == start + k
}

/// A received entry disagrees with the log when the log holds no entry of
/// the same term at its position.
pub open spec fn disagrees(log: Seq<LogEntry>, e: LogEntryithIndex) -> bool {
    !(e.index < log.len() && log[e.index as int].term == e.entry.term)
}

/// `j` is the first received entry that disagrees with the log.
pub open spec fn first_disagreement(log: Seq<LogEntry>, entries: Seq<LogEntryithIndex>, j: int) -> bool {
    &&& 0 <= j < entries.len()
    &&& disagrees(log, entries[j])
    &&& forall|k: int| 0 <= k < j ==> !#[trigger] disagrees(log, entries[k])
}

/// The log entries carried by received entries, in order.
pub open spec fn entries_of(entries: Seq<LogEntryithIndex>) -> Seq<LogEntry> {
    entries.map_values(|e: LogEntryithIndex| e.entry)
}

proof fn lemma_apply_prefix(log: Seq<LogEntry>, es: Seq<LogEntryithIndex>, start: int, m: int)
    requires
        entries_in_order(es, start),
        0 <= start <= log.len(),
        0 <= m <= es.len(),
    ensures
        (forall|k: int| 0 <= k < m ==> !#[trigger] disagrees(log, es[k])) ==> apply_entries(
            log,
            es.take(m),
        ) == log,
        forall|j: int|
            0 <= j < m && #[trigger] first_disagreement(log, es, j) ==> apply_entries(log, es.take(m))
                == log.take(start + j) + entries_of(es.subrange(j, m)),
    decreases m,
{
    if m == 0 {
        assert(es.take(0).len() == 0);
    } else {
        lemma_apply_prefix(log, es, start, m - 1);
        let prev = apply_entries(log, es.take(m - 1));
        assert(es.take(m).drop_last() == es.take(m - 1));
        assert(es.take(m).last() == es[m - 1]);
        assert(apply_entries(log, es.take(m)) == apply_entry(prev, es[m - 1]));
        let e = es[m - 1];
        assert(e.index == start + m - 1);
        if m >= 2 {
            assert(es[m - 2].index == start + m - 2);
        }
        if forall|k: int| 0 <= k < m ==> !#[trigger] disagrees(log, es[k]) {
            assert(!disagrees(log, es[m - 1]));
            assert forall|k: int| 0 <= k < m - 1 implies !#[trigger] disagrees(log, es[k]) by {}
            assert(prev == log);
        }
        assert forall|j: int|
            0 <= j < m && #[trigger] first_disagreement(log, es, j) implies apply_entries(
            log,
            es.take(m),
        ) == log.take(start + j) + entries_of(es.subrange(j, m)) by {
            if j == m - 1 {
                assert forall|k: int| 0 <= k < m - 1 implies !#[trigger] disagrees(log, es[k]) by {}
                assert(prev == log);
                if m >= 2 {
                    assert(!disagrees(log, es[m - 2]));
                }
                assert(start + m - 1 <= log.len());
                assert(log.take(start + j) + entries_of(es.subrange(j, m)) =~= log.take(
                    start + m - 1,
                ).push(e.entry));
                if e.index >= log.len() {
                    assert(log.take(start + m - 1) =~= log);
                }
            } else {
                assert(prev == log.take(start + j) + entries_of(es.subrange(j, m - 1)));
                if j >= 1 {
                    assert(es[j - 1].index == start + j - 1);
                    assert(!disagrees(log, es[j - 1]));
                }
                assert(start + j <= log.len());
                assert(prev.len() == start + m - 1);
                assert(log.take(start + j) + entries_of(es.subrange(j, m)) =~= prev.push(e.entry));
            }
        }
    }
}

/// Raft's rule for received entries, for entries in order that start no
/// later than the end of the log: when every entry agrees with the log, the
/// log is unchanged; otherwise the log is cut at the first entry that
/// disagrees, and that entry and all that follow it are appended.
pub proof fn lemma_append_replaces_from_first_disagreement(
    log: Seq<LogEntry>,
    entries: Seq<LogEntryithIndex>,
    start: int,
)
    requires
        entries_in_order(entries, start),
        0 <= start <= log.len(),
    ensures
        (forall|k: int| 0 <= k < entries.len() ==> !#[trigger] disagrees(log, entries[k]))
            ==> apply_entries(log, entries) == log,
        forall|j: int| #[trigger]
            first_disagreement(log, entries, j) ==> apply_entries(log, entries) == log.take(start + j)
                + entries_of(entries.skip(j)),
{
    lemma_apply_prefix(log, entries, start, entries.len() as int);
    assert(entries.take(entries.len() as int) == entries);
    assert forall|j: int| #[trigger]
        first_disagreement(log, entries, j) implies apply_entries(log, entries) == log.take(start + j)
        + entries_of(entries.skip(j)) by {
        assert(entries.subrange(j, entries.len() as int) == entries.skip(j));
    }
}

/// After entries in order are applied, the log keeps what came before the
/// first of them, and holds each of them at its position with its term.
pub proof fn lemma_received_entries_in_place(log: Seq<LogEntry>, entries: Seq<LogEntryithIndex>, start: int)
    requires
        entries_in_order(entries, start),
        0 <= start <= log.len(),
    ensures
        apply_entries(log, entries).len() >= start + entries.len(),
        apply_entries(log, entries).take(start) == log.take(start),
        forall|k: int|
            0 <= k < entries.len() ==> !#[trigger] disagrees(apply_entries(log, entries), entries[k]),
{
    lemma_append_replaces_from_first_disagreement(log, entries, start);
    let result = apply_entries(log, entries);
    if exists|j: int| first_disagreement(log, entries, j) {
        let j = choose|j: int| first_disagreement(log, entries, j);
        if j >= 1 {
            assert(entries[j - 1].index == start + j - 1);
            assert(!disagrees(log, entries[j - 1]));
        }
        assert(entries[j].index == start + j);
        assert(result == log.take(start + j) + entries_of(entries.skip(j)));
        assert(result.take(start) =~= log.take(start));
        assert forall|k: int| 0 <= k < entries.len() implies !#[trigger] disagrees(result, entries[k]) by {
            assert(entries[k].index == start + k);
            if k < j {
                assert(!disagrees(log, entries[k]));
            }
        }
    } else {
        assert forall|k: int| 0 <= k < entries.len() implies !#[trigger] disagrees(log, entries[k]) by {
            if disagrees(log, entries[k]) {
                // the smallest disagreeing position would be a first disagreement
                lemma_first_disagreement_exists(log, entries, k);
            }
        }
        if entries.len() > 0 {
            let last = entries.len() - 1;
            assert(entries[last].index == start + last);
            assert(!disagrees(log, entries[last]));
        }
    }
}

proof fn lemma_first_disagreement_exists(log: Seq<LogEntry>, entries: Seq<LogEntryithIndex>, k: int)
    requires
        0 <= k < entries.len(),
        disagrees(log, entries[k]),
    ensures
        exists|j: int| first_disagreement(log, entries, j),
    decreases k,
{
    if forall|i: int| 0 <= i < k ==> !#[trigger] disagrees(log, entries[i]) {
        assert(first_disagreement(log, entries, k));
    } else {
        let i = choose|i: int| 0 <= i < k && #[trigger] disagrees(log, entries[i]);
        lemma_first_disagreement_exists(log, entries, i);
    }
}

/// Delivering the same AppendEntries request twice, with its entries in
/// order and starting no later than the end of the log, leaves the log and
/// the commit index as delivering it once does.
pub proof fn lemma_append_entries_idempotent(
    term: usize,
    log: Seq<LogEntry>,
    commit_index: usize,
    request: AppendEntriesRPCRequest,
    start: int,
)
    requires
        entries_in_order(request.entries@, start),
        0 <= start <= log.len(),
    ensures
        appended_log(term, appended_log(term, log, request), request) == appended_log(
            term,
            log,
            request,
        ),
        appended_commit_index(
            term,
            appended_log(term, log, request),
            appended_commit_index(term, log, commit_index, request),
            request,
        ) == appended_commit_index(term, log, commit_index, request),
{
    let es = request.entries@;
    if request_accepted(term, log, request) {
        let log1 = apply_entries(log, es);
        lemma_received_entries_in_place(log, es, start);
        lemma_append_replaces_from_first_disagreement(log1, es, start);
    }
}

/// The consistency check of AppendEntries: a request is refused exactly
/// when its term is behind the node's, or when the log holds an entry at the
/// request's previous index whose term is not the one the request expects;
/// a refused request leaves the log and the commit index as they were.
pub proof fn lemma_append_entries_consistency_check(
    term: usize,
    log: Seq<LogEntry>,
    commit_index: usize,
    request: AppendEntriesRPCRequest,
)
    ensures
        request.term < term ==> !request_accepted(term, log, request),
        request.prev_log_index < log.len() && log[request.prev_log_index as int].term
            != request.prev_log_term ==> !request_accepted(term, log, request),
        request.term >= term && (request.prev_log_index >= log.len()
            || log[request.prev_log_index as int].term == request.prev_log_term) ==> request_accepted(
            term,
            log,
            request,
        ),
        !request_accepted(term, log, request) ==> appended_log(term, log, request) == log
            && appended_commit_index(term, log, commit_index, request) == commit_index,
{
}

} // verus!
