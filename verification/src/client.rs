//! The decisions a node takes in each of its roles: a follower that hears
//! no heartbeat stands for election, a candidate counts its votes, and a
//! leader from time to time appends a new entry to its log before it sends
//! heartbeats.

use crate::log_entry::{indices_match_positions, terms_at_most, terms_non_decreasing, LogEntry};
use crate::node::{ElectionState, Node, NodeType};
use crate::server::main_grpc::RequestVoteReply;
use crate::server::vote_available;
use crate::state_machine::{HashMapStateMachineEvent, StateMachine};
use rand::Rng;
use vstd::prelude::*;

verus! {

/// Draws a number below `high` from the thread-local generator, with
/// `rand::Rng::gen_range(0..high)`. rand documents that the result lies in
/// the range and that an empty range panics, which `requires` leaves out;
/// which number comes out is chance and is not stated.
#[verifier::external_body]
fn random_below(high: u64) -> (r: u64)
    requires
        high > 0,
    ensures
        r < high,
{
    rand::thread_rng().gen_range(0..high)
}

/// Draws `true` with probability `numerator / denominator` from the
/// thread-local generator, with `rand::Rng::gen_ratio`. rand documents that
/// it is always `false` when the numerator is 0, always `true` when the two
/// are equal, and that it panics when the denominator is 0 or below the
/// numerator, which `requires` leaves out; any other outcome is chance.
#[verifier::external_body]
fn random_ratio(numerator: u32, denominator: u32) -> (r: bool)
    requires
        0 < denominator,
        numerator <= denominator,
    ensures
        numerator == 0 ==> !r,
        numerator == denominator ==> r,
{
    rand::thread_rng().gen_ratio(numerator, denominator)
}

/// How a follower's wait for a heartbeat ended.
#[derive(Debug, Clone, Copy, PartialEq, Eq, Structural)]
pub enum NodeClientFollowerOutput {
    DidNotReceiveHeartbeat,
    HeartbeatReceived,
}

/// How a candidate's round of vote requests ended.
pub struct CandidateOutcome {
    pub total_votes: usize,
    pub became_leader: bool,
    pub node_type_changed: bool,
}

/// The election state of a node that stands for election: a new term, in
/// which it votes for itself.
pub open spec fn after_election_start(s: ElectionState) -> ElectionState {
    ElectionState {
        node_type: s.node_type,
        term: (s.term + 1) as u64,
        last_voted_for_term: Some((s.term + 1) as u64),
    }
}

/// The node is still a candidate in the term in which it stood.
pub open spec fn still_candidate_in(s: ElectionState, election_term: u64) -> bool {
    s.node_type == NodeType::Candidate && s.term == election_term
}

/// The election state after a round of vote requests begun in
/// `election_term` ends, `wins` telling whether the votes are a majority.
pub open spec fn after_conclusion(s: ElectionState, election_term: u64, wins: bool) -> ElectionState {
    if still_candidate_in(s, election_term) && wins {
        crate::node::after_node_type_change(s, NodeType::Leader)
    } else {
        s
    }
}

/// The election state after a follower's wait for a heartbeat.
pub open spec fn after_follower_timeout(s: ElectionState, output: NodeClientFollowerOutput) -> ElectionState {
    if output == NodeClientFollowerOutput::DidNotReceiveHeartbeat && s.node_type == NodeType::Follower {
        crate::node::after_node_type_change(s, NodeType::Candidate)
    } else {
        s
    }
}

/// How many of the replies grant a vote; a peer that could not be reached
/// or did not answer has no reply.
pub open spec fn granted_votes(replies: Seq<Option<RequestVoteReply>>) -> nat
    decreases replies.len(),
{
    if replies.len() == 0 {
        0
    } else {
        granted_votes(replies.drop_last()) + match replies.last() {
            Some(reply) => if reply.vote_granted {
                1nat
            } else {
                0nat
            },
            None => 0nat,
        }
    }
}

/// A candidate wins with more than half of the votes of a cluster of its
/// peers and itself.
pub open spec fn wins_election(total_votes: int, peer_count: int) -> bool {
    total_votes > (peer_count + 1) / 2
}

/// The time a candidate waits before it asks for votes again, in
/// milliseconds, drawn at random below 100.
pub fn candidate_sleep_millis() -> (millis: u64)
    ensures
        millis < 100,
{
    random_below(100)
}

/// The votes a candidate holds: its own and those its peers granted.
pub fn count_votes(replies: &Vec<Option<RequestVoteReply>>) -> (total_votes: usize)
    requires
        replies.len() < usize::MAX,
    ensures
        total_votes == 1 + granted_votes(replies@),
{
    let mut total_votes: usize = 1;
    let mut i: usize = 0;
    while i < replies.len()
        invariant
            i <= replies.len() < usize::MAX,
            total_votes == 1 + granted_votes(replies@.take(i as int)),
            granted_votes(replies@.take(i as int)) <= i,
        decreases replies.len() - i,
    {
        proof {
            assert(replies@.take(i + 1).drop_last() == replies@.take(i as int));
        }
        match &replies[i] {
            Some(reply) => {
                if reply.vote_granted {
                    total_votes = total_votes + 1;
                }
            },
            None => {},
        }
        i = i + 1;
    }
    proof {
        assert(replies@.take(replies.len() as int) == replies@);
    }
    total_votes
}

/// Whether `total_votes` are more than half of a cluster of `peer_count`
/// peers and the candidate.
pub fn is_majority(total_votes: usize, peer_count: usize) -> (majority: bool)
    requires
        peer_count < usize::MAX,
    ensures
        majority == wins_election(total_votes as int, peer_count as int),
        majority <==> 2 * total_votes > peer_count + 1,
{
    total_votes > (peer_count + 1) / 2
}

/// A candidate wins exactly with a strict majority of the cluster of its
/// peers and itself: more than half of its nodes.
pub proof fn lemma_wins_exactly_with_strict_majority(total_votes: int, peer_count: int)
    requires
        0 <= peer_count,
    ensures
        wins_election(total_votes, peer_count) <==> 2 * total_votes > peer_count + 1,
{
}

/// The count of granted votes among replies: no more than the replies, all
/// of them when every reply grants, none when none does.
pub proof fn lemma_granted_votes_bounds(replies: Seq<Option<RequestVoteReply>>)
    ensures
        granted_votes(replies) <= replies.len(),
        (forall|i: int| 0 <= i < replies.len() ==> (#[trigger] replies[i] matches Some(r)
            && r.vote_granted)) ==> granted_votes(replies) == replies.len(),
        (forall|i: int| 0 <= i < replies.len() ==> !(#[trigger] replies[i] matches Some(r)
            && r.vote_granted)) ==> granted_votes(replies) == 0,
    decreases replies.len(),
{
    if replies.len() > 0 {
        let rest = replies.drop_last();
        assert forall|i: int| 0 <= i < rest.len() implies #[trigger] rest[i] == replies[i] by {}
        lemma_granted_votes_bounds(rest);
        assert(replies.last() == replies[replies.len() - 1]);
    }
}

/// Two candidates whose votes together do not exceed the size of the
/// cluster cannot both win: every two majorities share a voter.
pub proof fn lemma_majorities_overlap(votes_a: int, votes_b: int, peer_count: int)
    requires
        0 <= peer_count,
        wins_election(votes_a, peer_count),
        wins_election(votes_b, peer_count),
    ensures
        votes_a + votes_b > peer_count + 1,
{
}

/// The members of `cluster` whose vote in a term went to `candidate`;
/// `vote_of` maps each node that voted in the term to the one candidate it
/// voted for, as a node grants at most one vote per term.
pub open spec fn voters_for(cluster: Set<int>, vote_of: Map<int, int>, candidate: int) -> Set<int> {
    cluster.filter(|v: int| vote_of.contains_key(v) && vote_of[v] == candidate)
}

/// Election safety: when every node votes for at most one candidate in a
/// term, two candidates that both win a majority of the cluster in that term
/// are the same candidate.
pub proof fn lemma_one_leader_per_term(cluster: Set<int>, vote_of: Map<int, int>, a: int, b: int)
    requires
        cluster.finite(),
        cluster.len() >= 1,
        wins_election(voters_for(cluster, vote_of, a).len() as int, cluster.len() - 1),
        wins_election(voters_for(cluster, vote_of, b).len() as int, cluster.len() - 1),
    ensures
        a == b,
{
    let va = voters_for(cluster, vote_of, a);
    let vb = voters_for(cluster, vote_of, b);
    vstd::set_lib::lemma_len_subset(va, cluster);
    vstd::set_lib::lemma_len_subset(vb, cluster);
    lemma_majorities_overlap(va.len() as int, vb.len() as int, cluster.len() - 1);
    assert((va + vb).subset_of(cluster));
    vstd::set_lib::lemma_len_subset(va + vb, cluster);
    vstd::set_lib::lemma_set_intersect_union_lens(va, vb);
    assert(va.intersect(vb).len() > 0);
    let v = va.intersect(vb).choose();
    assert(va.intersect(vb).contains(v));
}

/// A candidate has voted for itself in its new term, so it refuses the vote
/// to any other candidate of that term or an earlier one.
pub proof fn lemma_candidate_refuses_rivals(s: ElectionState, rival_term: u64)
    requires
        s.term < u64::MAX,
        rival_term <= after_election_start(s).term,
    ensures
        !vote_available(after_election_start(s).last_voted_for_term, rival_term),
        after_election_start(s).term > s.term,
{
}

/// A leader appending an entry of its current term at the end of its log
/// keeps every index equal to its position and the terms in order.
pub proof fn lemma_leader_append_keeps_log_ordered<T>(log: Seq<LogEntry<T>>, entry: LogEntry<T>, term: u64)
    requires
        indices_match_positions(log),
        terms_non_decreasing(log),
        terms_at_most(log, term),
        entry.term == term,
        entry.index == log.len(),
    ensures
        indices_match_positions(log.push(entry)),
        terms_non_decreasing(log.push(entry)),
        terms_at_most(log.push(entry), term),
{
    let l2 = log.push(entry);
    assert forall|i: int, j: int| 0 <= i <= j < l2.len() implies #[trigger] l2[i].term
        <= #[trigger] l2[j].term by {
        if j == log.len() {
            assert(l2[i].term <= term);
        }
    }
}

impl<SM, LET> Node<SM, LET> {
    /// After a follower's wait: a follower that heard no heartbeat becomes
    /// a candidate. Returns whether the node type changed.
    pub fn after_follower_wait(&mut self, output: NodeClientFollowerOutput) -> (changed: bool)
        ensures
            final(self).election_state() == after_follower_timeout(old(self).election_state(), output),
            changed == (output == NodeClientFollowerOutput::DidNotReceiveHeartbeat
                && old(self).node_type == NodeType::Follower),
            final(self).peers == old(self).peers,
            final(self).state_machine == old(self).state_machine,
            final(self).log_entries == old(self).log_entries,
    {
        match output {
            NodeClientFollowerOutput::DidNotReceiveHeartbeat => {
                if self.node_type == NodeType::Follower {
                    self.change_node_type(NodeType::Candidate)
                } else {
                    false
                }
            },
            NodeClientFollowerOutput::HeartbeatReceived => false,
        }
    }

    /// Stands for election: moves to the next term and votes for itself.
    /// Returns the new term.
    pub fn start_election(&mut self) -> (term: u64)
        requires
            old(self).term < u64::MAX,
        ensures
            final(self).election_state() == after_election_start(old(self).election_state()),
            term == final(self).term,
            final(self).term == old(self).term + 1,
            final(self).last_voted_for_term == Some(final(self).term),
            final(self).node_type == old(self).node_type,
            final(self).peers == old(self).peers,
            final(self).state_machine == old(self).state_machine,
            final(self).log_entries == old(self).log_entries,
    {
        self.term = self.term + 1;
        self.last_voted_for_term = Some(self.term);
        self.term
    }

    /// Ends a round of vote requests that the node began with
    /// `start_election` in `election_term`: a node that is still a candidate
    /// in that term and holds a majority of the cluster becomes the leader.
    /// A node that meanwhile became a follower, or moved to another term,
    /// stays as it is.
    pub fn conclude_election(
        &mut self,
        election_term: u64,
        replies: &Vec<Option<RequestVoteReply>>,
    ) -> (outcome: CandidateOutcome)
        requires
            replies.len() < usize::MAX,
            old(self).peers.len() < usize::MAX,
        ensures
            outcome.total_votes == 1 + granted_votes(replies@),
            outcome.became_leader <==> (old(self).node_type == NodeType::Candidate && old(self).term
                == election_term && 2 * outcome.total_votes > old(self).peers.len() + 1),
            outcome.became_leader == (still_candidate_in(old(self).election_state(), election_term)
                && wins_election(outcome.total_votes as int, old(self).peers.len() as int)),
            final(self).election_state() == after_conclusion(
                old(self).election_state(),
                election_term,
                wins_election(outcome.total_votes as int, old(self).peers.len() as int),
            ),
            outcome.node_type_changed == outcome.became_leader,
            outcome.became_leader ==> final(self).node_type == NodeType::Leader,
            !outcome.became_leader ==> final(self).node_type == old(self).node_type,
            final(self).term == old(self).term,
            final(self).last_voted_for_term == old(self).last_voted_for_term,
            final(self).peers == old(self).peers,
            final(self).state_machine == old(self).state_machine,
            final(self).log_entries == old(self).log_entries,
    {
        let total_votes = count_votes(replies);
        if self.node_type == NodeType::Candidate && self.term == election_term && is_majority(
            total_votes,
            self.peers.len(),
        ) {
            let node_type_changed = self.change_node_type(NodeType::Leader);
            CandidateOutcome { total_votes, became_leader: true, node_type_changed }
        } else {
            CandidateOutcome { total_votes, became_leader: false, node_type_changed: false }
        }
    }
}

impl<SM> Node<SM, HashMapStateMachineEvent<u64, u64>> where
    SM: StateMachine<Event = HashMapStateMachineEvent<u64, u64>>,
 {
    /// The entries a leader sends with its next heartbeats. When `propose`
    /// holds, the leader first puts its term under its term as key: it
    /// applies the command to its state machine and appends it to its log
    /// at the end, and that one entry is sent; otherwise nothing changes and
    /// nothing is sent.
    pub fn leader_entries_to_send(&mut self, propose: bool) -> (entries: Vec<
        LogEntry<HashMapStateMachineEvent<u64, u64>>,
    >)
        ensures
            propose ==> {
                let entry = LogEntry {
                    term: old(self).term,
                    index: old(self).log_entries@.len() as u64,
                    command: HashMapStateMachineEvent::Put(old(self).term, old(self).term),
                };
                &&& entries@ == seq![entry]
                &&& final(self).log_entries@ == old(self).log_entries@.push(entry)
                &&& SM::applies(
                    old(self).state_machine,
                    HashMapStateMachineEvent::Put(old(self).term, old(self).term),
                    final(self).state_machine,
                )
            },
            !propose ==> entries@.len() == 0 && final(self).log_entries == old(
                self,
            ).log_entries && final(self).state_machine == old(self).state_machine,
            final(self).election_state() == old(self).election_state(),
            final(self).peers == old(self).peers,
    {
        let mut entries = Vec::new();
        if propose {
            let term = self.term;
            let index = self.log_entries.len() as u64;
            self.state_machine.apply(HashMapStateMachineEvent::Put(term, term));
            self.log_entries.push(
                LogEntry { term, index, command: HashMapStateMachineEvent::Put(term, term) },
            );
            entries.push(LogEntry { term, index, command: HashMapStateMachineEvent::Put(term, term) });
        }
        entries
    }

    /// A leader's round: it decides at random, with a chance of one in ten,
    /// whether to propose a new entry, and gives back the entries to send.
    pub fn leader_round(&mut self) -> (entries: Vec<LogEntry<HashMapStateMachineEvent<u64, u64>>>)
        ensures
            entries@.len() <= 1,
            entries@.len() == 0 ==> final(self).log_entries == old(self).log_entries
                && final(self).state_machine == old(self).state_machine,
            entries@.len() == 1 ==> {
                let entry = LogEntry {
                    term: old(self).term,
                    index: old(self).log_entries@.len() as u64,
                    command: HashMapStateMachineEvent::Put(old(self).term, old(self).term),
                };
                &&& entries@[0] == entry
                &&& final(self).log_entries@ == old(self).log_entries@.push(entry)
                &&& SM::applies(
                    old(self).state_machine,
                    HashMapStateMachineEvent::Put(old(self).term, old(self).term),
                    final(self).state_machine,
                )
            },
            final(self).election_state() == old(self).election_state(),
            final(self).peers == old(self).peers,
    {
        let propose = random_ratio(1, 10);
        self.leader_entries_to_send(propose)
    }
}

} // verus!
