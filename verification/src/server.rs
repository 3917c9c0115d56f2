//! How a node answers the requests of its peers.

pub mod main_grpc;

use crate::node::{ElectionState, Node, NodeType};
use main_grpc::{HeartbeatReply, HeartbeatRequest, RequestVoteReply, RequestVoteRequest};
use vstd::prelude::*;

verus! {

/// The larger of two terms.
pub open spec fn max_term(a: u64, b: u64) -> u64 {
    if b > a {
        b
    } else {
        a
    }
}

/// Whether a node whose last vote went to `last_voted_for_term` can grant a
/// vote in `term`: it has never voted, or only in an earlier term.
pub open spec fn vote_available(last_voted_for_term: Option<u64>, term: u64) -> bool {
    match last_voted_for_term {
        None => true,
        Some(t) => t < term,
    }
}

/// A heartbeat is from a current leader when its term is not behind the node's.
pub open spec fn heartbeat_accepted(s: ElectionState, request_term: u64) -> bool {
    request_term >= s.term
}

/// The election state after a heartbeat: the node catches up with a newer
/// term, and becomes a follower of any leader whose term is not behind.
pub open spec fn after_heartbeat(s: ElectionState, request_term: u64) -> ElectionState {
    ElectionState {
        node_type: if heartbeat_accepted(s, request_term) {
            NodeType::Follower
        } else {
            s.node_type
        },
        term: max_term(s.term, request_term),
        last_voted_for_term: s.last_voted_for_term,
    }
}

/// The election state after a vote request: a granted vote is recorded, and
/// a newer term makes the node a follower in that term.
pub open spec fn after_vote_request(s: ElectionState, request_term: u64) -> ElectionState {
    ElectionState {
        node_type: if request_term > s.term {
            NodeType::Follower
        } else {
            s.node_type
        },
        term: max_term(s.term, request_term),
        last_voted_for_term: if vote_available(s.last_voted_for_term, request_term) {
            Some(request_term)
        } else {
            s.last_voted_for_term
        },
    }
}

/// What handling a heartbeat gives back: the reply, whether the node type
/// changed (so its watchers are to be told), and whether the heartbeat came
/// from a current leader (so the waiting follower is to be told).
pub struct HeartbeatOutcome {
    pub reply: HeartbeatReply,
    pub node_type_changed: bool,
    pub heartbeat_received: bool,
}

/// What handling a vote request gives back: the reply, and whether the node
/// type changed.
pub struct VoteOutcome {
    pub reply: RequestVoteReply,
    pub node_type_changed: bool,
}

impl<SM, LET> Node<SM, LET> {
    /// Handles a leader's heartbeat.
    pub fn receive_heartbeat(&mut self, request: &HeartbeatRequest) -> (outcome: HeartbeatOutcome)
        ensures
            final(self).election_state() == after_heartbeat(old(self).election_state(), request.term),
            outcome.heartbeat_received == heartbeat_accepted(old(self).election_state(), request.term),
            request.term >= old(self).term ==> outcome.heartbeat_received && final(self).node_type
                == NodeType::Follower && final(self).term == request.term,
            request.term < old(self).term ==> !outcome.heartbeat_received && final(self).node_type
                == old(self).node_type && final(self).term == old(self).term,
            final(self).last_voted_for_term == old(self).last_voted_for_term,
            outcome.node_type_changed == (heartbeat_accepted(old(self).election_state(), request.term)
                && old(self).node_type != NodeType::Follower),
            outcome.node_type_changed <==> (request.term >= old(self).term && old(self).node_type
                != NodeType::Follower),
            outcome.reply == (HeartbeatReply {}),
            final(self).peers == old(self).peers,
            final(self).state_machine == old(self).state_machine,
            final(self).log_entries == old(self).log_entries,
    {
        if request.term > self.term {
            self.term = request.term;
        }
        let mut node_type_changed = false;
        let mut heartbeat_received = false;
        if request.term >= self.term {
            node_type_changed = self.change_node_type(NodeType::Follower);
            heartbeat_received = true;
        }
        HeartbeatOutcome { reply: HeartbeatReply {  }, node_type_changed, heartbeat_received }
    }

    /// Handles a candidate's request for a vote.
    pub fn receive_vote_request(&mut self, request: &RequestVoteRequest) -> (outcome: VoteOutcome)
        ensures
            final(self).election_state() == after_vote_request(
                old(self).election_state(),
                request.term,
            ),
            outcome.reply.vote_granted <==> (old(self).last_voted_for_term is None || old(
                self,
            ).last_voted_for_term->0 < request.term),
            outcome.reply.vote_granted ==> final(self).last_voted_for_term == Some(request.term),
            !outcome.reply.vote_granted ==> final(self).last_voted_for_term == old(
                self,
            ).last_voted_for_term,
            request.term > old(self).term ==> final(self).node_type == NodeType::Follower
                && final(self).term == request.term,
            request.term <= old(self).term ==> final(self).node_type == old(self).node_type
                && final(self).term == old(self).term,
            outcome.reply == (RequestVoteReply {
                vote_granted: vote_available(old(self).last_voted_for_term, request.term),
                term: old(self).term,
            }),
            outcome.node_type_changed == (request.term > old(self).term && old(self).node_type
                != NodeType::Follower),
            final(self).peers == old(self).peers,
            final(self).state_machine == old(self).state_machine,
            final(self).log_entries == old(self).log_entries,
    {
        let grant_vote = match self.last_voted_for_term {
            None => true,
            Some(t) => t < request.term,
        };
        let reply = RequestVoteReply { vote_granted: grant_vote, term: self.term };
        if grant_vote {
            self.last_voted_for_term = Some(request.term);
        }
        let mut node_type_changed = false;
        if request.term > self.term {
            self.term = request.term;
            node_type_changed = self.change_node_type(NodeType::Follower);
        }
        VoteOutcome { reply, node_type_changed }
    }
}

/// A node's term never goes down when it answers a heartbeat or a vote
/// request, and changing its role leaves the term alone.
pub proof fn lemma_terms_never_decrease(s: ElectionState, request_term: u64, node_type: NodeType)
    ensures
        after_heartbeat(s, request_term).term >= s.term,
        after_vote_request(s, request_term).term >= s.term,
        crate::node::after_node_type_change(s, node_type).term == s.term,
{
}

/// A node grants at most one vote per term: once it grants a vote in a
/// term, it refuses every request in that term or an earlier one.
pub proof fn lemma_at_most_one_vote_per_term(s: ElectionState, granted_term: u64, later_term: u64)
    requires
        vote_available(s.last_voted_for_term, granted_term),
        later_term <= granted_term,
    ensures
        after_vote_request(s, granted_term).last_voted_for_term == Some(granted_term),
        !vote_available(after_vote_request(s, granted_term).last_voted_for_term, later_term),
{
}

/// The term a node last voted in never goes down.
pub proof fn lemma_vote_term_never_decreases(s: ElectionState, request_term: u64, t: u64)
    requires
        s.last_voted_for_term == Some(t),
    ensures
        after_vote_request(s, request_term).last_voted_for_term matches Some(t2) && t2 >= t,
{
}

/// A heartbeat delivered twice leaves the node as delivering it once does.
pub proof fn lemma_heartbeat_idempotent(s: ElectionState, request_term: u64)
    ensures
        after_heartbeat(after_heartbeat(s, request_term), request_term) == after_heartbeat(
            s,
            request_term,
        ),
{
}

/// After a heartbeat from a current leader the node is a follower in the
/// leader's term; a heartbeat from an older term changes nothing.
pub proof fn lemma_heartbeat_from_current_leader(s: ElectionState, request_term: u64)
    ensures
        heartbeat_accepted(s, request_term) ==> after_heartbeat(s, request_term).node_type
            == NodeType::Follower && after_heartbeat(s, request_term).term == request_term,
        !heartbeat_accepted(s, request_term) ==> after_heartbeat(s, request_term) == s,
{
}

/// A request a node answers in an election: a leader's heartbeat or a
/// candidate's request for a vote, each in its term.
pub enum ElectionEvent {
    Heartbeat(u64),
    VoteRequest(u64),
}

/// The election state after the node answers one request.
pub open spec fn after_event(s: ElectionState, e: ElectionEvent) -> ElectionState {
    match e {
        ElectionEvent::Heartbeat(t) => after_heartbeat(s, t),
        ElectionEvent::VoteRequest(t) => after_vote_request(s, t),
    }
}

/// The election state after the node answers the requests one after the
/// other.
pub open spec fn after_events(s: ElectionState, events: Seq<ElectionEvent>) -> ElectionState
    decreases events.len(),
{
    if events.len() == 0 {
        s
    } else {
        after_event(after_events(s, events.drop_last()), events.last())
    }
}

/// Whether the `i`-th request is a vote request that the node grants, given
/// the state the earlier requests left it in.
pub open spec fn vote_granted_at(s: ElectionState, events: Seq<ElectionEvent>, i: int) -> bool {
    &&& 0 <= i < events.len()
    &&& events[i] matches ElectionEvent::VoteRequest(t) && vote_available(
        after_events(s, events.take(i)).last_voted_for_term,
        t,
    )
}

/// The node has voted in `term` or a later term.
pub open spec fn voted_at_least(last_voted_for_term: Option<u64>, term: u64) -> bool {
    last_voted_for_term matches Some(v) && v >= term
}

proof fn lemma_voted_at_least_persists(
    s: ElectionState,
    events: Seq<ElectionEvent>,
    i: int,
    j: int,
    term: u64,
)
    requires
        0 <= i <= j <= events.len(),
        voted_at_least(after_events(s, events.take(i)).last_voted_for_term, term),
    ensures
        voted_at_least(after_events(s, events.take(j)).last_voted_for_term, term),
    decreases j - i,
{
    if i < j {
        let before = after_events(s, events.take(i));
        assert(events.take(i + 1).drop_last() == events.take(i));
        assert(events.take(i + 1).last() == events[i]);
        assert(after_events(s, events.take(i + 1)) == after_event(before, events[i]));
        lemma_voted_at_least_persists(s, events, i + 1, j, term);
    }
}

/// A node grants at most one vote per term over any run of vote requests
/// and heartbeats: two vote requests of the same term, wherever they come in
/// the run, are not both granted.
pub proof fn lemma_one_vote_per_term_over_any_run(
    s: ElectionState,
    events: Seq<ElectionEvent>,
    i: int,
    j: int,
    term: u64,
)
    requires
        0 <= i < j < events.len(),
        events[i] == ElectionEvent::VoteRequest(term),
        events[j] == ElectionEvent::VoteRequest(term),
    ensures
        !(vote_granted_at(s, events, i) && vote_granted_at(s, events, j)),
{
    if vote_granted_at(s, events, i) {
        let before = after_events(s, events.take(i));
        assert(events.take(i + 1).drop_last() == events.take(i));
        assert(events.take(i + 1).last() == events[i]);
        assert(after_events(s, events.take(i + 1)) == after_vote_request(before, term));
        lemma_voted_at_least_persists(s, events, i + 1, j, term);
    }
}

/// A heartbeat whose term is not behind the node's is accepted whatever the
/// node's role: the node becomes a follower in the heartbeat's term. A
/// heartbeat from an older term is not accepted and changes nothing.
pub proof fn lemma_heartbeat_accepted_from_current_term(s: ElectionState, request_term: u64)
    ensures
        request_term >= s.term ==> heartbeat_accepted(s, request_term) && after_heartbeat(
            s,
            request_term,
        ).node_type == NodeType::Follower && after_heartbeat(s, request_term).term == request_term,
        request_term < s.term ==> !heartbeat_accepted(s, request_term) && after_heartbeat(
            s,
            request_term,
        ) == s,
        after_heartbeat(s, request_term).last_voted_for_term == s.last_voted_for_term,
{
}

/// A vote is available exactly when the node has never voted or last voted
/// in an earlier term: any later term gets the vote, and granting it records
/// that term.
pub proof fn lemma_vote_granted_for_any_later_term(s: ElectionState, request_term: u64)
    ensures
        s.last_voted_for_term is None ==> vote_available(s.last_voted_for_term, request_term),
        s.last_voted_for_term matches Some(t) && t < request_term ==> vote_available(
            s.last_voted_for_term,
            request_term,
        ),
        s.last_voted_for_term matches Some(t) && t >= request_term ==> !vote_available(
            s.last_voted_for_term,
            request_term,
        ),
        vote_available(s.last_voted_for_term, request_term) ==> after_vote_request(
            s,
            request_term,
        ).last_voted_for_term == Some(request_term),
        request_term > s.term ==> after_vote_request(s, request_term).node_type == NodeType::Follower
            && after_vote_request(s, request_term).term == request_term,
        request_term <= s.term ==> after_vote_request(s, request_term).node_type == s.node_type
            && after_vote_request(s, request_term).term == s.term,
{
}

} // verus!
