//! An earlier way of answering peers, kept beside `server`: a newer term
//! turns the node into a follower directly, with no one told of the change,
//! and a granted vote is not recorded.

use crate::node::{ElectionState, Node, NodeType};
use crate::server::main_grpc::{HeartbeatReply, HeartbeatRequest, RequestVoteReply, RequestVoteRequest};
use crate::server::{max_term, vote_available};
use vstd::prelude::*;

verus! {

/// The election state after a request in `request_term`: a newer term makes
/// the node a follower in that term; its vote record is left alone.
pub open spec fn after_request_in_term(s: ElectionState, request_term: u64) -> ElectionState {
    ElectionState {
        node_type: if request_term > s.term {
            NodeType::Follower
        } else {
            s.node_type
        },
        term: max_term(s.term, request_term),
        last_voted_for_term: s.last_voted_for_term,
    }
}

/// Handles a leader's heartbeat. Returns the reply and whether the waiting
/// follower is to be told of a heartbeat from a current leader.
pub fn heartbeat<SM, LET>(node: &mut Node<SM, LET>, request: &HeartbeatRequest) -> (out: (
    HeartbeatReply,
    bool,
))
    ensures
        final(node).election_state() == after_request_in_term(old(node).election_state(), request.term),
        out.1 == (request.term >= old(node).term),
        request.term > old(node).term ==> final(node).node_type == NodeType::Follower
            && final(node).term == request.term,
        request.term <= old(node).term ==> final(node).node_type == old(node).node_type
            && final(node).term == old(node).term,
        out.0 == (HeartbeatReply {}),
        final(node).peers == old(node).peers,
        final(node).state_machine == old(node).state_machine,
        final(node).log_entries == old(node).log_entries,
{
    if request.term > node.term {
        node.term = request.term;
        node.node_type = NodeType::Follower;
    }
    let notify = request.term >= node.term;
    (HeartbeatReply {  }, notify)
}

/// Handles a candidate's request for a vote. The reply carries the node's
/// term after it caught up with the request's.
pub fn request_vote<SM, LET>(node: &mut Node<SM, LET>, request: &RequestVoteRequest) -> (reply:
    RequestVoteReply)
    ensures
        final(node).election_state() == after_request_in_term(old(node).election_state(), request.term),
        reply.vote_granted <==> (old(node).last_voted_for_term is None || old(
            node,
        ).last_voted_for_term->0 < request.term),
        final(node).last_voted_for_term == old(node).last_voted_for_term,
        request.term > old(node).term ==> final(node).node_type == NodeType::Follower
            && final(node).term == request.term,
        request.term <= old(node).term ==> final(node).node_type == old(node).node_type
            && final(node).term == old(node).term,
        reply == (RequestVoteReply {
            vote_granted: vote_available(old(node).last_voted_for_term, request.term),
            term: max_term(old(node).term, request.term),
        }),
        final(node).peers == old(node).peers,
        final(node).state_machine == old(node).state_machine,
        final(node).log_entries == old(node).log_entries,
{
    if request.term > node.term {
        node.term = request.term;
        node.node_type = NodeType::Follower;
    }
    let grant_vote = match node.last_voted_for_term {
        None => true,
        Some(t) => t < request.term,
    };
    RequestVoteReply { vote_granted: grant_vote, term: node.term }
}

/// A request of a newer term makes the node a follower in that term
/// whatever its role; a request of its own or an older term leaves its role
/// and term alone; the vote record is never touched.
pub proof fn lemma_newer_term_makes_follower(s: ElectionState, request_term: u64)
    ensures
        request_term > s.term ==> after_request_in_term(s, request_term).node_type
            == NodeType::Follower && after_request_in_term(s, request_term).term == request_term,
        request_term <= s.term ==> after_request_in_term(s, request_term) == s,
        after_request_in_term(s, request_term).last_voted_for_term == s.last_voted_for_term,
{
}

} // verus!
