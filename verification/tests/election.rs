use raft_study::client::{
    candidate_sleep_millis, count_votes, is_majority, NodeClientFollowerOutput,
};
use raft_study::grpc;
use raft_study::node::{Node, NodeType};
use raft_study::server::main_grpc::{
    HeartbeatReply, HeartbeatRequest, RequestVoteReply, RequestVoteRequest,
};
use raft_study::state_machine::HashMapStateMachineEvent;
use std::collections::HashMap;

type KvNode = Node<HashMap<u64, u64>, HashMapStateMachineEvent<u64, u64>>;

fn node(peers: usize) -> KvNode {
    let peers = (0..peers).map(|i| format!("http://peer{}", i)).collect();
    Node::new(peers, HashMap::new())
}

fn heartbeat(term: u64) -> HeartbeatRequest {
    HeartbeatRequest { term, entries: vec![] }
}

fn vote(term: u64) -> RequestVoteRequest {
    RequestVoteRequest { term }
}

fn reply(granted: bool) -> Option<RequestVoteReply> {
    Some(RequestVoteReply { vote_granted: granted, term: 0 })
}

#[test]
fn new_node_is_follower_in_term_zero() {
    let n = node(2);
    assert_eq!(n.node_type, NodeType::Follower);
    assert_eq!(n.term, 0);
    assert_eq!(n.last_voted_for_term, None);
    assert_eq!(n.peers.len(), 2);
    assert!(n.log_entries.is_empty());
}

#[test]
fn change_node_type_reports_a_change_once() {
    let mut n = node(0);
    assert!(n.change_node_type(NodeType::Candidate));
    assert_eq!(n.node_type, NodeType::Candidate);
    assert!(!n.change_node_type(NodeType::Candidate));
    assert_eq!(n.node_type, NodeType::Candidate);
}

#[test]
fn heartbeat_from_older_term_is_ignored() {
    let mut n = node(1);
    n.term = 5;
    n.node_type = NodeType::Leader;
    let outcome = n.receive_heartbeat(&heartbeat(4));
    assert!(!outcome.heartbeat_received);
    assert!(!outcome.node_type_changed);
    assert_eq!(outcome.reply, HeartbeatReply {});
    assert_eq!(n.term, 5);
    assert_eq!(n.node_type, NodeType::Leader);
}

#[test]
fn heartbeat_from_newer_term_makes_a_follower() {
    let mut n = node(1);
    n.term = 2;
    n.node_type = NodeType::Candidate;
    let outcome = n.receive_heartbeat(&heartbeat(7));
    assert!(outcome.heartbeat_received);
    assert!(outcome.node_type_changed);
    assert_eq!(n.term, 7);
    assert_eq!(n.node_type, NodeType::Follower);
    // the same heartbeat again changes nothing but is still a heartbeat
    let again = n.receive_heartbeat(&heartbeat(7));
    assert!(again.heartbeat_received);
    assert!(!again.node_type_changed);
    assert_eq!(n.term, 7);
}

#[test]
fn heartbeat_of_same_term_keeps_follower_without_change() {
    let mut n = node(1);
    n.term = 3;
    let outcome = n.receive_heartbeat(&heartbeat(3));
    assert!(outcome.heartbeat_received);
    assert!(!outcome.node_type_changed);
    assert_eq!(n.node_type, NodeType::Follower);
}

#[test]
fn one_vote_per_term() {
    let mut n = node(2);
    let first = n.receive_vote_request(&vote(1));
    assert_eq!(first.reply, RequestVoteReply { vote_granted: true, term: 0 });
    assert_eq!(n.last_voted_for_term, Some(1));
    assert_eq!(n.term, 1);
    assert!(!first.node_type_changed);
    let second = n.receive_vote_request(&vote(1));
    assert_eq!(second.reply, RequestVoteReply { vote_granted: false, term: 1 });
    let older = n.receive_vote_request(&vote(0));
    assert!(!older.reply.vote_granted);
    let newer = n.receive_vote_request(&vote(2));
    assert!(newer.reply.vote_granted);
    assert_eq!(n.last_voted_for_term, Some(2));
}

#[test]
fn vote_request_from_newer_term_makes_a_follower() {
    let mut n = node(2);
    n.term = 3;
    n.node_type = NodeType::Leader;
    n.last_voted_for_term = Some(3);
    let outcome = n.receive_vote_request(&vote(4));
    assert_eq!(outcome.reply, RequestVoteReply { vote_granted: true, term: 3 });
    assert!(outcome.node_type_changed);
    assert_eq!(n.node_type, NodeType::Follower);
    assert_eq!(n.term, 4);
}

#[test]
fn vote_request_of_own_term_keeps_role() {
    let mut n = node(2);
    n.term = 3;
    n.node_type = NodeType::Leader;
    let outcome = n.receive_vote_request(&vote(3));
    assert!(outcome.reply.vote_granted);
    assert!(!outcome.node_type_changed);
    assert_eq!(n.node_type, NodeType::Leader);
}

#[test]
fn follower_without_heartbeat_becomes_candidate() {
    let mut n = node(1);
    assert!(!n.after_follower_wait(NodeClientFollowerOutput::HeartbeatReceived));
    assert_eq!(n.node_type, NodeType::Follower);
    assert!(n.after_follower_wait(NodeClientFollowerOutput::DidNotReceiveHeartbeat));
    assert_eq!(n.node_type, NodeType::Candidate);
}

#[test]
fn candidate_votes_for_itself_and_refuses_rivals() {
    let mut n = node(2);
    n.term = 4;
    let term = n.start_election();
    assert_eq!(term, 5);
    assert_eq!(n.term, 5);
    assert_eq!(n.last_voted_for_term, Some(5));
    let rival = n.receive_vote_request(&vote(5));
    assert!(!rival.reply.vote_granted);
}

#[test]
fn votes_are_counted_with_own_vote() {
    assert_eq!(count_votes(&vec![]), 1);
    assert_eq!(count_votes(&vec![reply(true), None, reply(false), reply(true)]), 3);
}

#[test]
fn majority_of_cluster() {
    assert!(is_majority(1, 0));
    assert!(!is_majority(1, 1));
    assert!(is_majority(2, 1));
    assert!(is_majority(2, 2));
    assert!(!is_majority(2, 3));
    assert!(!is_majority(2, 4));
    assert!(is_majority(3, 4));
}

#[test]
fn candidate_with_majority_becomes_leader() {
    let mut n = node(2);
    n.node_type = NodeType::Candidate;
    let term = n.start_election();
    let outcome = n.conclude_election(term, &vec![reply(true), None]);
    assert_eq!(outcome.total_votes, 2);
    assert!(outcome.became_leader);
    assert!(outcome.node_type_changed);
    assert_eq!(n.node_type, NodeType::Leader);
}

#[test]
fn candidate_without_majority_stays() {
    let mut n = node(4);
    n.node_type = NodeType::Candidate;
    let term = n.start_election();
    let outcome = n.conclude_election(term, &vec![reply(true), reply(false), None, None]);
    assert_eq!(outcome.total_votes, 2);
    assert!(!outcome.became_leader);
    assert!(!outcome.node_type_changed);
    assert_eq!(n.node_type, NodeType::Candidate);
}

#[test]
fn single_node_wins_alone() {
    let mut n = node(0);
    n.node_type = NodeType::Candidate;
    let outcome = n.conclude_election(0, &vec![]);
    assert!(outcome.became_leader);
    assert_eq!(n.node_type, NodeType::Leader);
}

#[test]
fn leader_proposal_is_applied_and_logged() {
    let mut n = node(1);
    n.term = 3;
    n.node_type = NodeType::Leader;
    let sent = n.leader_entries_to_send(true);
    assert_eq!(sent.len(), 1);
    assert_eq!(sent[0].term, 3);
    assert_eq!(sent[0].index, 0);
    assert_eq!(sent[0].command, HashMapStateMachineEvent::Put(3, 3));
    assert_eq!(n.log_entries.len(), 1);
    assert_eq!(n.state_machine.get(&3), Some(&3));
    n.term = 4;
    let sent = n.leader_entries_to_send(true);
    assert_eq!(sent[0].index, 1);
    assert_eq!(n.log_entries[1].term, 4);
    assert_eq!(n.state_machine.len(), 2);
}

#[test]
fn leader_without_proposal_sends_nothing() {
    let mut n = node(1);
    let sent = n.leader_entries_to_send(false);
    assert!(sent.is_empty());
    assert!(n.log_entries.is_empty());
    assert!(n.state_machine.is_empty());
}

#[test]
fn leader_round_sends_at_most_what_it_logged() {
    let mut n = node(1);
    n.term = 2;
    for _ in 0..200 {
        let before = n.log_entries.len();
        let sent = n.leader_round();
        assert!(sent.len() <= 1);
        assert_eq!(n.log_entries.len(), before + sent.len());
        if let Some(e) = sent.first() {
            assert_eq!(e.index as usize, before);
            assert_eq!(e.command, HashMapStateMachineEvent::Put(2, 2));
        }
    }
}

#[test]
fn candidate_sleep_is_below_a_tenth_of_a_second() {
    for _ in 0..1000 {
        assert!(candidate_sleep_millis() < 100);
    }
}

#[test]
fn earlier_heartbeat_handler() {
    let mut n = node(1);
    n.term = 2;
    n.node_type = NodeType::Candidate;
    let (_, notify) = grpc::heartbeat(&mut n, &heartbeat(1));
    assert!(!notify);
    assert_eq!(n.node_type, NodeType::Candidate);
    let (_, notify) = grpc::heartbeat(&mut n, &heartbeat(2));
    assert!(notify);
    assert_eq!(n.node_type, NodeType::Candidate);
    let (_, notify) = grpc::heartbeat(&mut n, &heartbeat(3));
    assert!(notify);
    assert_eq!(n.node_type, NodeType::Follower);
    assert_eq!(n.term, 3);
}

#[test]
fn earlier_vote_handler_does_not_record_votes() {
    let mut n = node(1);
    let first = grpc::request_vote(&mut n, &vote(2));
    assert_eq!(first, RequestVoteReply { vote_granted: true, term: 2 });
    assert_eq!(n.last_voted_for_term, None);
    let second = grpc::request_vote(&mut n, &vote(2));
    assert!(second.vote_granted);
}

#[test]
fn two_majorities_outnumber_the_cluster() {
    // a cluster of five nodes: each of four peers and the candidate
    for a in 0..=5usize {
        for b in 0..=5usize {
            if is_majority(a, 4) && is_majority(b, 4) {
                assert!(a + b > 5);
            }
        }
    }
}

#[test]
fn one_vote_per_term_over_a_run() {
    let mut n = node(2);
    let mut granted_in_term_3 = 0;
    for step in 0..6u64 {
        if step % 2 == 0 {
            n.receive_heartbeat(&heartbeat(step / 2 + 1));
        }
        if n.receive_vote_request(&vote(3)).reply.vote_granted {
            granted_in_term_3 += 1;
        }
    }
    assert_eq!(granted_in_term_3, 1);
}

#[test]
fn candidate_turned_follower_mid_round_does_not_lead() {
    let mut n = node(2);
    n.node_type = NodeType::Candidate;
    let term = n.start_election();
    // a leader of a newer term is heard while the votes are being gathered
    n.receive_heartbeat(&heartbeat(term + 1));
    let outcome = n.conclude_election(term, &vec![reply(true), reply(true)]);
    assert_eq!(outcome.total_votes, 3);
    assert!(!outcome.became_leader);
    assert!(!outcome.node_type_changed);
    assert_eq!(n.node_type, NodeType::Follower);
    assert_eq!(n.term, term + 1);
}

#[test]
fn candidate_of_another_term_does_not_lead() {
    let mut n = node(2);
    n.node_type = NodeType::Candidate;
    let term = n.start_election();
    let outcome = n.conclude_election(term + 1, &vec![reply(true), reply(true)]);
    assert!(!outcome.became_leader);
    assert_eq!(n.node_type, NodeType::Candidate);
}

#[test]
fn only_a_follower_stands_after_a_silent_wait() {
    let mut n = node(1);
    n.node_type = NodeType::Leader;
    assert!(!n.after_follower_wait(NodeClientFollowerOutput::DidNotReceiveHeartbeat));
    assert_eq!(n.node_type, NodeType::Leader);
}
