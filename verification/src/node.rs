//! The state of a Raft node that takes part in leader election.

use crate::log_entry::LogEntry;
use vstd::prelude::*;

verus! {

#[derive(Debug, Clone, Copy, PartialEq, Eq, Structural)]
pub enum NodeType {
    Follower,
    Candidate,
    Leader,
}

/// The value carried by heartbeat notifications: how many heartbeats arrived.
pub type HeartBeatEvent = u64;

/// What leader election reads and changes of a node.
pub struct ElectionState {
    pub node_type: NodeType,
    pub term: u64,
    pub last_voted_for_term: Option<u64>,
}

/// A Raft node: its role, its term, the last term it voted in, and the
/// replicated log together with the state machine the log is applied to.
#[derive(Debug)]
pub struct Node<SM, LET> {
    pub peers: Vec<String>,
    pub node_type: NodeType,
    pub term: u64,
    pub last_voted_for_term: Option<u64>,
    pub state_machine: SM,
    pub log_entries: Vec<LogEntry<LET>>,
}

/// The election state after the node takes on `node_type`.
pub open spec fn after_node_type_change(s: ElectionState, node_type: NodeType) -> ElectionState {
    ElectionState { node_type, ..s }
}

impl<SM, LET> Node<SM, LET> {
    pub open spec fn election_state(&self) -> ElectionState {
        ElectionState {
            node_type: self.node_type,
            term: self.term,
            last_voted_for_term: self.last_voted_for_term,
        }
    }

    /// A follower in term 0 that has not voted and holds an empty log.
    pub fn new(peers: Vec<String>, state_machine: SM) -> (node: Self)
        ensures
            node.peers == peers,
            node.node_type == NodeType::Follower,
            node.term == 0,
            node.last_voted_for_term is None,
            node.state_machine == state_machine,
            node.log_entries@.len() == 0,
    {
        Node {
            peers,
            node_type: NodeType::Follower,
            term: 0,
            last_voted_for_term: None,
            state_machine,
            log_entries: Vec::new(),
        }
    }

    /// Makes the node take on `node_type`. Returns whether the type changed,
    /// which is when the node's watchers are to be told of it.
    pub fn change_node_type(&mut self, node_type: NodeType) -> (changed: bool)
        ensures
            changed == (old(self).node_type != node_type),
            final(self).node_type == node_type,
            final(self).term == old(self).term,
            final(self).last_voted_for_term == old(self).last_voted_for_term,
            final(self).election_state() == after_node_type_change(
                old(self).election_state(),
                node_type,
            ),
            final(self).peers == old(self).peers,
            final(self).state_machine == old(self).state_machine,
            final(self).log_entries == old(self).log_entries,
    {
        if self.node_type != node_type {
            self.node_type = node_type;
            true
        } else {
            false
        }
    }
}

} // verus!
