//! The messages that Raft nodes exchange.

use vstd::prelude::*;

verus! {

/// A log entry as it travels between nodes, its command encoded as JSON.
#[derive(Debug, PartialEq, Eq)]
pub struct Entry {
    pub term: u64,
    pub index: u64,
    pub command: String,
}

/// A leader's heartbeat, which may carry new entries.
#[derive(Debug, PartialEq, Eq)]
pub struct HeartbeatRequest {
    pub term: u64,
    pub entries: Vec<Entry>,
}

#[derive(Debug, Clone, Copy, PartialEq, Eq, Structural)]
pub struct HeartbeatReply {}

/// A candidate's request for a vote in its term.
#[derive(Debug, Clone, Copy, PartialEq, Eq, Structural)]
pub struct RequestVoteRequest {
    pub term: u64,
}

#[derive(Debug, Clone, Copy, PartialEq, Eq, Structural)]
pub struct RequestVoteReply {
    pub vote_granted: bool,
    pub term: u64,
}

} // verus!
