//! A small Raft node: leader election, heartbeats and log replication
//! decisions, verified with Verus. Network transport, timers and task
//! plumbing live outside this library.

pub mod client;
pub mod cluster;
pub mod grpc;
pub mod log_entry;
pub mod node;
pub mod raft;
pub mod server;
pub mod state_machine;
