# raft_study

A small Raft node (leader election and heartbeats, with a first model of log
replication), whose decisions are verified with Verus.

- `src/` is the verified library:
  - `node.rs`: a node's election state (role, term, last vote), its log and
    state machine.
  - `server.rs`: how a node answers heartbeats and vote requests;
    `server/main_grpc.rs` holds the messages.
  - `client.rs`: what a follower, a candidate and a leader decide in each round,
    with the laws of elections (one vote per term, overlapping majorities, one
    leader per term).
  - `cluster.rs`: a cluster of nodes taking the library's steps, and the proof
    that over every run no two nodes lead in the same term.
  - `raft.rs`: a single-node model of AppendEntries and its log rules.
  - `state_machine.rs`: the state machine that log entries are applied to.
  - `grpc.rs`: an earlier version of the request handlers.
- `app/` is the program around it: command line, gRPC transport, the tokio
  tasks and channels, timers, and the JSON encoding of commands.
- `tests/` runs the library on concrete cases.

Run two nodes that know of each other:

```bash
RUST_LOG=info cargo run -- -p http://[::1]:50050 -a [::1]:50051
RUST_LOG=info cargo run -- -p http://[::1]:50051 -a [::1]:50050
```
