use raft_study::raft::{
    step, AppendEntriesRPCRequest, DataStore, LogEntry, LogEntryithIndex, Node, NodeType,
    SetCommand,
};

fn cmd(key: &str, value: &str) -> SetCommand {
    SetCommand { key: key.to_string(), value: value.to_string() }
}

fn entry(term: usize, key: &str) -> LogEntry {
    LogEntry { term, command: cmd(key, key) }
}

fn at(index: usize, term: usize, key: &str) -> LogEntryithIndex {
    LogEntryithIndex { index, entry: entry(term, key) }
}

fn node_with_log(term: usize, log: Vec<LogEntry>) -> Node<()> {
    let mut node = Node::new(());
    node.term = term;
    node.log = log;
    node
}

fn request(
    term: usize,
    prev_log_index: usize,
    prev_log_term: usize,
    entries: Vec<LogEntryithIndex>,
    leader_commit: usize,
) -> AppendEntriesRPCRequest {
    AppendEntriesRPCRequest {
        term,
        leader_id: "leader".to_string(),
        prev_log_index,
        prev_log_term,
        entries,
        leader_commit,
    }
}

fn terms(node: &Node<()>) -> Vec<usize> {
    node.log.iter().map(|e| e.term).collect()
}

fn keys(node: &Node<()>) -> Vec<String> {
    node.log.iter().map(|e| e.command.key.clone()).collect()
}

#[test]
fn step_inserts_and_overwrites() {
    let mut store = DataStore::new();
    step(&mut store, &cmd("a", "1"));
    step(&mut store, &cmd("b", "2"));
    step(&mut store, &cmd("a", "3"));
    assert_eq!(store.get("a"), Some(&"3".to_string()));
    assert_eq!(store.get("b"), Some(&"2".to_string()));
    assert_eq!(store.get("c"), None);
    assert_eq!(store.len(), 2);
}

#[test]
fn new_node_is_empty_follower() {
    let node = Node::new(());
    assert!(matches!(node.node_type, NodeType::Follower));
    assert_eq!(node.term, 0);
    assert!(node.voted_for.is_none());
    assert!(node.log.is_empty());
    assert_eq!(node.commit_index, 0);
    assert!(node.data_store.is_empty());
}

#[test]
fn request_from_older_term_is_refused() {
    let mut node = node_with_log(3, vec![entry(1, "x")]);
    let response = node.append_entries(request(2, 5, 0, vec![at(1, 2, "y")], 1));
    assert!(!response.success);
    assert_eq!(response.term, 3);
    assert_eq!(terms(&node), vec![1]);
    assert_eq!(node.commit_index, 0);
}

#[test]
fn request_with_mismatching_previous_term_is_refused() {
    let mut node = node_with_log(1, vec![entry(1, "x")]);
    let response = node.append_entries(request(2, 0, 2, vec![at(1, 2, "y")], 1));
    assert!(!response.success);
    assert_eq!(response.term, 1);
    assert_eq!(terms(&node), vec![1]);
}

#[test]
fn previous_index_past_the_log_is_not_checked() {
    let mut node = node_with_log(1, vec![entry(1, "x")]);
    let response = node.append_entries(request(1, 7, 9, vec![at(1, 1, "y")], 0));
    assert!(response.success);
    assert_eq!(terms(&node), vec![1, 1]);
    assert_eq!(node.term, 1);
}

#[test]
fn entries_are_appended_in_order() {
    let mut node = node_with_log(1, vec![entry(1, "a")]);
    let response =
        node.append_entries(request(1, 0, 1, vec![at(1, 1, "b"), at(2, 2, "c")], 2));
    assert!(response.success);
    assert_eq!(keys(&node), vec!["a", "b", "c"]);
    assert_eq!(terms(&node), vec![1, 1, 2]);
    assert_eq!(node.commit_index, 2);
}

#[test]
fn conflicting_entry_replaces_the_tail() {
    let mut node =
        node_with_log(2, vec![entry(1, "a"), entry(1, "b"), entry(1, "c"), entry(1, "d")]);
    let response = node.append_entries(request(2, 0, 1, vec![at(1, 1, "b2"), at(2, 2, "e")], 0));
    assert!(response.success);
    // the entry at 1 agrees by term and stays; the one at 2 conflicts and cuts the log
    assert_eq!(keys(&node), vec!["a", "b", "e"]);
    assert_eq!(terms(&node), vec![1, 1, 2]);
}

#[test]
fn agreeing_entries_keep_the_longer_log() {
    let mut node = node_with_log(1, vec![entry(1, "a"), entry(1, "b"), entry(1, "c")]);
    let response = node.append_entries(request(1, 0, 1, vec![at(1, 1, "z")], 0));
    assert!(response.success);
    assert_eq!(keys(&node), vec!["a", "b", "c"]);
}

#[test]
fn commit_index_is_capped_by_last_new_entry() {
    let mut node = node_with_log(1, vec![]);
    node.append_entries(request(1, 0, 0, vec![at(0, 1, "a"), at(1, 1, "b")], 10));
    assert_eq!(node.commit_index, 1);
    node.append_entries(request(1, 0, 1, vec![], 0));
    assert_eq!(node.commit_index, 1);
}

#[test]
fn commit_index_drops_to_zero_without_entries() {
    let mut node = node_with_log(1, vec![entry(1, "a"), entry(1, "b")]);
    node.commit_index = 1;
    node.append_entries(request(1, 0, 1, vec![], 5));
    assert_eq!(node.commit_index, 0);
}

#[test]
fn same_request_twice_changes_nothing_more() {
    let make = || request(3, 0, 1, vec![at(1, 3, "n1"), at(2, 3, "n2")], 2);
    let mut node = node_with_log(3, vec![entry(1, "a"), entry(2, "b"), entry(2, "c"), entry(2, "d")]);
    node.append_entries(make());
    let once_keys = keys(&node);
    let once_commit = node.commit_index;
    let response = node.append_entries(make());
    assert!(response.success);
    assert_eq!(keys(&node), once_keys);
    assert_eq!(node.commit_index, once_commit);
    assert_eq!(keys(&node), vec!["a", "n1", "n2"]);
}

#[test]
fn response_carries_node_term_and_term_is_kept() {
    let mut node = node_with_log(4, vec![]);
    let response = node.append_entries(request(9, 0, 0, vec![], 0));
    assert!(response.success);
    assert_eq!(response.term, 4);
    assert_eq!(node.term, 4);
}
