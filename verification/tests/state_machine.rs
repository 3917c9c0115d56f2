use raft_study::state_machine::{HashMapStateMachineEvent, StateMachine};
use std::collections::HashMap;

#[test]
fn put_then_read() {
    let mut m: HashMap<u64, u64> = HashMap::new();
    m.apply(HashMapStateMachineEvent::Put(1, 10));
    m.apply(HashMapStateMachineEvent::Put(2, 20));
    m.apply(HashMapStateMachineEvent::Put(1, 11));
    let state = m.get_state();
    assert_eq!(state.get(&1), Some(&11));
    assert_eq!(state.get(&2), Some(&20));
    assert_eq!(state.len(), 2);
}

#[test]
fn delete_removes_only_its_key() {
    let mut m: HashMap<u64, u64> = HashMap::new();
    m.apply(HashMapStateMachineEvent::Put(1, 10));
    m.apply(HashMapStateMachineEvent::Put(2, 20));
    m.apply(HashMapStateMachineEvent::Delete(1));
    m.apply(HashMapStateMachineEvent::Delete(7));
    assert_eq!(m.get_state().get(&1), None);
    assert_eq!(m.get_state().get(&2), Some(&20));
}

#[test]
fn put_then_delete_is_delete() {
    let mut a: HashMap<u64, u64> = HashMap::new();
    a.apply(HashMapStateMachineEvent::Put(3, 4));
    a.apply(HashMapStateMachineEvent::Put(5, 6));
    a.apply(HashMapStateMachineEvent::Delete(5));
    let mut b: HashMap<u64, u64> = HashMap::new();
    b.apply(HashMapStateMachineEvent::Put(3, 4));
    b.apply(HashMapStateMachineEvent::Delete(5));
    assert_eq!(a, b);
}

#[test]
fn same_event_twice_is_once() {
    let mut a: HashMap<u64, u64> = HashMap::new();
    a.apply(HashMapStateMachineEvent::Put(1, 2));
    let once = a.clone();
    a.apply(HashMapStateMachineEvent::Put(1, 2));
    assert_eq!(a, once);
    a.apply(HashMapStateMachineEvent::Delete(1));
    let once = a.clone();
    a.apply(HashMapStateMachineEvent::Delete(1));
    assert_eq!(a, once);
}

#[test]
fn delete_undoes_a_fresh_put() {
    let mut m: HashMap<u64, u64> = HashMap::new();
    m.apply(HashMapStateMachineEvent::Put(7, 8));
    let before = m.clone();
    m.apply(HashMapStateMachineEvent::Put(9, 10));
    m.apply(HashMapStateMachineEvent::Delete(9));
    assert_eq!(m, before);
}
