//! Replicated state machines: the trait that the log is applied to, and its
//! implementation for a `HashMap` driven by put/delete events.

use std::collections::HashMap;
use std::hash::Hash;
use vstd::prelude::*;
use vstd::std_specs::hash::obeys_key_model;

verus! {

/// A deterministic state machine that log entries are applied to.
pub trait StateMachine: Sized {
    type State;
    type Event;

    /// The state that `get_state` exposes.
    spec fn current_state(&self) -> Self::State;

    /// Relates the machine before an event, the event, and the machine after it.
    spec fn applies(before: Self, event: Self::Event, after: Self) -> bool;

    fn get_state(&self) -> (state: &Self::State)
        ensures
            *state == self.current_state(),
    ;

    fn apply(&mut self, event: Self::Event)
        ensures
            Self::applies(*old(self), event, *final(self)),
    ;
}

/// An event of a key-value state machine.
#[derive(Debug, Clone, PartialEq, Eq)]
pub enum HashMapStateMachineEvent<K, V> {
    Put(K, V),
    Delete(K),
}

/// What an event does to the contents of a key-value store.
pub open spec fn apply_event_to_map<K, V>(m: Map<K, V>, event: HashMapStateMachineEvent<K, V>) -> Map<
    K,
    V,
> {
    match event {
        HashMapStateMachineEvent::Put(k, v) => m.insert(k, v),
        HashMapStateMachineEvent::Delete(k) => m.remove(k),
    }
}

impl<K, V> StateMachine for HashMap<K, V> where K: Hash + Eq {
    type State = HashMap<K, V>;

    type Event = HashMapStateMachineEvent<K, V>;

    open spec fn current_state(&self) -> HashMap<K, V> {
        *self
    }

    /// For key types whose hashing and equality behave as a mathematical map
    /// (all integer types do), the contents after the event are exactly those
    /// that `apply_event_to_map` gives.
    open spec fn applies(
        before: HashMap<K, V>,
        event: HashMapStateMachineEvent<K, V>,
        after: HashMap<K, V>,
    ) -> bool {
        obeys_key_model::<K>() ==> after@ == apply_event_to_map(before@, event)
    }

    fn get_state(&self) -> (state: &HashMap<K, V>) {
        self
    }

    fn apply(&mut self, event: HashMapStateMachineEvent<K, V>) {
        match event {
            HashMapStateMachineEvent::Put(k, v) => {
                self.insert(k, v);
            },
            HashMapStateMachineEvent::Delete(k) => {
                self.remove(&k);
            },
        }
    }
}

/// What a read gives back of a write: after a put, the state holds the
/// written value under its key and every other key as before.
pub proof fn lemma_put_then_read<K: Hash + Eq, V>(
    before: HashMap<K, V>,
    k: K,
    v: V,
    after: HashMap<K, V>,
    other: K,
)
    requires
        obeys_key_model::<K>(),
        <HashMap<K, V> as StateMachine>::applies(before, HashMapStateMachineEvent::Put(k, v), after),
        other != k,
    ensures
        after@.contains_key(k),
        after@[k] == v,
        after@.contains_key(other) == before@.contains_key(other),
        after@.contains_key(other) ==> after@[other] == before@[other],
{
}

/// A delete removes its key and leaves every other key as it was.
pub proof fn lemma_delete_removes<K: Hash + Eq, V>(
    before: HashMap<K, V>,
    k: K,
    after: HashMap<K, V>,
    other: K,
)
    requires
        obeys_key_model::<K>(),
        <HashMap<K, V> as StateMachine>::applies(before, HashMapStateMachineEvent::Delete(k), after),
        other != k,
    ensures
        !after@.contains_key(k),
        after@.contains_key(other) == before@.contains_key(other),
        after@.contains_key(other) ==> after@[other] == before@[other],
{
}

/// A put followed by a delete of the same key leaves the store as the
/// delete alone would have.
pub proof fn lemma_put_then_delete<K: Hash + Eq, V>(
    m0: HashMap<K, V>,
    k: K,
    v: V,
    m1: HashMap<K, V>,
    m2: HashMap<K, V>,
)
    requires
        obeys_key_model::<K>(),
        <HashMap<K, V> as StateMachine>::applies(m0, HashMapStateMachineEvent::Put(k, v), m1),
        <HashMap<K, V> as StateMachine>::applies(m1, HashMapStateMachineEvent::Delete(k), m2),
    ensures
        m2@ == m0@.remove(k),
{
    assert(m2@ =~= m0@.remove(k));
}

/// Applying the same event twice leaves the store as applying it once does.
pub proof fn lemma_apply_twice_is_once<K: Hash + Eq, V>(
    m0: HashMap<K, V>,
    event: HashMapStateMachineEvent<K, V>,
    m1: HashMap<K, V>,
    m2: HashMap<K, V>,
)
    requires
        obeys_key_model::<K>(),
        <HashMap<K, V> as StateMachine>::applies(m0, event, m1),
        <HashMap<K, V> as StateMachine>::applies(m1, event, m2),
    ensures
        m2@ == m1@,
{
    match event {
        HashMapStateMachineEvent::Put(k, v) => {
            assert(m2@ =~= m1@);
        },
        HashMapStateMachineEvent::Delete(k) => {
            assert(m2@ =~= m1@);
        },
    }
}

/// Deleting a key that a put just added, where the key was absent before,
/// gives back the store as it was.
pub proof fn lemma_delete_undoes_fresh_put<K: Hash + Eq, V>(
    m0: HashMap<K, V>,
    k: K,
    v: V,
    m1: HashMap<K, V>,
    m2: HashMap<K, V>,
)
    requires
        obeys_key_model::<K>(),
        !m0@.contains_key(k),
        <HashMap<K, V> as StateMachine>::applies(m0, HashMapStateMachineEvent::Put(k, v), m1),
        <HashMap<K, V> as StateMachine>::applies(m1, HashMapStateMachineEvent::Delete(k), m2),
    ensures
        m2@ == m0@,
{
    assert(m2@ =~= m0@);
}

} // verus!
