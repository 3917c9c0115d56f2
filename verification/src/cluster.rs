//! A cluster of nodes that run elections, told as a run of the steps the
//! library offers: each step changes a node's election state exactly as the
//! function that performs it states. Over every such run, at most one node
//! becomes leader in any term.

use crate::client::{
    after_conclusion, after_election_start, after_follower_timeout, lemma_majorities_overlap,
    still_candidate_in, wins_election, NodeClientFollowerOutput,
};
use crate::node::{ElectionState, NodeType};
use crate::server::{after_heartbeat, after_vote_request, vote_available, voted_at_least};
use vstd::prelude::*;

verus! {

/// A node's round of vote requests: whether it is under way, the term the
/// node stood in, and the nodes whose votes it counts (its own among them).
pub struct Round {
    pub open: bool,
    pub term: u64,
    pub voters: Set<int>,
}

/// The nodes of a cluster, their election states and rounds, every vote
/// granted so far as (voter, term, candidate), and every (leader, term)
/// that a round ended with.
pub struct Cluster {
    pub members: Set<int>,
    pub nodes: Map<int, ElectionState>,
    pub rounds: Map<int, Round>,
    pub granted: Set<(int, u64, int)>,
    pub leaders: Set<(int, u64)>,
}

/// One step of a node.
pub enum ClusterEvent {
    /// A follower heard no heartbeat (`after_follower_wait`).
    FollowerTimeout(int),
    /// A node stands for election and opens a round (`start_election`).
    StartElection(int),
    /// A candidate asks a peer for its vote in the candidate's current term;
    /// the peer answers (`receive_vote_request`), and a granted vote counts.
    AskVote(int, int),
    /// A node answers a heartbeat of some term (`receive_heartbeat`).
    Heartbeat(int, u64),
    /// A node ends its round (`conclude_election`).
    Conclude(int),
}

/// A cluster of new nodes (`Node::new`): followers in term 0 that have not voted.
pub open spec fn initial_cluster(members: Set<int>) -> Cluster {
    Cluster {
        members,
        nodes: Map::new(
            |n: int| members.contains(n),
            |n: int|
                ElectionState { node_type: NodeType::Follower, term: 0, last_voted_for_term: None },
        ),
        rounds: Map::new(
            |n: int| members.contains(n),
            |n: int| Round { open: false, term: 0, voters: Set::empty() },
        ),
        granted: Set::empty(),
        leaders: Set::empty(),
    }
}

/// The members that granted `candidate` their vote in `term`.
pub open spec fn voters_in(cl: Cluster, term: u64, candidate: int) -> Set<int> {
    cl.members.filter(|v: int| cl.granted.contains((v, term, candidate)))
}

/// When a step can happen: the nodes are members, and a node's own task
/// opens a round only when none is under way and ends only one that is; it
/// asks peers only during a round, and only a node that is not in a round
/// waits for heartbeats.
pub open spec fn enabled(cl: Cluster, e: ClusterEvent) -> bool {
    match e {
        ClusterEvent::FollowerTimeout(n) => cl.members.contains(n) && !cl.rounds[n].open,
        ClusterEvent::StartElection(c) => cl.members.contains(c) && !cl.rounds[c].open
            && cl.nodes[c].term < u64::MAX,
        ClusterEvent::AskVote(c, v) => cl.members.contains(c) && cl.members.contains(v) && c != v
            && cl.rounds[c].open,
        ClusterEvent::Heartbeat(n, t) => cl.members.contains(n),
        ClusterEvent::Conclude(c) => cl.members.contains(c) && cl.rounds[c].open,
    }
}

/// The cluster after one step.
pub open spec fn step(cl: Cluster, e: ClusterEvent) -> Cluster {
    match e {
        ClusterEvent::FollowerTimeout(n) => Cluster {
            nodes: cl.nodes.insert(
                n,
                after_follower_timeout(cl.nodes[n], NodeClientFollowerOutput::DidNotReceiveHeartbeat),
            ),
            ..cl
        },
        ClusterEvent::StartElection(c) => {
            let s2 = after_election_start(cl.nodes[c]);
            Cluster {
                nodes: cl.nodes.insert(c, s2),
                rounds: cl.rounds.insert(c, Round { open: true, term: s2.term, voters: set![c] }),
                granted: cl.granted.insert((c, s2.term, c)),
                ..cl
            }
        },
        ClusterEvent::AskVote(c, v) => {
            let rt = cl.nodes[c].term;
            let grant = vote_available(cl.nodes[v].last_voted_for_term, rt);
            let r = cl.rounds[c];
            Cluster {
                nodes: cl.nodes.insert(v, after_vote_request(cl.nodes[v], rt)),
                rounds: if grant {
                    cl.rounds.insert(c, Round { voters: r.voters.insert(v), ..r })
                } else {
                    cl.rounds
                },
                granted: if grant {
                    cl.granted.insert((v, rt, c))
                } else {
                    cl.granted
                },
                ..cl
            }
        },
        ClusterEvent::Heartbeat(n, t) => Cluster {
            nodes: cl.nodes.insert(n, after_heartbeat(cl.nodes[n], t)),
            ..cl
        },
        ClusterEvent::Conclude(c) => {
            let r = cl.rounds[c];
            let s = cl.nodes[c];
            let wins = wins_election(r.voters.len() as int, cl.members.len() - 1);
            Cluster {
                nodes: cl.nodes.insert(c, after_conclusion(s, r.term, wins)),
                rounds: cl.rounds.insert(c, Round { open: false, ..r }),
                leaders: if still_candidate_in(s, r.term) && wins {
                    cl.leaders.insert((c, r.term))
                } else {
                    cl.leaders
                },
                ..cl
            }
        },
    }
}

/// The cluster after the steps, one after the other.
pub open spec fn after_run(cl: Cluster, events: Seq<ClusterEvent>) -> Cluster
    decreases events.len(),
{
    if events.len() == 0 {
        cl
    } else {
        step(after_run(cl, events.drop_last()), events.last())
    }
}

/// Every step of the run can happen where it comes.
pub open spec fn run_enabled(cl: Cluster, events: Seq<ClusterEvent>) -> bool
    decreases events.len(),
{
    if events.len() == 0 {
        true
    } else {
        run_enabled(cl, events.drop_last()) && enabled(after_run(cl, events.drop_last()), events.last())
    }
}

spec fn inv_shape(cl: Cluster) -> bool {
    &&& cl.members.finite()
    &&& cl.nodes.dom() == cl.members
    &&& cl.rounds.dom() == cl.members
    &&& forall|c: int| #[trigger] cl.members.contains(c) ==> cl.rounds[c].voters.subset_of(cl.members)
}

spec fn inv_vote_within_term(cl: Cluster) -> bool {
    forall|n: int| #[trigger]
        cl.members.contains(n) ==> (cl.nodes[n].last_voted_for_term matches Some(x) ==> x
            <= cl.nodes[n].term)
}

spec fn inv_grants_recorded(cl: Cluster) -> bool {
    forall|v: int, t: u64, c: int| #[trigger]
        cl.granted.contains((v, t, c)) ==> cl.members.contains(v) && voted_at_least(
            cl.nodes[v].last_voted_for_term,
            t,
        )
}

spec fn inv_one_grant(cl: Cluster) -> bool {
    forall|v: int, t: u64, a: int, b: int|
        #![trigger cl.granted.contains((v, t, a)), cl.granted.contains((v, t, b))]
        cl.granted.contains((v, t, a)) && cl.granted.contains((v, t, b)) ==> a == b
}

spec fn inv_round_votes(cl: Cluster) -> bool {
    forall|c: int, v: int|
        #![trigger cl.rounds[c].voters.contains(v)]
        cl.members.contains(c) && cl.rounds[c].open && still_candidate_in(
            cl.nodes[c],
            cl.rounds[c].term,
        ) && cl.rounds[c].voters.contains(v) ==> cl.granted.contains((v, cl.rounds[c].term, c))
}

spec fn inv_leaders(cl: Cluster) -> bool {
    forall|c: int, t: u64| #[trigger]
        cl.leaders.contains((c, t)) ==> cl.members.contains(c) && wins_election(
            voters_in(cl, t, c).len() as int,
            cl.members.len() - 1,
        )
}

spec fn inv(cl: Cluster) -> bool {
    &&& inv_shape(cl)
    &&& inv_vote_within_term(cl)
    &&& inv_grants_recorded(cl)
    &&& inv_one_grant(cl)
    &&& inv_round_votes(cl)
    &&& inv_leaders(cl)
}

proof fn lemma_initial_inv(members: Set<int>)
    requires
        members.finite(),
    ensures
        inv(initial_cluster(members)),
{
    let cl = initial_cluster(members);
    assert(cl.nodes.dom() =~= members);
    assert(cl.rounds.dom() =~= members);
}

/// A vote record that reaches `t` keeps reaching it through every step.
proof fn lemma_voted_at_least_kept(cl: Cluster, e: ClusterEvent, n: int, t: u64)
    requires
        inv(cl),
        enabled(cl, e),
        cl.members.contains(n),
        voted_at_least(cl.nodes[n].last_voted_for_term, t),
    ensures
        voted_at_least(step(cl, e).nodes[n].last_voted_for_term, t),
{
}

/// Voter sets only grow when votes are only added.
proof fn lemma_voters_grow(cl: Cluster, cl2: Cluster, t: u64, c: int)
    requires
        cl.members.finite(),
        cl2.members == cl.members,
        cl.granted.subset_of(cl2.granted),
    ensures
        voters_in(cl, t, c).len() <= voters_in(cl2, t, c).len(),
{
    vstd::set_lib::lemma_len_subset(voters_in(cl2, t, c), cl.members);
    vstd::set_lib::lemma_len_subset(voters_in(cl, t, c), voters_in(cl2, t, c));
}

proof fn lemma_step_inv(cl: Cluster, e: ClusterEvent)
    requires
        inv(cl),
        enabled(cl, e),
    ensures
        inv(step(cl, e)),
{
    let cl2 = step(cl, e);
    assert(cl2.members == cl.members);
    assert(cl2.nodes.dom() =~= cl.members);
    assert(cl2.rounds.dom() =~= cl.members);
    assert(cl.granted.subset_of(cl2.granted));
    // every node's vote record keeps what it reached
    assert forall|v: int, t: u64, c: int| #[trigger] cl2.granted.contains((v, t, c)) implies cl2.members.contains(v)
        && voted_at_least(cl2.nodes[v].last_voted_for_term, t) by {
        if cl.granted.contains((v, t, c)) {
            lemma_voted_at_least_kept(cl, e, v, t);
        }
    }
    // no voter grants two candidates in one term
    assert forall|v: int, t: u64, a: int, b: int|
        #![trigger cl2.granted.contains((v, t, a)), cl2.granted.contains((v, t, b))]
        cl2.granted.contains((v, t, a)) && cl2.granted.contains((v, t, b)) implies a == b by {
        if !cl.granted.contains((v, t, a)) || !cl.granted.contains((v, t, b)) {
            match e {
                ClusterEvent::StartElection(c) => {
                    assert(cl.members.contains(c));
                    if cl.granted.contains((v, t, a)) {
                        assert(voted_at_least(cl.nodes[c].last_voted_for_term, t));
                    }
                    if cl.granted.contains((v, t, b)) {
                        assert(voted_at_least(cl.nodes[c].last_voted_for_term, t));
                    }
                },
                ClusterEvent::AskVote(c, w) => {
                    if cl.granted.contains((v, t, a)) {
                        assert(voted_at_least(cl.nodes[w].last_voted_for_term, t));
                    }
                    if cl.granted.contains((v, t, b)) {
                        assert(voted_at_least(cl.nodes[w].last_voted_for_term, t));
                    }
                },
                _ => {},
            }
        }
    }
    // a round that still stands counts only votes granted to it in its term
    assert forall|c: int, v: int|
        #![trigger cl2.rounds[c].voters.contains(v)]
        cl2.members.contains(c) && cl2.rounds[c].open && still_candidate_in(
            cl2.nodes[c],
            cl2.rounds[c].term,
        ) && cl2.rounds[c].voters.contains(v) implies cl2.granted.contains(
        (v, cl2.rounds[c].term, c),
    ) by {
        match e {
            ClusterEvent::StartElection(c0) => {
                if c != c0 {
                    assert(cl.rounds[c].voters.contains(v));
                }
            },
            ClusterEvent::AskVote(c0, w) => {
                if c == c0 {
                    if v != w {
                        assert(cl.rounds[c].voters.contains(v));
                    }
                } else {
                    if cl.rounds[c] == cl2.rounds[c] {
                        assert(cl.rounds[c].voters.contains(v));
                    }
                }
            },
            _ => {
                assert(cl.rounds[c].voters.contains(v));
            },
        }
    }
    // every leader won a majority of votes granted to it in its term
    assert forall|c: int, t: u64| #[trigger] cl2.leaders.contains((c, t)) implies cl2.members.contains(c)
        && wins_election(voters_in(cl2, t, c).len() as int, cl2.members.len() - 1) by {
        lemma_voters_grow(cl, cl2, t, c);
        if !cl.leaders.contains((c, t)) {
            if let ClusterEvent::Conclude(c0) = e {
                let r = cl.rounds[c0];
                assert(c == c0 && t == r.term);
                assert(r.voters.subset_of(voters_in(cl, t, c))) by {
                    assert forall|v: int| r.voters.contains(v) implies voters_in(cl, t, c).contains(v) by {
                        assert(cl.rounds[c].voters.contains(v));
                    }
                }
                vstd::set_lib::lemma_len_subset(voters_in(cl, t, c), cl.members);
                vstd::set_lib::lemma_len_subset(r.voters, voters_in(cl, t, c));
            }
        }
    }
}

proof fn lemma_run_inv(members: Set<int>, events: Seq<ClusterEvent>)
    requires
        members.finite(),
        run_enabled(initial_cluster(members), events),
    ensures
        inv(after_run(initial_cluster(members), events)),
    decreases events.len(),
{
    if events.len() == 0 {
        lemma_initial_inv(members);
    } else {
        lemma_run_inv(members, events.drop_last());
        lemma_step_inv(after_run(initial_cluster(members), events.drop_last()), events.last());
    }
}

/// Election safety: over every run of the cluster's steps from new nodes, no
/// two nodes become leader in the same term.
pub proof fn lemma_one_leader_per_term_over_any_run(
    members: Set<int>,
    events: Seq<ClusterEvent>,
    a: int,
    b: int,
    term: u64,
)
    requires
        members.finite(),
        run_enabled(initial_cluster(members), events),
        after_run(initial_cluster(members), events).leaders.contains((a, term)),
        after_run(initial_cluster(members), events).leaders.contains((b, term)),
    ensures
        a == b,
{
    lemma_run_inv(members, events);
    let cl = after_run(initial_cluster(members), events);
    let va = voters_in(cl, term, a);
    let vb = voters_in(cl, term, b);
    vstd::set_lib::lemma_len_subset(va, cl.members);
    vstd::set_lib::lemma_len_subset(vb, cl.members);
    assert(cl.members.len() >= 1) by {
        if cl.members.len() == 0 {
            vstd::set_lib::lemma_set_empty_equivalency_len(cl.members);
            assert(cl.members.contains(a));
        }
    }
    lemma_majorities_overlap(va.len() as int, vb.len() as int, cl.members.len() - 1);
    assert((va + vb).subset_of(cl.members));
    vstd::set_lib::lemma_len_subset(va + vb, cl.members);
    vstd::set_lib::lemma_set_intersect_union_lens(va, vb);
    assert(va.intersect(vb).len() > 0);
    let v = va.intersect(vb).choose();
    assert(va.intersect(vb).contains(v));
    assert(cl.granted.contains((v, term, a)) && cl.granted.contains((v, term, b)));
}

} // verus!
