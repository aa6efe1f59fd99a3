//! The whole-number part of the pheromone routing table: which neighbours are
//! known, how often relaying through each one delivered or failed, and each
//! neighbour's state. The latency and success estimates that weigh the choice
//! among the candidates are floating point; the table's user keeps them
//! beside it, under the same peer ids.
use vstd::prelude::*;

verus! {

#[derive(Clone, Copy, Debug, PartialEq, Eq, Structural)]
pub enum NeighborState {
    Healthy,
    Degraded,
    Unreachable,
    Blacklisted,
}

/// What the table keeps of one neighbour.
pub struct NeighborRecord {
    pub peer_id: String,
    pub success_count: u64,
    pub failure_count: u64,
    pub state: NeighborState,
}

/// Position of the record of `peer`, if any.
pub open spec fn find_peer(ns: Seq<NeighborRecord>, peer: Seq<char>) -> Option<int> {
    if exists|i: int| 0 <= i < ns.len() && #[trigger] ns[i].peer_id@ == peer {
        Some(choose|i: int| 0 <= i < ns.len() && #[trigger] ns[i].peer_id@ == peer)
    } else {
        None
    }
}

/// No peer has two records.
pub open spec fn unique_peers(ns: Seq<NeighborRecord>) -> bool {
    forall|i: int, j: int| 0 <= i < j < ns.len() ==> #[trigger] ns[i].peer_id@ != #[trigger] ns[j].peer_id@
}

/// `peer` is one of the ids in `exclude`.
pub open spec fn excluded(exclude: Seq<String>, peer: Seq<char>) -> bool {
    exists|j: int| 0 <= j < exclude.len() && #[trigger] exclude[j]@ == peer
}

/// A neighbour may relay unless it is blacklisted or excluded.
pub open spec fn is_candidate(r: NeighborRecord, exclude: Seq<String>) -> bool {
    r.state != NeighborState::Blacklisted && !excluded(exclude, r.peer_id@)
}

/// The ids of the neighbours that may relay, in table order.
pub open spec fn candidate_ids(ns: Seq<NeighborRecord>, exclude: Seq<String>) -> Seq<Seq<char>> {
    ns.filter(|r: NeighborRecord| is_candidate(r, exclude)).map_values(|r: NeighborRecord| r.peer_id@)
}

/// The records after `peer` is added: a known peer becomes healthy again
/// and keeps its counts, a new one is appended, healthy, with no counts.
pub open spec fn with_neighbor(ns: Seq<NeighborRecord>, peer: String) -> Seq<NeighborRecord> {
    match find_peer(ns, peer@) {
        Some(k) => ns.update(k, NeighborRecord { state: NeighborState::Healthy, ..ns[k] }),
        None => ns.push(NeighborRecord { peer_id: peer, success_count: 0, failure_count: 0, state: NeighborState::Healthy }),
    }
}

/// The records after a delivery through `peer`: one more success, and the
/// neighbour is healthy. An unknown peer changes nothing.
pub open spec fn after_success(ns: Seq<NeighborRecord>, peer: Seq<char>) -> Seq<NeighborRecord> {
    match find_peer(ns, peer) {
        Some(k) => ns.update(k, NeighborRecord {
            success_count: (ns[k].success_count + 1) as u64,
            state: NeighborState::Healthy,
            ..ns[k]
        }),
        None => ns,
    }
}

/// The records after a failed relay through `peer`: one more failure, and
/// the neighbour is blacklisted once its failures reach `threshold`.
/// An unknown peer changes nothing.
pub open spec fn after_failure(ns: Seq<NeighborRecord>, peer: Seq<char>, threshold: u32) -> Seq<NeighborRecord> {
    match find_peer(ns, peer) {
        Some(k) => ns.update(k, NeighborRecord {
            failure_count: (ns[k].failure_count + 1) as u64,
            state: if ns[k].failure_count + 1 >= threshold { NeighborState::Blacklisted } else { ns[k].state },
            ..ns[k]
        }),
        None => ns,
    }
}

/// Whether `peer` appears in `exclude`.
fn is_excluded(exclude: &[String], peer: &String) -> (b: bool)
    ensures
        b == excluded(exclude@, peer@),
{
    let mut j: usize = 0;
    while j < exclude.len()
        invariant
            j <= exclude@.len(),
            forall|i: int| 0 <= i < j ==> #[trigger] exclude@[i]@ != peer@,
        decreases exclude@.len() - j,
    {
        if exclude[j] == *peer {
            assert(exclude@[j as int]@ == peer@);
            return true;
        }
        j = j + 1;
    }
    false
}

pub struct NeighborTable {
    pub neighbors: Vec<NeighborRecord>,
    pub min_neighbors: usize,
    pub max_neighbors: usize,
    pub blacklist_threshold: u32,
}

impl NeighborTable {
    /// Every peer has one record at most.
    pub open spec fn wf(&self) -> bool {
        unique_peers(self.neighbors@)
    }

    /// The table's settings are those of `other`.
    pub open spec fn same_settings(&self, other: &NeighborTable) -> bool {
        &&& self.min_neighbors == other.min_neighbors
        &&& self.max_neighbors == other.max_neighbors
        &&& self.blacklist_threshold == other.blacklist_threshold
    }

    /// An empty table for 20 to 200 neighbours that blacklists a neighbour
    /// after five failures.
    pub fn new() -> (t: Self)
        ensures
            t.wf(),
            t.neighbors@.len() == 0,
            t.min_neighbors == 20,
            t.max_neighbors == 200,
            t.blacklist_threshold == 5,
    {
        NeighborTable { neighbors: Vec::new(), min_neighbors: 20, max_neighbors: 200, blacklist_threshold: 5 }
    }

    fn position(&self, peer: &String) -> (pos: Option<usize>)
        requires
            self.wf(),
        ensures
            match pos {
                Some(i) => find_peer(self.neighbors@, peer@) == Some(i as int) && i < self.neighbors@.len(),
                None => find_peer(self.neighbors@, peer@) is None,
            },
    {
        let mut i: usize = 0;
        while i < self.neighbors.len()
            invariant
                self.wf(),
                i <= self.neighbors@.len(),
                forall|k: int| 0 <= k < i ==> #[trigger] self.neighbors@[k].peer_id@ != peer@,
            decreases self.neighbors@.len() - i,
        {
            if self.neighbors[i].peer_id == *peer {
                proof {
                    let j = choose|j: int| 0 <= j < self.neighbors@.len() && #[trigger] self.neighbors@[j].peer_id@ == peer@;
                    if j != i {
                        if j < i {
                            assert(self.neighbors@[j].peer_id@ != peer@);
                        } else {
                            assert(self.neighbors@[i as int].peer_id@ != self.neighbors@[j].peer_id@);
                        }
                    }
                }
                return Some(i);
            }
            i = i + 1;
        }
        None
    }

    /// Whether the table holds as many neighbours as it may.
    pub fn is_full(&self) -> (b: bool)
        ensures
            b == (self.neighbors@.len() >= self.max_neighbors),
    {
        self.neighbors.len() >= self.max_neighbors
    }

    /// The counts and state of `peer_id`, if it is known.
    pub fn get(&self, peer_id: &str) -> (r: Option<(u64, u64, NeighborState)>)
        requires
            self.wf(),
        ensures
            match find_peer(self.neighbors@, peer_id@) {
                Some(k) => r == Some((self.neighbors@[k].success_count, self.neighbors@[k].failure_count,
                    self.neighbors@[k].state)),
                None => r is None,
            },
    {
        let key = peer_id.to_owned();
        match self.position(&key) {
            Some(k) => {
                let n = &self.neighbors[k];
                Some((n.success_count, n.failure_count, n.state))
            },
            None => None,
        }
    }

    /// Sets the counts and the state of the record at `k`, keeping its id
    /// and every other record.
    fn set_at(&mut self, k: usize, success_count: u64, failure_count: u64, state: NeighborState)
        requires
            old(self).wf(),
            k < old(self).neighbors@.len(),
        ensures
            final(self).wf(),
            final(self).same_settings(old(self)),
            final(self).neighbors@ == old(self).neighbors@.update(k as int, NeighborRecord {
                success_count,
                failure_count,
                state,
                ..old(self).neighbors@[k as int]
            }),
    {
        let ghost before = self.neighbors@;
        let mut r = self.neighbors.remove(k);
        r.success_count = success_count;
        r.failure_count = failure_count;
        r.state = state;
        self.neighbors.insert(k, r);
        proof {
            assert(self.neighbors@ =~= before.update(k as int, r));
            assert forall|i: int, j: int| 0 <= i < j < self.neighbors@.len() implies
                #[trigger] self.neighbors@[i].peer_id@ != #[trigger] self.neighbors@[j].peer_id@ by {
                assert(self.neighbors@[i].peer_id@ == before[i].peer_id@);
                assert(self.neighbors@[j].peer_id@ == before[j].peer_id@);
            }
        }
    }

    /// Adds `peer_id` as a healthy neighbour; a known one keeps its counts.
    /// Gives whether the peer was new. Making room in a full table is the
    /// caller's choice, since it goes by the floating-point scores.
    pub fn add_neighbor(&mut self, peer_id: String) -> (added: bool)
        requires
            old(self).wf(),
        ensures
            final(self).wf(),
            final(self).same_settings(old(self)),
            added == (find_peer(old(self).neighbors@, peer_id@) is None),
            final(self).neighbors@ == with_neighbor(old(self).neighbors@, peer_id),
    {
        match self.position(&peer_id) {
            Some(k) => {
                let successes = self.neighbors[k].success_count;
                let failures = self.neighbors[k].failure_count;
                self.set_at(k, successes, failures, NeighborState::Healthy);
                false
            },
            None => {
                let ghost before = self.neighbors@;
                let r = NeighborRecord { peer_id, success_count: 0, failure_count: 0, state: NeighborState::Healthy };
                let ghost new_id = r.peer_id@;
                self.neighbors.push(r);
                proof {
                    assert forall|i: int, j: int| 0 <= i < j < self.neighbors@.len() implies
                        #[trigger] self.neighbors@[i].peer_id@ != #[trigger] self.neighbors@[j].peer_id@ by {
                        if j == before.len() {
                            assert(self.neighbors@[i] == before[i]);
                            assert(before[i].peer_id@ != new_id);
                        } else {
                            assert(self.neighbors@[i] == before[i]);
                            assert(self.neighbors@[j] == before[j]);
                        }
                    }
                }
                true
            },
        }
    }

    /// Removes `peer_id` from the table; gives whether it was there.
    pub fn remove(&mut self, peer_id: &str) -> (removed: bool)
        requires
            old(self).wf(),
        ensures
            final(self).wf(),
            final(self).same_settings(old(self)),
            match find_peer(old(self).neighbors@, peer_id@) {
                Some(k) => removed && final(self).neighbors@ == old(self).neighbors@.remove(k),
                None => !removed && final(self).neighbors@ == old(self).neighbors@,
            },
    {
        let key = peer_id.to_owned();
        match self.position(&key) {
            Some(k) => {
                let ghost before = self.neighbors@;
                self.neighbors.remove(k);
                proof {
                    assert forall|i: int, j: int| 0 <= i < j < self.neighbors@.len() implies
                        #[trigger] self.neighbors@[i].peer_id@ != #[trigger] self.neighbors@[j].peer_id@ by {
                        let bi = if i < k { i } else { i + 1 };
                        let bj = if j < k { j } else { j + 1 };
                        assert(self.neighbors@[i] == before[bi]);
                        assert(self.neighbors@[j] == before[bj]);
                    }
                }
                true
            },
            None => false,
        }
    }

    /// The ids of the neighbours that may relay now: neither blacklisted
    /// nor in `exclude`, in table order.
    pub fn candidates(&self, exclude: &[String]) -> (ids: Vec<String>)
        ensures
            ids@.map_values(|s: String| s@) == candidate_ids(self.neighbors@, exclude@),
    {
        let ghost pred = |r: NeighborRecord| is_candidate(r, exclude@);
        let mut ids: Vec<String> = Vec::new();
        let mut i: usize = 0;
        while i < self.neighbors.len()
            invariant
                i <= self.neighbors@.len(),
                pred == (|r: NeighborRecord| is_candidate(r, exclude@)),
                ids@.map_values(|s: String| s@) == self.neighbors@.subrange(0, i as int).filter(pred)
                    .map_values(|r: NeighborRecord| r.peer_id@),
            decreases self.neighbors@.len() - i,
        {
            let ghost before = ids@;
            reveal_with_fuel(Seq::<_>::filter, 1);
            assert(self.neighbors@.subrange(0, i + 1).drop_last() =~= self.neighbors@.subrange(0, i as int));
            let n = &self.neighbors[i];
            let blocked = is_excluded(exclude, &n.peer_id);
            if n.state != NeighborState::Blacklisted && !blocked {
                ids.push(n.peer_id.clone());
                assert(ids@.map_values(|s: String| s@) =~= before.map_values(|s: String| s@)
                    .push(self.neighbors@[i as int].peer_id@));
            }
            i = i + 1;
            assert(ids@.map_values(|s: String| s@) =~= self.neighbors@.subrange(0, i as int).filter(pred)
                .map_values(|r: NeighborRecord| r.peer_id@));
        }
        assert(self.neighbors@.subrange(0, self.neighbors@.len() as int) =~= self.neighbors@);
        ids
    }

    /// Records a delivery through `relay`: one more success, and the
    /// neighbour is healthy again. Gives whether the relay is known; an
    /// unknown relay changes nothing.
    pub fn record_success(&mut self, relay: &str) -> (known: bool)
        requires
            old(self).wf(),
            find_peer(old(self).neighbors@, relay@) matches Some(k)
                ==> old(self).neighbors@[k].success_count < u64::MAX,
        ensures
            final(self).wf(),
            final(self).same_settings(old(self)),
            known == (find_peer(old(self).neighbors@, relay@) is Some),
            final(self).neighbors@ == after_success(old(self).neighbors@, relay@),
    {
        let key = relay.to_owned();
        match self.position(&key) {
            Some(k) => {
                let successes = self.neighbors[k].success_count + 1;
                let failures = self.neighbors[k].failure_count;
                self.set_at(k, successes, failures, NeighborState::Healthy);
                true
            },
            None => false,
        }
    }

    /// Records a failed relay through `relay`: one more failure, and the
    /// neighbour is blacklisted once its failures reach the threshold.
    /// Gives whether the relay is known; an unknown relay changes nothing.
    pub fn record_failure(&mut self, relay: &str) -> (known: bool)
        requires
            old(self).wf(),
            find_peer(old(self).neighbors@, relay@) matches Some(k)
                ==> old(self).neighbors@[k].failure_count < u64::MAX,
        ensures
            final(self).wf(),
            final(self).same_settings(old(self)),
            known == (find_peer(old(self).neighbors@, relay@) is Some),
            final(self).neighbors@ == after_failure(old(self).neighbors@, relay@, old(self).blacklist_threshold),
    {
        let key = relay.to_owned();
        match self.position(&key) {
            Some(k) => {
                let failures = self.neighbors[k].failure_count + 1;
                let state = if failures >= self.blacklist_threshold as u64 {
                    NeighborState::Blacklisted
                } else {
                    self.neighbors[k].state
                };
                let successes = self.neighbors[k].success_count;
                self.set_at(k, successes, failures, state);
                true
            },
            None => false,
        }
    }
}

proof fn lemma_candidate_listed(ns: Seq<NeighborRecord>, k: int, exclude: Seq<String>)
    requires
        0 <= k < ns.len(),
        is_candidate(ns[k], exclude),
    ensures
        candidate_ids(ns, exclude).contains(ns[k].peer_id@),
{
    let pred = |r: NeighborRecord| is_candidate(r, exclude);
    ns.lemma_filter_contains(pred, k);
    let f = ns.filter(pred);
    let j = choose|j: int| 0 <= j < f.len() && f[j] == ns[k];
    assert(candidate_ids(ns, exclude)[j] == ns[k].peer_id@);
}

proof fn lemma_non_candidate_unlisted(ns: Seq<NeighborRecord>, k: int, exclude: Seq<String>)
    requires
        unique_peers(ns),
        0 <= k < ns.len(),
        !is_candidate(ns[k], exclude),
    ensures
        !candidate_ids(ns, exclude).contains(ns[k].peer_id@),
{
    let pred = |r: NeighborRecord| is_candidate(r, exclude);
    let f = ns.filter(pred);
    let ids = candidate_ids(ns, exclude);
    if ids.contains(ns[k].peer_id@) {
        let j = choose|j: int| 0 <= j < ids.len() && ids[j] == ns[k].peer_id@;
        ns.lemma_filter_pred(pred, j);
        assert(f.contains(f[j]));
        ns.lemma_filter_contains_rev(pred, f[j]);
        let m = choose|m: int| 0 <= m < ns.len() && ns[m] == f[j];
        assert(ns[m].peer_id@ == ns[k].peer_id@);
        if m < k {
            assert(ns[m].peer_id@ != ns[k].peer_id@);
        } else if m > k {
            assert(ns[k].peer_id@ != ns[m].peer_id@);
        }
    }
}

/// A neighbour that is added becomes a relay candidate for every request
/// that does not exclude it, even one that was blacklisted before.
pub proof fn law_added_neighbor_is_candidate(ns: Seq<NeighborRecord>, peer: String, exclude: Seq<String>)
    requires
        unique_peers(ns),
        !excluded(exclude, peer@),
    ensures
        candidate_ids(with_neighbor(ns, peer), exclude).contains(peer@),
{
    let after = with_neighbor(ns, peer);
    match find_peer(ns, peer@) {
        Some(k) => {
            lemma_candidate_listed(after, k, exclude);
        },
        None => {
            lemma_candidate_listed(after, ns.len() as int, exclude);
        },
    }
}

/// A neighbour whose failures reach the blacklist threshold is offered as a
/// relay to no request any more.
pub proof fn law_failing_neighbor_not_candidate(ns: Seq<NeighborRecord>, peer: Seq<char>, threshold: u32, exclude: Seq<String>)
    requires
        unique_peers(ns),
        find_peer(ns, peer) matches Some(k) && ns[k].failure_count + 1 >= threshold,
    ensures
        !candidate_ids(after_failure(ns, peer, threshold), exclude).contains(peer),
{
    let k = find_peer(ns, peer).unwrap();
    let after = after_failure(ns, peer, threshold);
    assert forall|i: int, j: int| 0 <= i < j < after.len() implies
        #[trigger] after[i].peer_id@ != #[trigger] after[j].peer_id@ by {
        assert(after[i].peer_id@ == ns[i].peer_id@);
        assert(after[j].peer_id@ == ns[j].peer_id@);
    }
    lemma_non_candidate_unlisted(after, k, exclude);
}

/// A delivery through a known neighbour makes it a relay candidate again
/// for every request that does not exclude it, blacklisted or not.
pub proof fn law_success_restores_candidate(ns: Seq<NeighborRecord>, peer: Seq<char>, exclude: Seq<String>)
    requires
        find_peer(ns, peer) is Some,
        !excluded(exclude, peer),
    ensures
        candidate_ids(after_success(ns, peer), exclude).contains(peer),
{
    let k = find_peer(ns, peer).unwrap();
    lemma_candidate_listed(after_success(ns, peer), k, exclude);
}

/// Every relay candidate is a known neighbour that is not blacklisted and
/// not excluded: a route that excludes the nodes it has passed never comes
/// back to one of them.
pub proof fn law_candidates_avoid_excluded(ns: Seq<NeighborRecord>, exclude: Seq<String>, peer: Seq<char>)
    requires
        unique_peers(ns),
        candidate_ids(ns, exclude).contains(peer),
    ensures
        !excluded(exclude, peer),
        find_peer(ns, peer) matches Some(k) && ns[k].state != NeighborState::Blacklisted,
{
    let pred = |r: NeighborRecord| is_candidate(r, exclude);
    let f = ns.filter(pred);
    let ids = candidate_ids(ns, exclude);
    let j = choose|j: int| 0 <= j < ids.len() && ids[j] == peer;
    ns.lemma_filter_pred(pred, j);
    assert(f.contains(f[j]));
    ns.lemma_filter_contains_rev(pred, f[j]);
    let m = choose|m: int| 0 <= m < ns.len() && ns[m] == f[j];
    assert(ns[m].peer_id@ == peer);
    let k = find_peer(ns, peer).unwrap();
    if k < m {
        assert(ns[k].peer_id@ != ns[m].peer_id@);
    } else if k > m {
        assert(ns[m].peer_id@ != ns[k].peer_id@);
    }
}

} // verus!
