//! Bookkeeping of a node's circuits: which one is active, when one is
//! rotated out, which ones are healthy, and the ids under which new ones are
//! stored.
use vstd::prelude::*;
use crate::circuit::builder::OnionCircuit;
use crate::circuit::health::{elapsed, health_at, CircuitHealth, CircuitHealthChecker};
use crate::error::AbyssError;
use crate::primitives::{random_usize, unix_time_secs};
use crate::text::{decimal, decimal_text};

verus! {

pub type CircuitEntry = (String, OnionCircuit);

/// Position of the circuit with id `id`, if any.
pub open spec fn find_id(circuits: Seq<CircuitEntry>, id: Seq<char>) -> Option<int> {
    if exists|i: int| 0 <= i < circuits.len() && #[trigger] circuits[i].0@ == id {
        Some(choose|i: int| 0 <= i < circuits.len() && #[trigger] circuits[i].0@ == id)
    } else {
        None
    }
}

/// No id appears twice.
pub open spec fn unique_ids(circuits: Seq<CircuitEntry>) -> bool {
    forall|i: int, j: int| 0 <= i < j < circuits.len() ==> #[trigger] circuits[i].0@ != #[trigger] circuits[j].0@
}

/// The circuit at `k` is healthy at `now`.
pub open spec fn healthy_at(circuits: Seq<CircuitEntry>, k: int, now: u64) -> bool {
    health_at(circuits[k].1, now) == CircuitHealth::Healthy
}

/// Position of the first circuit that is healthy at `now`, if any.
pub open spec fn first_healthy(circuits: Seq<CircuitEntry>, now: u64) -> Option<int> {
    if exists|k: int| 0 <= k < circuits.len() && #[trigger] healthy_at(circuits, k, now) {
        Some(choose|k: int| 0 <= k < circuits.len() && #[trigger] healthy_at(circuits, k, now)
            && forall|j: int| 0 <= j < k ==> !#[trigger] healthy_at(circuits, j, now))
    } else {
        None
    }
}

/// The circuits that are healthy at `now`, in order.
pub open spec fn healthy_entries(circuits: Seq<CircuitEntry>, now: u64) -> Seq<CircuitEntry> {
    circuits.filter(|e: CircuitEntry| health_at(e.1, now) == CircuitHealth::Healthy)
}

/// The id of the circuit that `draw` picks among those healthy at `now`:
/// the `draw % n`-th of the `n` healthy circuits, in order; none when no
/// circuit is healthy.
pub open spec fn healthy_pick(circuits: Seq<CircuitEntry>, now: u64, draw: usize) -> Option<Seq<char>> {
    let healthy = healthy_entries(circuits, now);
    if healthy.len() == 0 {
        None
    } else {
        Some(healthy[(draw as int) % (healthy.len() as int)].0@)
    }
}

/// The views of an optional id.
pub open spec fn id_view(id: Option<String>) -> Option<Seq<char>> {
    match id {
        Some(s) => Some(s@),
        None => None,
    }
}

/// The id of the `n`-th circuit slot: `circuit_<n>`.
pub open spec fn circuit_id(n: nat) -> Seq<char> {
    "circuit_"@ + decimal(n)
}

pub struct CircuitManager {
    pub circuits: Vec<CircuitEntry>,
    pub health_checker: CircuitHealthChecker,
    pub max_circuits: usize,
    pub active_circuit_id: Option<String>,
    pub max_messages_per_circuit: u64,
    pub max_circuit_lifetime_seconds: u64,
}

impl CircuitManager {
    /// Ids are unique.
    pub open spec fn wf(&self) -> bool {
        unique_ids(self.circuits@)
    }

    /// A circuit is rotated out once it has carried the maximum number of
    /// messages or has lived longer than the maximum lifetime.
    pub open spec fn rotation_due(&self, c: OnionCircuit, now: u64) -> bool {
        c.message_count >= self.max_messages_per_circuit
            || elapsed(now, c.created_at) > self.max_circuit_lifetime_seconds
    }

    /// Position of the active circuit, if it is set and present.
    pub open spec fn active_pos(&self) -> Option<int> {
        match self.active_circuit_id {
            Some(id) => find_id(self.circuits@, id@),
            None => None,
        }
    }

    /// The active circuit is present, not due for rotation and healthy.
    pub open spec fn active_usable(&self, now: u64) -> bool {
        match self.active_pos() {
            Some(k) => !self.rotation_due(self.circuits@[k].1, now) && healthy_at(self.circuits@, k, now),
            None => false,
        }
    }

    /// The active circuit is present and due for rotation.
    pub open spec fn active_retiring(&self, now: u64) -> bool {
        match self.active_pos() {
            Some(k) => self.rotation_due(self.circuits@[k].1, now),
            None => false,
        }
    }

    /// The circuits after the active one, if due, is rotated out.
    pub open spec fn after_rotation(&self, now: u64) -> Seq<CircuitEntry> {
        if self.active_retiring(now) {
            self.circuits@.remove(self.active_pos().unwrap())
        } else {
            self.circuits@
        }
    }

    /// The active id after the active circuit, if due, is rotated out.
    pub open spec fn active_after_rotation(&self, now: u64) -> Option<Seq<char>> {
        if self.active_retiring(now) { None } else { id_view(self.active_circuit_id) }
    }

    /// A manager without circuits: at most ten messages per circuit and five
    /// minutes of life.
    pub fn new(health_checker: CircuitHealthChecker, max_circuits: usize) -> (m: Self)
        ensures
            m.wf(),
            m.circuits@.len() == 0,
            m.health_checker == health_checker,
            m.max_circuits == max_circuits,
            m.active_circuit_id is None,
            m.max_messages_per_circuit == 10,
            m.max_circuit_lifetime_seconds == 300,
    {
        CircuitManager {
            circuits: Vec::new(),
            health_checker,
            max_circuits,
            active_circuit_id: None,
            max_messages_per_circuit: 10,
            max_circuit_lifetime_seconds: 300,
        }
    }

    fn position(&self, id: &String) -> (pos: Option<usize>)
        requires
            self.wf(),
        ensures
            match pos {
                Some(i) => find_id(self.circuits@, id@) == Some(i as int) && i < self.circuits@.len(),
                None => find_id(self.circuits@, id@) is None,
            },
    {
        let mut i: usize = 0;
        while i < self.circuits.len()
            invariant
                self.wf(),
                i <= self.circuits@.len(),
                forall|k: int| 0 <= k < i ==> #[trigger] self.circuits@[k].0@ != id@,
            decreases self.circuits@.len() - i,
        {
            if self.circuits[i].0 == *id {
                proof {
                    let j = choose|j: int| 0 <= j < self.circuits@.len() && #[trigger] self.circuits@[j].0@ == id@;
                    if j != i {
                        if j < i {
                            assert(self.circuits@[j].0@ != id@);
                        } else {
                            assert(self.circuits@[i as int].0@ != self.circuits@[j].0@);
                        }
                    }
                }
                return Some(i);
            }
            i = i + 1;
        }
        None
    }

    /// Whether `circuit` is due for rotation at `now` (an age counts as zero
    /// when `now` lies before the creation time).
    pub fn should_rotate_at(&self, circuit: &OnionCircuit, now: u64) -> (b: bool)
        ensures
            b == self.rotation_due(*circuit, now),
    {
        let age = if now >= circuit.created_at { now - circuit.created_at } else { 0 };
        circuit.message_count >= self.max_messages_per_circuit || age > self.max_circuit_lifetime_seconds
    }

    /// Position of the first circuit that is healthy at `now`.
    fn find_healthy(&self, now: u64) -> (pos: Option<usize>)
        ensures
            match pos {
                Some(k) => first_healthy(self.circuits@, now) == Some(k as int) && k < self.circuits@.len(),
                None => first_healthy(self.circuits@, now) is None,
            },
    {
        let mut i: usize = 0;
        while i < self.circuits.len()
            invariant
                i <= self.circuits@.len(),
                forall|j: int| 0 <= j < i ==> !#[trigger] healthy_at(self.circuits@, j, now),
            decreases self.circuits@.len() - i,
        {
            if self.health_checker.check_at(&self.circuits[i].1, now) == CircuitHealth::Healthy {
                proof {
                    assert(healthy_at(self.circuits@, i as int, now));
                    let k = choose|k: int| 0 <= k < self.circuits@.len() && #[trigger] healthy_at(self.circuits@, k, now)
                        && forall|j: int| 0 <= j < k ==> !#[trigger] healthy_at(self.circuits@, j, now);
                    if k < i {
                        assert(!healthy_at(self.circuits@, k, now));
                    }
                    if k > i {
                        assert(!healthy_at(self.circuits@, i as int, now));
                    }
                }
                return Some(i);
            }
            i = i + 1;
        }
        None
    }

    /// The part of getting a circuit that needs no new one, at time `now`:
    /// keeps using the active circuit while it is usable; retires it once it
    /// is due for rotation; otherwise takes the first healthy circuit and
    /// makes it active. When none is healthy it returns `None` after making
    /// room for a new circuit (the oldest is dropped when the manager is
    /// full); the caller then builds one and hands it to `install`.
    pub fn select_existing(&mut self, now: u64) -> (r: Option<String>)
        requires
            old(self).wf(),
        ensures
            final(self).wf(),
            final(self).health_checker == old(self).health_checker,
            final(self).max_circuits == old(self).max_circuits,
            final(self).max_messages_per_circuit == old(self).max_messages_per_circuit,
            final(self).max_circuit_lifetime_seconds == old(self).max_circuit_lifetime_seconds,
            old(self).active_usable(now) ==> {
                &&& id_view(r) == id_view(old(self).active_circuit_id)
                &&& final(self).circuits@ == old(self).circuits@
                &&& id_view(final(self).active_circuit_id) == id_view(old(self).active_circuit_id)
            },
            !old(self).active_usable(now) ==> match first_healthy(old(self).after_rotation(now), now) {
                Some(k) => {
                    &&& id_view(r) == Some(old(self).after_rotation(now)[k].0@)
                    &&& final(self).circuits@ == old(self).after_rotation(now)
                    &&& id_view(final(self).active_circuit_id) == id_view(r)
                },
                None => {
                    let rest = old(self).after_rotation(now);
                    &&& r is None
                    &&& final(self).circuits@ == (if rest.len() >= old(self).max_circuits && rest.len() > 0 {
                        rest.drop_first()
                    } else {
                        rest
                    })
                    &&& id_view(final(self).active_circuit_id) == old(self).active_after_rotation(now)
                },
            },
    {
        let ghost start = *self;
        let mut pos: Option<usize> = None;
        match &self.active_circuit_id {
            Some(id) => { pos = self.position(id); },
            None => {},
        }
        assert(pos matches Some(k) ==> self.active_pos() == Some(k as int));
        assert(pos is None ==> self.active_pos() is None);
        match pos {
            Some(k) => {
                if self.should_rotate_at(&self.circuits[k].1, now) {
                    let ghost before = self.circuits@;
                    self.circuits.remove(k);
                    self.active_circuit_id = None;
                    proof {
                        assert forall|i: int, j: int| 0 <= i < j < self.circuits@.len() implies
                            #[trigger] self.circuits@[i].0@ != #[trigger] self.circuits@[j].0@ by {
                            let bi = if i < k { i } else { i + 1 };
                            let bj = if j < k { j } else { j + 1 };
                            assert(self.circuits@[i] == before[bi]);
                            assert(self.circuits@[j] == before[bj]);
                        }
                    }
                } else if self.health_checker.check_at(&self.circuits[k].1, now) == CircuitHealth::Healthy {
                    let id = self.circuits[k].0.clone();
                    return Some(id);
                }
            },
            None => {},
        }
        assert(self.circuits@ == start.after_rotation(now));
        assert(id_view(self.active_circuit_id) == start.active_after_rotation(now));
        match self.find_healthy(now) {
            Some(k) => {
                let id = self.circuits[k].0.clone();
                self.active_circuit_id = Some(self.circuits[k].0.clone());
                Some(id)
            },
            None => {
                if self.circuits.len() >= self.max_circuits && self.circuits.len() > 0 {
                    let ghost before = self.circuits@;
                    self.circuits.remove(0);
                    assert(self.circuits@ =~= before.drop_first());
                    proof {
                        assert forall|i: int, j: int| 0 <= i < j < self.circuits@.len() implies
                            #[trigger] self.circuits@[i].0@ != #[trigger] self.circuits@[j].0@ by {
                            assert(self.circuits@[i] == before[i + 1]);
                            assert(self.circuits@[j] == before[j + 1]);
                        }
                    }
                }
                None
            },
        }
    }

    /// Stores a newly built circuit under `circuit_<n>`, where `n` is the
    /// number of circuits held, and makes it active. A circuit already held
    /// under that id is replaced.
    pub fn install(&mut self, circuit: OnionCircuit) -> (id: String)
        requires
            old(self).wf(),
        ensures
            final(self).wf(),
            id@ == circuit_id(old(self).circuits@.len()),
            id_view(final(self).active_circuit_id) == Some(id@),
            final(self).health_checker == old(self).health_checker,
            final(self).max_circuits == old(self).max_circuits,
            final(self).max_messages_per_circuit == old(self).max_messages_per_circuit,
            final(self).max_circuit_lifetime_seconds == old(self).max_circuit_lifetime_seconds,
            match find_id(old(self).circuits@, id@) {
                Some(k) => final(self).circuits@.len() == old(self).circuits@.len()
                    && final(self).circuits@[k].0@ == id@ && final(self).circuits@[k].1 == circuit
                    && forall|j: int| 0 <= j < old(self).circuits@.len() && j != k
                        ==> #[trigger] final(self).circuits@[j] == old(self).circuits@[j],
                None => final(self).circuits@.len() == old(self).circuits@.len() + 1
                    && final(self).circuits@.last().0@ == id@ && final(self).circuits@.last().1 == circuit
                    && final(self).circuits@.drop_last() == old(self).circuits@,
            },
    {
        let mut id = String::from_str("circuit_");
        let n = decimal_text(self.circuits.len() as u64);
        id.append(n.as_str());
        let ghost before = self.circuits@;
        match self.position(&id) {
            Some(k) => {
                let key = id.clone();
                self.circuits.set(k, (key, circuit));
                proof {
                    assert forall|i: int, j: int| 0 <= i < j < self.circuits@.len() implies
                        #[trigger] self.circuits@[i].0@ != #[trigger] self.circuits@[j].0@ by {
                        assert(self.circuits@[i].0@ == before[i].0@);
                        assert(self.circuits@[j].0@ == before[j].0@);
                    }
                }
            },
            None => {
                let key = id.clone();
                self.circuits.push((key, circuit));
                proof {
                    assert forall|i: int, j: int| 0 <= i < j < self.circuits@.len() implies
                        #[trigger] self.circuits@[i].0@ != #[trigger] self.circuits@[j].0@ by {
                        if j == before.len() {
                            assert(before[i].0@ != id@);
                        } else {
                            assert(self.circuits@[i] == before[i]);
                            assert(self.circuits@[j] == before[j]);
                        }
                    }
                    assert(self.circuits@.drop_last() =~= before);
                }
            },
        }
        self.active_circuit_id = Some(id.clone());
        id
    }

    /// The ids of the circuits that are healthy at `now`, in order.
    pub fn healthy_ids(&self, now: u64) -> (ids: Vec<String>)
        ensures
            ids@.map_values(|s: String| s@) == healthy_entries(self.circuits@, now).map_values(|e: CircuitEntry| e.0@),
    {
        let ghost pred = |e: CircuitEntry| health_at(e.1, now) == CircuitHealth::Healthy;
        let mut ids: Vec<String> = Vec::new();
        let mut i: usize = 0;
        while i < self.circuits.len()
            invariant
                i <= self.circuits@.len(),
                pred == (|e: CircuitEntry| health_at(e.1, now) == CircuitHealth::Healthy),
                ids@.map_values(|s: String| s@) == self.circuits@.subrange(0, i as int).filter(pred)
                    .map_values(|e: CircuitEntry| e.0@),
            decreases self.circuits@.len() - i,
        {
            let ghost before = ids@;
            reveal_with_fuel(Seq::<_>::filter, 1);
            assert(self.circuits@.subrange(0, i + 1).drop_last() =~= self.circuits@.subrange(0, i as int));
            if self.health_checker.check_at(&self.circuits[i].1, now) == CircuitHealth::Healthy {
                ids.push(self.circuits[i].0.clone());
                assert(ids@.map_values(|s: String| s@) =~= before.map_values(|s: String| s@).push(self.circuits@[i as int].0@));
            }
            i = i + 1;
            assert(ids@.map_values(|s: String| s@) =~= self.circuits@.subrange(0, i as int).filter(pred)
                .map_values(|e: CircuitEntry| e.0@));
        }
        assert(self.circuits@.subrange(0, self.circuits@.len() as int) =~= self.circuits@);
        ids
    }

    /// The healthy circuit that the draw `draw` picks at time `now`: the
    /// `draw % n`-th of the `n` circuits healthy then, or `None` when none is.
    pub fn pick_healthy(&self, now: u64, draw: usize) -> (r: Option<String>)
        ensures
            id_view(r) == healthy_pick(self.circuits@, now, draw),
    {
        let ids = self.healthy_ids(now);
        let ghost healthy = healthy_entries(self.circuits@, now);
        assert(ids@.len() == healthy.len()) by {
            assert(ids@.map_values(|s: String| s@).len() == ids@.len());
        }
        if ids.len() == 0 {
            return None;
        }
        let pick = draw % ids.len();
        let id = ids[pick].clone();
        proof {
            assert(ids@.map_values(|s: String| s@)[pick as int] == healthy.map_values(|e: CircuitEntry| e.0@)[pick as int]);
            assert(healthy[pick as int].0@ == id@);
        }
        Some(id)
    }

    /// A healthy circuit chosen at random: `pick_healthy` with the current
    /// time and a random draw.
    pub fn get_random_circuit(&self) -> (r: Option<String>)
        ensures
            exists|now: u64, draw: usize| id_view(r) == #[trigger] healthy_pick(self.circuits@, now, draw),
    {
        let now = unix_time_secs();
        let draw = random_usize();
        self.pick_healthy(now, draw)
    }

    /// Records that a message is sent over circuit `circuit_id` at `now`:
    /// its message count goes up by one and its last use becomes `now`.
    pub fn record_send(&mut self, circuit_id: &str, now: u64) -> (r: Result<(), AbyssError>)
        requires
            old(self).wf(),
            find_id(old(self).circuits@, circuit_id@) matches Some(k)
                ==> old(self).circuits@[k].1.message_count < u64::MAX,
        ensures
            final(self).wf(),
            final(self).active_circuit_id == old(self).active_circuit_id,
            final(self).max_circuits == old(self).max_circuits,
            final(self).health_checker == old(self).health_checker,
            final(self).max_messages_per_circuit == old(self).max_messages_per_circuit,
            final(self).max_circuit_lifetime_seconds == old(self).max_circuit_lifetime_seconds,
            match find_id(old(self).circuits@, circuit_id@) {
                None => r matches Err(AbyssError::NoActiveCircuit) && final(self).circuits@ == old(self).circuits@,
                Some(k) => {
                    let c = old(self).circuits@[k].1;
                    &&& r is Ok
                    &&& final(self).circuits@.len() == old(self).circuits@.len()
                    &&& final(self).circuits@[k].0@ == old(self).circuits@[k].0@
                    &&& final(self).circuits@[k].1 == OnionCircuit { message_count: (c.message_count + 1) as u64, last_used: now, ..c }
                    &&& forall|j: int| 0 <= j < old(self).circuits@.len() && j != k
                        ==> #[trigger] final(self).circuits@[j] == old(self).circuits@[j]
                },
            },
    {
        let key = circuit_id.to_owned();
        match self.position(&key) {
            None => Err(AbyssError::NoActiveCircuit),
            Some(k) => {
                let ghost before = self.circuits@;
                let (id, mut c) = self.circuits.remove(k);
                c.message_count = c.message_count + 1;
                c.last_used = now;
                self.circuits.insert(k, (id, c));
                proof {
                    assert forall|j: int| 0 <= j < before.len() && j != k implies #[trigger] self.circuits@[j] == before[j] by {}
                    assert forall|i: int, j: int| 0 <= i < j < self.circuits@.len() implies
                        #[trigger] self.circuits@[i].0@ != #[trigger] self.circuits@[j].0@ by {
                        assert(self.circuits@[i].0@ == before[i].0@);
                        assert(self.circuits@[j].0@ == before[j].0@);
                    }
                }
                Ok(())
            },
        }
    }
}

/// A circuit that `select_existing` hands out is healthy at the time of the
/// call: the active circuit only while it is usable, otherwise the first
/// healthy one.
pub proof fn law_selected_circuit_healthy(m: CircuitManager, now: u64)
    ensures
        m.active_usable(now) ==> healthy_at(m.circuits@, m.active_pos().unwrap(), now),
        !m.active_usable(now) ==> match first_healthy(m.after_rotation(now), now) {
            Some(k) => 0 <= k < m.after_rotation(now).len() && healthy_at(m.after_rotation(now), k, now),
            None => true,
        },
{
    let rest = m.after_rotation(now);
    if exists|k: int| 0 <= k < rest.len() && #[trigger] healthy_at(rest, k, now) {
        let k = choose|k: int| 0 <= k < rest.len() && #[trigger] healthy_at(rest, k, now)
            && forall|j: int| 0 <= j < k ==> !#[trigger] healthy_at(rest, j, now);
        let w = choose|k: int| 0 <= k < rest.len() && #[trigger] healthy_at(rest, k, now);
        lemma_first_exists(rest, now, w);
    }
}

/// Among positions where a predicate holds there is a first one.
proof fn lemma_first_exists(rest: Seq<CircuitEntry>, now: u64, w: int)
    requires
        0 <= w < rest.len(),
        healthy_at(rest, w, now),
    ensures
        exists|k: int| 0 <= k < rest.len() && #[trigger] healthy_at(rest, k, now)
            && forall|j: int| 0 <= j < k ==> !#[trigger] healthy_at(rest, j, now),
    decreases w,
{
    if exists|j: int| 0 <= j < w && #[trigger] healthy_at(rest, j, now) {
        let j = choose|j: int| 0 <= j < w && #[trigger] healthy_at(rest, j, now);
        lemma_first_exists(rest, now, j);
    } else {
        assert(forall|j: int| 0 <= j < w ==> !#[trigger] healthy_at(rest, j, now));
    }
}

/// A circuit is due for rotation exactly when it has carried the maximum
/// number of messages or was created more than the maximum lifetime before
/// `now`; when it was last used plays no part.
pub proof fn law_rotation_by_age_or_use(m: CircuitManager, c: OnionCircuit, now: u64, used: u64)
    ensures
        m.rotation_due(c, now) <==> (c.message_count >= m.max_messages_per_circuit
            || (now >= c.created_at && now - c.created_at > m.max_circuit_lifetime_seconds)),
        m.rotation_due(OnionCircuit { last_used: used, ..c }, now) == m.rotation_due(c, now),
{
}

} // verus!
