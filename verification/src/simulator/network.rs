//! The route of a message through the simulated network: it leaves its
//! sender and is forwarded for at most three hops; it fails at the first
//! hop whose node is unknown or offline, or where no relay can be chosen.
use vstd::prelude::*;
use crate::primitives::random_u64;
use crate::text::{decimal, decimal_text};

verus! {

/// Hops a simulated message is forwarded at most.
pub const MAX_HOPS: u8 = 3;

pub struct SimulatedMessage {
    pub id: String,
    pub from: String,
    pub to: String,
    pub path: Vec<String>,
    pub success: bool,
    pub latency: u64,
}

/// A message on its way: the nodes it passed, the node it is at, the
/// latency summed so far, the hops made, and whether it failed or stopped.
pub struct Walk {
    pub path: Vec<String>,
    pub current: String,
    pub total_latency: u64,
    pub hops: u8,
    pub success: bool,
    pub done: bool,
}

/// The ids of a path as text.
pub open spec fn path_view(p: Seq<String>) -> Seq<Seq<char>> {
    p.map_values(|s: String| s@)
}

/// Where one hop leads and what it costs. `here` is the current node's
/// state (online, latency) when the node exists; `chosen` is the relay
/// picked there, with its own state when it exists; `jitter` is the link
/// delay drawn for the hop. The hop goes ahead only when both nodes exist
/// and are online; it then costs both latencies and the jitter.
pub open spec fn hop(here: Option<(bool, u64)>, chosen: Option<(String, Option<(bool, u64)>)>, jitter: u64)
    -> Option<(Seq<char>, int)>
{
    match here {
        Some((true, latency)) => match chosen {
            Some((next, Some((true, next_latency)))) => Some((next@, latency + next_latency + jitter)),
            _ => None,
        },
        _ => None,
    }
}

impl Walk {
    /// The path holds the sender and one node per hop made, and passes no
    /// node twice.
    pub open spec fn wf(&self) -> bool {
        &&& self.path@.len() == self.hops + 1
        &&& path_view(self.path@).no_duplicates()
    }

    /// A message that has just left `from`.
    pub fn start(from: &str) -> (w: Walk)
        ensures
            w.wf(),
            path_view(w.path@) == seq![from@],
            w.current@ == from@,
            w.total_latency == 0,
            w.hops == 0,
            w.success,
            !w.done,
    {
        let mut path: Vec<String> = Vec::new();
        path.push(from.to_owned());
        let w = Walk { path, current: from.to_owned(), total_latency: 0, hops: 0, success: true, done: false };
        assert(path_view(w.path@) =~= seq![from@]);
        w
    }

    /// Whether the message is no longer forwarded: it failed, or it made
    /// all its hops.
    pub fn finished(&self) -> (b: bool)
        ensures
            b == (self.done || self.hops >= MAX_HOPS),
    {
        self.done || self.hops >= MAX_HOPS
    }

    /// Forwards the message one hop (see `hop`): on success the relay is
    /// appended to the path and becomes the current node, and the hop's
    /// cost is added; otherwise the message has failed and stops where it is.
    /// The relay is chosen among nodes the message has not passed.
    pub fn step(&mut self, here: Option<(bool, u64)>, chosen: Option<(String, Option<(bool, u64)>)>, jitter: u64)
        requires
            old(self).wf(),
            !old(self).done,
            old(self).hops < MAX_HOPS,
            hop(here, chosen, jitter) matches Some((_, cost)) ==> old(self).total_latency + cost <= u64::MAX,
            chosen matches Some((next, _)) ==> !path_view(old(self).path@).contains(next@),
        ensures
            final(self).wf(),
            match hop(here, chosen, jitter) {
                Some((next, cost)) => {
                    &&& path_view(final(self).path@) == path_view(old(self).path@).push(next)
                    &&& final(self).current@ == next
                    &&& final(self).total_latency == old(self).total_latency + cost
                    &&& final(self).hops == old(self).hops + 1
                    &&& final(self).success == old(self).success
                    &&& !final(self).done
                },
                None => {
                    &&& final(self).path@ == old(self).path@
                    &&& final(self).current == old(self).current
                    &&& final(self).total_latency == old(self).total_latency
                    &&& final(self).hops == old(self).hops
                    &&& !final(self).success
                    &&& final(self).done
                },
            },
    {
        let ghost before = path_view(self.path@);
        match here {
            Some((true, latency)) => match chosen {
                Some((next, Some((true, next_latency)))) => {
                    self.total_latency = self.total_latency + latency + next_latency + jitter;
                    self.path.push(next.clone());
                    self.current = next;
                    self.hops = self.hops + 1;
                    assert(path_view(self.path@) =~= before.push(self.current@));
                    return;
                },
                _ => {},
            },
            _ => {},
        }
        self.success = false;
        self.done = true;
    }

    /// The record of the finished message from `from` to `to`, under the
    /// id `m<nonce>`.
    pub fn into_message(self, from: &str, to: &str, nonce: u64) -> (m: SimulatedMessage)
        ensures
            m.id@ == "m"@ + decimal(nonce as nat),
            m.from@ == from@,
            m.to@ == to@,
            m.path@ == self.path@,
            m.success == self.success,
            m.latency == self.total_latency,
    {
        let mut id = String::from_str("m");
        let digits = decimal_text(nonce);
        id.append(digits.as_str());
        proof {
            reveal_strlit("m");
        }
        SimulatedMessage {
            id,
            from: from.to_owned(),
            to: to.to_owned(),
            path: self.path,
            success: self.success,
            latency: self.total_latency,
        }
    }
}

/// The link latency of a simulated node made from the random draw `x`:
/// 20 to 199 milliseconds.
pub fn latency_from_draw(x: u64) -> (ms: u64)
    ensures
        ms == x % 180 + 20,
{
    x % 180 + 20
}

/// The extra delay of a simulated hop made from the random draw `x`: 5 to
/// 49 milliseconds.
pub fn jitter_from_draw(x: u64) -> (ms: u64)
    ensures
        ms == x % 45 + 5,
{
    x % 45 + 5
}

/// The link latency of a new simulated node: `latency_from_draw` of a
/// random draw.
pub fn node_latency() -> (ms: u64)
    ensures
        exists|x: u64| ms == #[trigger] (x % 180) + 20,
        20 <= ms < 200,
{
    let x = random_u64();
    latency_from_draw(x)
}

/// The extra delay of one simulated hop: `jitter_from_draw` of a random
/// draw.
pub fn link_jitter() -> (ms: u64)
    ensures
        exists|x: u64| ms == #[trigger] (x % 45) + 5,
        5 <= ms < 50,
{
    let x = random_u64();
    jitter_from_draw(x)
}

/// How many of `msgs` were delivered.
pub open spec fn delivered_count(msgs: Seq<SimulatedMessage>) -> nat {
    msgs.filter(|m: SimulatedMessage| m.success).len()
}

/// Counts the messages of `msgs` that were delivered.
pub fn count_delivered(msgs: &Vec<SimulatedMessage>) -> (n: usize)
    ensures
        n == delivered_count(msgs@),
{
    let ghost pred = |m: SimulatedMessage| m.success;
    let mut n: usize = 0;
    let mut i: usize = 0;
    while i < msgs.len()
        invariant
            i <= msgs@.len(),
            pred == (|m: SimulatedMessage| m.success),
            n == msgs@.subrange(0, i as int).filter(pred).len(),
            n <= i,
        decreases msgs@.len() - i,
    {
        reveal_with_fuel(Seq::<_>::filter, 1);
        assert(msgs@.subrange(0, i + 1).drop_last() =~= msgs@.subrange(0, i as int));
        if msgs[i].success {
            n = n + 1;
        }
        i = i + 1;
    }
    assert(msgs@.subrange(0, msgs@.len() as int) =~= msgs@);
    n
}

} // verus!
