//! Health of a circuit, judged from its expiry and its idle time.
use vstd::prelude::*;
use crate::circuit::builder::OnionCircuit;
use crate::primitives::unix_time_secs;

verus! {

/// Seconds of idleness after which a used circuit counts as degraded.
pub const IDLE_DEGRADED_SECS: u64 = 300;

#[derive(Clone, Copy, Debug, PartialEq, Eq, Structural)]
pub enum CircuitHealth {
    Healthy,
    Degraded,
    Failing,
    Dead,
}

pub struct CircuitHealthChecker {
    pub degraded_latency_threshold: u64,
    pub dead_latency_threshold: u64,
    pub failing_threshold: u32,
    pub dead_threshold: u32,
}

impl Default for CircuitHealthChecker {
    fn default() -> (c: Self)
        ensures
            c.degraded_latency_threshold == 500,
            c.dead_latency_threshold == 5000,
            c.failing_threshold == 3,
            c.dead_threshold == 5,
    {
        CircuitHealthChecker {
            degraded_latency_threshold: 500,
            dead_latency_threshold: 5000,
            failing_threshold: 3,
            dead_threshold: 5,
        }
    }
}

/// `now - then`, or zero when `then` lies after `now`.
pub open spec fn elapsed(now: u64, then: u64) -> nat {
    if now >= then { (now - then) as nat } else { 0 }
}

/// The health of `c` at `now`: dead once expired; degraded when it has
/// carried messages and has been idle for more than five minutes; healthy
/// otherwise.
pub open spec fn health_at(c: OnionCircuit, now: u64) -> CircuitHealth {
    if c.expires_at < now {
        CircuitHealth::Dead
    } else if elapsed(now, c.last_used) > IDLE_DEGRADED_SECS && c.message_count > 0 {
        CircuitHealth::Degraded
    } else {
        CircuitHealth::Healthy
    }
}

impl CircuitHealthChecker {
    /// The health of `circuit` at time `now` (an idle time counts as zero
    /// when `now` lies before the circuit's last use).
    pub fn check_at(&self, circuit: &OnionCircuit, now: u64) -> (h: CircuitHealth)
        ensures
            h == health_at(*circuit, now),
    {
        if circuit.expires_at < now {
            return CircuitHealth::Dead;
        }
        let idle = if now >= circuit.last_used { now - circuit.last_used } else { 0 };
        if idle > IDLE_DEGRADED_SECS && circuit.message_count > 0 {
            return CircuitHealth::Degraded;
        }
        CircuitHealth::Healthy
    }

    /// The health of `circuit` now.
    pub fn check(&self, circuit: &OnionCircuit) -> (h: CircuitHealth)
        ensures
            exists|now: u64| h == health_at(*circuit, now),
    {
        let now = unix_time_secs();
        self.check_at(circuit, now)
    }
}

/// A circuit that has carried no message is never degraded: it is healthy
/// until it expires and dead afterwards.
pub proof fn law_unused_circuit_not_degraded(c: OnionCircuit, now: u64)
    requires
        c.message_count == 0,
    ensures
        health_at(c, now) == (if c.expires_at < now { CircuitHealth::Dead } else { CircuitHealth::Healthy }),
{
}

/// Expiry decides first: a circuit checked after its expiry time is dead,
/// whatever it carried and however long it has been idle; one checked before
/// it is never dead.
pub proof fn law_expired_circuit_dead(c: OnionCircuit, now: u64)
    ensures
        c.expires_at < now ==> health_at(c, now) == CircuitHealth::Dead,
        now <= c.expires_at ==> health_at(c, now) != CircuitHealth::Dead,
{
}

/// A circuit that has not expired is degraded exactly when it has carried a
/// message and its last use lies more than five minutes back.
pub proof fn law_degraded_when_idle(c: OnionCircuit, now: u64)
    requires
        now <= c.expires_at,
    ensures
        health_at(c, now) == CircuitHealth::Degraded
            <==> (c.message_count > 0 && now >= c.last_used && now - c.last_used > 300),
{
}

} // verus!
