//! Onion circuits and how a new one is put together.
use vstd::prelude::*;
use crate::error::AbyssError;
use crate::primitives::x25519_random_secret;

verus! {

/// Seconds for which a new circuit is valid.
pub const CIRCUIT_LIFETIME_SECS: u64 = 600;

/// Key material of a circuit: the first hop's ephemeral X25519 secret, the
/// secret shared with the first hop, and the nonces for hops two and three.
pub struct CircuitKeys {
    pub e1: [u8; 32],
    pub shared1: [u8; 32],
    pub nonce2: [u8; 12],
    pub nonce3: [u8; 12],
}

impl Default for CircuitKeys {
    /// All key material zero.
    fn default() -> (k: Self)
        ensures
            k.e1@ == Seq::new(32, |_i: int| 0u8),
            k.shared1@ == Seq::new(32, |_i: int| 0u8),
            k.nonce2@ == Seq::new(12, |_i: int| 0u8),
            k.nonce3@ == Seq::new(12, |_i: int| 0u8),
    {
        let k = CircuitKeys { e1: [0u8; 32], shared1: [0u8; 32], nonce2: [0u8; 12], nonce3: [0u8; 12] };
        assert(k.e1@ =~= Seq::new(32, |_i: int| 0u8));
        assert(k.shared1@ =~= Seq::new(32, |_i: int| 0u8));
        assert(k.nonce2@ =~= Seq::new(12, |_i: int| 0u8));
        assert(k.nonce3@ =~= Seq::new(12, |_i: int| 0u8));
        k
    }
}

pub struct OnionCircuit {
    pub hop1: String,
    pub keys: CircuitKeys,
    pub created_at: u64,
    pub expires_at: u64,
    pub is_active: bool,
    pub message_count: u64,
    pub last_used: u64,
}

impl OnionCircuit {
    /// A new circuit through `relay`, the relay that was selected for the
    /// first hop, keyed by the ephemeral secret `e1`, created at `now`: valid
    /// for ten minutes, active, unused, with zero shared secret and nonces.
    /// Without a relay there are not enough neighbours.
    pub fn open(relay: Option<String>, e1: [u8; 32], now: u64) -> (r: Result<OnionCircuit, AbyssError>)
        requires
            now + CIRCUIT_LIFETIME_SECS <= u64::MAX,
        ensures
            relay is None ==> (r matches Err(AbyssError::InsufficientNeighbors(n)) && n == 0),
            relay matches Some(h) ==> (r matches Ok(c) && {
                &&& c.hop1@ == h@
                &&& c.keys.e1 == e1
                &&& c.keys.shared1@ == Seq::new(32, |_i: int| 0u8)
                &&& c.keys.nonce2@ == Seq::new(12, |_i: int| 0u8)
                &&& c.keys.nonce3@ == Seq::new(12, |_i: int| 0u8)
                &&& c.created_at == now
                &&& c.expires_at == now + CIRCUIT_LIFETIME_SECS
                &&& c.is_active
                &&& c.message_count == 0
                &&& c.last_used == now
            }),
    {
        match relay {
            None => Err(AbyssError::InsufficientNeighbors(0)),
            Some(hop1) => {
                let keys = CircuitKeys { e1, shared1: [0u8; 32], nonce2: [0u8; 12], nonce3: [0u8; 12] };
                assert(keys.shared1@ =~= Seq::new(32, |_i: int| 0u8));
                assert(keys.nonce2@ =~= Seq::new(12, |_i: int| 0u8));
                assert(keys.nonce3@ =~= Seq::new(12, |_i: int| 0u8));
                Ok(OnionCircuit {
                    hop1,
                    keys,
                    created_at: now,
                    expires_at: now + CIRCUIT_LIFETIME_SECS,
                    is_active: true,
                    message_count: 0,
                    last_used: now,
                })
            },
        }
    }

    /// `open` with a fresh ephemeral X25519 secret drawn from the operating
    /// system's random source.
    pub fn open_fresh(relay: Option<String>, now: u64) -> (r: Result<OnionCircuit, AbyssError>)
        requires
            now + CIRCUIT_LIFETIME_SECS <= u64::MAX,
        ensures
            relay is None ==> (r matches Err(AbyssError::InsufficientNeighbors(n)) && n == 0),
            relay matches Some(h) ==> (r matches Ok(c) && {
                &&& c.hop1@ == h@
                &&& c.keys.shared1@ == Seq::new(32, |_i: int| 0u8)
                &&& c.keys.nonce2@ == Seq::new(12, |_i: int| 0u8)
                &&& c.keys.nonce3@ == Seq::new(12, |_i: int| 0u8)
                &&& c.created_at == now
                &&& c.expires_at == now + CIRCUIT_LIFETIME_SECS
                &&& c.is_active
                &&& c.message_count == 0
                &&& c.last_used == now
            }),
    {
        let e1 = x25519_random_secret();
        Self::open(relay, e1, now)
    }
}

} // verus!
