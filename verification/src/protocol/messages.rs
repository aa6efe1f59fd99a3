//! Messages exchanged between peers.
use vstd::prelude::*;

verus! {

pub enum NetworkMessage {
    OnionPacket(Vec<u8>),
    CircuitBuild(String),
    FragmentStore(Vec<u8>),
    FragmentRequest(String),
    Heartbeat,
}

pub struct PeerInfo {
    pub peer_id: String,
    pub addresses: Vec<String>,
    pub last_seen: u64,
}

} // verus!
