//! Joining the DHT: the bootstrap addresses are parsed and checked before
//! they are handed to Kademlia. Each must be a multiaddress that ends in
//! `/p2p/<peer id>`; the first one that is not stops the bootstrap, and the
//! addresses before it are still added.
use vstd::prelude::*;
use crate::primitives::{multiaddr_parsed, parse_multiaddr};

verus! {

pub struct BootstrapManager;

/// Why a bootstrap address was refused.
pub enum BootstrapStop {
    /// The text is no multiaddress; the parser's error text.
    InvalidAddress(String),
    /// The address does not end in a peer id.
    NoPeerId,
}

/// The bootstrap addresses that were accepted, in order, each as the bytes
/// of its peer id and of its multiaddress, and why the next one was refused,
/// if one was.
pub struct BootstrapPlan {
    pub peers: Vec<(Vec<u8>, Vec<u8>)>,
    pub stop: Option<BootstrapStop>,
}

/// `text` is a multiaddress whose bytes are `addr` and that ends in the peer
/// id whose bytes are `peer`.
pub open spec fn accepted(text: Seq<char>, peer: Seq<u8>, addr: Seq<u8>) -> bool {
    multiaddr_parsed(text) == Ok::<(Seq<u8>, Option<Seq<u8>>), Seq<char>>((addr, Some(peer)))
}

/// `stop` says why `text` was refused.
pub open spec fn refused(text: Seq<char>, stop: BootstrapStop) -> bool {
    match stop {
        BootstrapStop::InvalidAddress(e) => multiaddr_parsed(text) == Err::<(Seq<u8>, Option<Seq<u8>>), Seq<char>>(e@),
        BootstrapStop::NoPeerId => multiaddr_parsed(text) matches Ok((_, None)),
    }
}

impl BootstrapManager {
    /// Parses the bootstrap addresses in order, up to the first one that is
    /// no multiaddress or does not end in a peer id.
    pub fn bootstrap_addresses(nodes: &[String]) -> (plan: BootstrapPlan)
        ensures
            plan.peers@.len() <= nodes@.len(),
            plan.stop is None <==> plan.peers@.len() == nodes@.len(),
            forall|i: int| 0 <= i < plan.peers@.len() ==>
                accepted(#[trigger] nodes@[i]@, plan.peers@[i].0@, plan.peers@[i].1@),
            plan.stop matches Some(s) ==> refused(nodes@[plan.peers@.len() as int]@, s),
    {
        let mut peers: Vec<(Vec<u8>, Vec<u8>)> = Vec::new();
        let mut i: usize = 0;
        while i < nodes.len()
            invariant
                i <= nodes@.len(),
                peers@.len() == i,
                forall|k: int| 0 <= k < i ==> accepted(#[trigger] nodes@[k]@, peers@[k].0@, peers@[k].1@),
            decreases nodes@.len() - i,
        {
            match parse_multiaddr(nodes[i].as_str()) {
                Ok((addr, Some(peer))) => {
                    peers.push((peer, addr));
                },
                Ok((_, None)) => {
                    return BootstrapPlan { peers, stop: Some(BootstrapStop::NoPeerId) };
                },
                Err(e) => {
                    return BootstrapPlan { peers, stop: Some(BootstrapStop::InvalidAddress(e)) };
                },
            }
            i = i + 1;
        }
        BootstrapPlan { peers, stop: None }
    }
}

} // verus!
