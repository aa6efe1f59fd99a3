use abysses::cover_traffic::{cover_step, CoverAction, CoverEvent};
use abysses::error::AbyssError;
use abysses::network::bootstrap::{BootstrapManager, BootstrapStop};

const PEER: &str = "12D3KooWD3eckifWpRn9wQpMG9R9hX3sD158z7EqHWmweQAJU5SA";

#[test]
fn bootstrap_accepts_addresses_with_peer_ids() {
    let a = format!("/ip4/127.0.0.1/tcp/4001/p2p/{}", PEER);
    let b = format!("/ip4/10.0.0.2/udp/4001/quic-v1/p2p/{}", PEER);
    let plan = BootstrapManager::bootstrap_addresses(&[a.clone(), b.clone()]);
    assert!(plan.stop.is_none());
    assert_eq!(plan.peers.len(), 2);
    let peer: libp2p::PeerId = PEER.parse().unwrap();
    let addr: libp2p::Multiaddr = a.parse().unwrap();
    assert_eq!(plan.peers[0].0, peer.to_bytes());
    assert_eq!(plan.peers[0].1, addr.to_vec());
}

#[test]
fn bootstrap_stops_at_first_bad_address() {
    let good = format!("/ip4/127.0.0.1/tcp/4001/p2p/{}", PEER);
    let plan = BootstrapManager::bootstrap_addresses(&[good.clone(), "/ip4/127.0.0.1/tcp/4001".to_string(), good.clone()]);
    assert_eq!(plan.peers.len(), 1);
    assert!(matches!(plan.stop, Some(BootstrapStop::NoPeerId)));
    let plan = BootstrapManager::bootstrap_addresses(&["not an address".to_string(), good]);
    assert_eq!(plan.peers.len(), 0);
    match plan.stop {
        Some(BootstrapStop::InvalidAddress(e)) => assert_eq!(e, "invalid multiaddr"),
        _ => panic!("expected an invalid address"),
    }
    let plan = BootstrapManager::bootstrap_addresses(&[]);
    assert!(plan.peers.is_empty() && plan.stop.is_none());
}

#[test]
fn cover_traffic_steps() {
    assert!(matches!(cover_step(CoverEvent::Picked(Some("c1".into()))), CoverAction::Send(ref id) if id == "c1"));
    assert!(matches!(cover_step(CoverEvent::Picked(None)), CoverAction::Build));
    assert!(matches!(cover_step(CoverEvent::Built(Ok("c2".into()))), CoverAction::Send(ref id) if id == "c2"));
    assert!(matches!(cover_step(CoverEvent::Built(Err(AbyssError::NoActiveCircuit))), CoverAction::Skip));
}

#[test]
fn listen_addresses_parse_or_fail_with_addr_error() {
    let bytes = abysses::network::listen_address("/ip4/0.0.0.0/udp/0/quic-v1").ok().unwrap();
    let expected: libp2p::Multiaddr = "/ip4/0.0.0.0/udp/0/quic-v1".parse().unwrap();
    assert_eq!(bytes, expected.to_vec());
    match abysses::network::listen_address("0.0.0.0:4001") {
        Err(AbyssError::Network(m)) => assert_eq!(m, "Addr: invalid multiaddr"),
        _ => panic!("expected an address error"),
    }
}
