use abysses::api::proxy::route_request;
use abysses::api::websocket::{route_client_message, ClientMessage, MessageRoute};
use abysses::circuit::builder::{CircuitKeys, OnionCircuit};
use abysses::circuit::health::{CircuitHealth, CircuitHealthChecker};
use abysses::circuit::manager::CircuitManager;
use abysses::error::AbyssError;
use abysses::identity::{EphemeralIdentity, NodeIdentity};
use abysses::text::decimal_text;
use abysses::types::{NodeConfig, NodeState};
use ed25519_dalek::Verifier;

#[test]
fn node_config_default_ports() {
    let c = NodeConfig::default();
    assert_eq!((c.websocket_port, c.proxy_port), (9000, 8080));
    assert!(NodeState::Online == NodeState::Online);
}

#[test]
fn identity_peer_id_is_hex_public_key() {
    let secret = [11u8; 32];
    let id = NodeIdentity::from_secret(secret);
    let vk = ed25519_dalek::SigningKey::from_bytes(&secret).verifying_key();
    assert_eq!(id.peer_id, hex::encode(vk.to_bytes()));
    assert_eq!(id.peer_id.len(), 64);
    let sig = id.sign(b"msg");
    assert!(vk.verify(b"msg", &ed25519_dalek::Signature::from_bytes(&sig)).is_ok());
    let fresh = NodeIdentity::generate();
    assert_eq!(fresh.peer_id.len(), 64);
}

#[test]
fn ephemeral_identity_lifecycle() {
    let secret = [12u8; 32];
    let mut e = EphemeralIdentity::from_secret_at(secret, 1000);
    let expected = x25519_dalek::PublicKey::from(&x25519_dalek::StaticSecret::from(secret)).to_bytes();
    assert_eq!(e.x25519_public, expected);
    assert_eq!(e.suggested_expires_at, 1600);
    assert!(e.can_expire());
    e.prolong_at(5000);
    assert_eq!(e.suggested_expires_at, 1600);
    e.active_circuits = 2;
    assert!(!e.can_expire());
    e.prolong_at(5000);
    assert_eq!(e.suggested_expires_at, 5600);
    let g = EphemeralIdentity::generate();
    assert_eq!(g.suggested_expires_at, g.created_at + 600);
}

fn circuit(created: u64, last: u64, count: u64) -> OnionCircuit {
    OnionCircuit {
        hop1: "relay".into(),
        keys: CircuitKeys::default(),
        created_at: created,
        expires_at: created + 600,
        is_active: true,
        message_count: count,
        last_used: last,
    }
}

#[test]
fn circuit_open_needs_a_relay() {
    match OnionCircuit::open(None, [1; 32], 10) {
        Err(AbyssError::InsufficientNeighbors(0)) => {}
        _ => panic!("expected InsufficientNeighbors(0)"),
    }
    let c = OnionCircuit::open(Some("r1".into()), [1; 32], 10).ok().unwrap();
    assert_eq!(c.hop1, "r1");
    assert_eq!(c.expires_at, 610);
    assert_eq!(c.last_used, 10);
    assert_eq!(c.message_count, 0);
    assert!(c.is_active);
    assert_eq!(c.keys.shared1, [0; 32]);
}

#[test]
fn circuit_health_rules() {
    let checker = CircuitHealthChecker::default();
    assert_eq!(checker.degraded_latency_threshold, 500);
    assert_eq!(checker.dead_threshold, 5);
    assert_eq!(checker.check_at(&circuit(0, 0, 0), 601), CircuitHealth::Dead);
    assert_eq!(checker.check_at(&circuit(0, 0, 1), 400), CircuitHealth::Degraded);
    assert_eq!(checker.check_at(&circuit(0, 0, 0), 400), CircuitHealth::Healthy);
    assert_eq!(checker.check_at(&circuit(0, 100, 1), 400), CircuitHealth::Healthy);
    assert_eq!(checker.check_at(&circuit(0, 500, 1), 400), CircuitHealth::Healthy);
}

#[test]
fn manager_installs_and_selects() {
    let mut m = CircuitManager::new(CircuitHealthChecker::default(), 2);
    assert_eq!(m.select_existing(100), None);
    let id = m.install(circuit(100, 100, 0));
    assert_eq!(id, "circuit_0");
    assert_eq!(m.active_circuit_id.as_deref(), Some("circuit_0"));
    assert_eq!(m.select_existing(150), Some("circuit_0".to_string()));
    assert!(m.record_send("circuit_0", 160).is_ok());
    assert_eq!(m.circuits[0].1.message_count, 1);
    assert_eq!(m.circuits[0].1.last_used, 160);
    assert!(matches!(m.record_send("nope", 160), Err(AbyssError::NoActiveCircuit)));
    assert_eq!(m.healthy_ids(170), vec!["circuit_0".to_string()]);
    assert_eq!(m.get_random_circuit().is_some(), m.healthy_ids(abysses_now()).len() > 0);
}

fn abysses_now() -> u64 {
    std::time::SystemTime::now().duration_since(std::time::UNIX_EPOCH).unwrap().as_secs()
}

#[test]
fn manager_rotates_worn_circuit_and_makes_room() {
    let mut m = CircuitManager::new(CircuitHealthChecker::default(), 1);
    m.install(circuit(100, 100, 10));
    // ten messages: due for rotation, removed, nothing healthy left
    assert_eq!(m.select_existing(110), None);
    assert_eq!(m.circuits.len(), 0);
    assert!(m.active_circuit_id.is_none());
    m.install(circuit(100, 100, 0));
    m.install(circuit(100, 100, 0));
    assert_eq!(m.circuits.len(), 2);
    assert_eq!(m.circuits[1].0, "circuit_1");
    m.active_circuit_id = None;
    // expired circuits are not selected; the oldest is dropped to make room
    assert_eq!(m.select_existing(1000), None);
    assert_eq!(m.circuits.len(), 1);
    assert_eq!(m.circuits[0].0, "circuit_1");
}

#[test]
fn manager_install_reuses_an_id() {
    let mut m = CircuitManager::new(CircuitHealthChecker::default(), 5);
    m.install(circuit(0, 0, 0));
    m.install(circuit(0, 0, 0));
    m.circuits.remove(0);
    // one circuit held: the new id is circuit_1 again and replaces it
    let id = m.install(circuit(7, 7, 0));
    assert_eq!(id, "circuit_1");
    assert_eq!(m.circuits.len(), 1);
    assert_eq!(m.circuits[0].1.created_at, 7);
}

#[test]
fn proxy_routes() {
    let r = route_request("blog.abyss", "/");
    assert_eq!(r.status, 200);
    assert_eq!(r.content_type.as_deref(), Some("text/html"));
    assert!(r.body.contains("<title>blog - Abysses</title>"));
    assert!(r.body.contains("<h1>blog</h1>"));
    let r = route_request("x.abyss.abyss", "/");
    assert!(r.body.contains("<h1>x</h1>"));
    let r = route_request("example.com", "/health");
    assert_eq!((r.status, r.body.as_str()), (200, "OK"));
    assert!(r.content_type.is_none());
    let r = route_request("example.com", "/");
    assert_eq!(r.status, 403);
    assert_eq!(r.body, "Abysses only serves .abyss domains");
}

#[test]
fn websocket_serves_search_only() {
    match route_client_message(ClientMessage::Search { query: "q".into(), tab_id: 4 }) {
        MessageRoute::Search { query, tab_id } => assert_eq!((query.as_str(), tab_id), ("q", 4)),
        _ => panic!(),
    }
    match route_client_message(ClientMessage::Ping) {
        MessageRoute::Unsupported { code, message } => {
            assert_eq!(code, "NOT_IMPLEMENTED");
            assert_eq!(message, "Feature not yet available via WebSocket");
        }
        _ => panic!(),
    }
}

#[test]
fn decimal_rendering() {
    assert_eq!(decimal_text(0), "0");
    assert_eq!(decimal_text(7), "7");
    assert_eq!(decimal_text(1203), "1203");
    assert_eq!(decimal_text(u64::MAX), u64::MAX.to_string());
}

#[test]
fn prolong_if_needed_uses_clock_only_with_circuits() {
    let mut e = EphemeralIdentity::from_secret_at([3u8; 32], 1000);
    e.prolong_if_needed();
    assert_eq!(e.suggested_expires_at, 1600);
    e.active_circuits = 1;
    let before = std::time::SystemTime::now().duration_since(std::time::UNIX_EPOCH).unwrap().as_secs();
    e.prolong_if_needed();
    let after = std::time::SystemTime::now().duration_since(std::time::UNIX_EPOCH).unwrap().as_secs();
    assert!(e.suggested_expires_at >= before + 600 && e.suggested_expires_at <= after + 600);
    assert_eq!(e.created_at, 1000);
}

#[test]
fn health_check_with_clock() {
    let now = std::time::SystemTime::now().duration_since(std::time::UNIX_EPOCH).unwrap().as_secs();
    let checker = CircuitHealthChecker::default();
    assert_eq!(checker.check(&circuit(now, now, 3)), CircuitHealth::Healthy);
    assert_eq!(checker.check(&circuit(1000, 1000, 0)), CircuitHealth::Dead);
    assert_eq!(checker.check(&circuit(now, now - 1000, 2)), CircuitHealth::Degraded);
}

#[test]
fn pick_healthy_uses_the_draw() {
    let mut m = CircuitManager::new(CircuitHealthChecker::default(), 5);
    assert_eq!(m.pick_healthy(1000, 7), None);
    m.install(circuit(900, 900, 0));
    m.install(circuit(0, 0, 0));
    m.install(circuit(900, 900, 0));
    assert_eq!(m.healthy_ids(1000), vec!["circuit_0".to_string(), "circuit_2".to_string()]);
    assert_eq!(m.pick_healthy(1000, 0), Some("circuit_0".to_string()));
    assert_eq!(m.pick_healthy(1000, 1), Some("circuit_2".to_string()));
    assert_eq!(m.pick_healthy(1000, 5), Some("circuit_2".to_string()));
    assert_eq!(m.pick_healthy(1000, 6), Some("circuit_0".to_string()));
}

#[test]
fn ephemeral_identity_description_hides_secret() {
    let mut e = EphemeralIdentity::from_secret_at([5u8; 32], 1234);
    e.active_circuits = 3;
    let text = e.describe();
    assert_eq!(
        text,
        format!(
            "EphemeralIdentity {{ x25519_public: {:?}, created_at: 1234, active_circuits: 3 }}",
            x25519_dalek::PublicKey::from(e.x25519_public)
        )
    );
    assert!(!text.contains(&hex::encode([5u8; 32])));
}

#[test]
fn open_fresh_circuit() {
    assert!(matches!(OnionCircuit::open_fresh(None, 10), Err(AbyssError::InsufficientNeighbors(0))));
    let c = OnionCircuit::open_fresh(Some("relay".into()), 10).ok().unwrap();
    assert_eq!((c.hop1.as_str(), c.created_at, c.expires_at, c.message_count), ("relay", 10, 610, 0));
    assert!(c.is_active);
}
