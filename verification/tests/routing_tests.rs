use abysses::protocol::pheromone::{NeighborState, NeighborTable};
use abysses::search::index::KeywordIndex;
use abysses::simulator::network::{jitter_from_draw, latency_from_draw, link_jitter, node_latency, Walk, MAX_HOPS};

fn ids(v: &[String]) -> Vec<&str> {
    v.iter().map(|s| s.as_str()).collect()
}

#[test]
fn neighbor_table_defaults() {
    let t = NeighborTable::new();
    assert_eq!((t.min_neighbors, t.max_neighbors, t.blacklist_threshold), (20, 200, 5));
    assert!(t.neighbors.is_empty());
    assert!(!t.is_full());
}

#[test]
fn added_neighbors_are_candidates_in_order() {
    let mut t = NeighborTable::new();
    assert!(t.add_neighbor("a".to_string()));
    assert!(t.add_neighbor("b".to_string()));
    assert!(t.add_neighbor("c".to_string()));
    assert!(!t.add_neighbor("b".to_string()));
    assert_eq!(t.neighbors.len(), 3);
    assert_eq!(ids(&t.candidates(&[])), vec!["a", "b", "c"]);
    assert_eq!(ids(&t.candidates(&["b".to_string()])), vec!["a", "c"]);
    assert_eq!(t.get("b"), Some((0, 0, NeighborState::Healthy)));
    assert_eq!(t.get("z"), None);
}

#[test]
fn failures_blacklist_at_threshold() {
    let mut t = NeighborTable::new();
    t.add_neighbor("a".to_string());
    t.add_neighbor("b".to_string());
    for n in 1..5u64 {
        assert!(t.record_failure("a"));
        assert_eq!(t.get("a"), Some((0, n, NeighborState::Healthy)));
    }
    assert!(t.record_failure("a"));
    assert_eq!(t.get("a"), Some((0, 5, NeighborState::Blacklisted)));
    assert_eq!(ids(&t.candidates(&[])), vec!["b"]);
    assert!(!t.record_failure("unknown"));
}

#[test]
fn success_restores_blacklisted_neighbor() {
    let mut t = NeighborTable::new();
    t.add_neighbor("a".to_string());
    for _ in 0..5 {
        t.record_failure("a");
    }
    assert!(t.candidates(&[]).is_empty());
    assert!(t.record_success("a"));
    assert_eq!(t.get("a"), Some((1, 5, NeighborState::Healthy)));
    assert_eq!(ids(&t.candidates(&[])), vec!["a"]);
    assert!(!t.record_success("unknown"));
}

#[test]
fn readding_keeps_counts_and_heals() {
    let mut t = NeighborTable::new();
    t.add_neighbor("a".to_string());
    for _ in 0..6 {
        t.record_failure("a");
    }
    t.record_success("a");
    t.record_failure("a");
    assert_eq!(t.get("a"), Some((1, 7, NeighborState::Blacklisted)));
    assert!(!t.add_neighbor("a".to_string()));
    assert_eq!(t.get("a"), Some((1, 7, NeighborState::Healthy)));
}

#[test]
fn remove_and_full_table() {
    let mut t = NeighborTable::new();
    t.max_neighbors = 2;
    t.add_neighbor("a".to_string());
    assert!(!t.is_full());
    t.add_neighbor("b".to_string());
    assert!(t.is_full());
    assert!(t.remove("a"));
    assert!(!t.remove("a"));
    assert!(!t.is_full());
    assert_eq!(ids(&t.candidates(&[])), vec!["b"]);
}

#[test]
fn walk_forwards_and_sums_latency() {
    let mut w = Walk::start("n0");
    assert_eq!(ids(&w.path), vec!["n0"]);
    assert!(!w.finished());
    w.step(Some((true, 20)), Some(("n1".to_string(), Some((true, 30)))), 5);
    assert_eq!(ids(&w.path), vec!["n0", "n1"]);
    assert_eq!(w.current, "n1");
    assert_eq!(w.total_latency, 55);
    w.step(Some((true, 30)), Some(("n2".to_string(), Some((true, 40)))), 7);
    w.step(Some((true, 40)), Some(("n3".to_string(), Some((true, 10)))), 9);
    assert_eq!(w.hops, MAX_HOPS);
    assert!(w.finished());
    assert!(w.success);
    assert_eq!(w.total_latency, 55 + 77 + 59);
    let m = w.into_message("n0", "n9", 42);
    assert_eq!(m.id, "m42");
    assert_eq!((m.from.as_str(), m.to.as_str()), ("n0", "n9"));
    assert_eq!(ids(&m.path), vec!["n0", "n1", "n2", "n3"]);
    assert!(m.success);
    assert_eq!(m.latency, 191);
}

#[test]
fn walk_fails_without_relay_or_offline() {
    let mut w = Walk::start("n0");
    w.step(Some((true, 20)), None, 5);
    assert!(w.finished());
    assert!(!w.success);
    assert_eq!(ids(&w.path), vec!["n0"]);
    assert_eq!(w.total_latency, 0);

    let mut w = Walk::start("n0");
    w.step(Some((false, 20)), Some(("n1".to_string(), Some((true, 30)))), 5);
    assert!(!w.success);

    let mut w = Walk::start("n0");
    w.step(Some((true, 20)), Some(("n1".to_string(), Some((false, 30)))), 5);
    assert!(!w.success);

    let mut w = Walk::start("n0");
    w.step(Some((true, 20)), Some(("n1".to_string(), None)), 5);
    assert!(!w.success);

    let mut w = Walk::start("n0");
    w.step(None, None, 5);
    assert!(!w.success);
    let m = w.into_message("n0", "n1", 7);
    assert_eq!(m.id, "m7");
    assert!(!m.success);
    assert_eq!(m.latency, 0);
}

#[test]
fn simulated_delays_in_range() {
    for _ in 0..200 {
        let l = node_latency();
        assert!((20..200).contains(&l));
        let j = link_jitter();
        assert!((5..50).contains(&j));
    }
}

#[test]
fn keyword_index_lists_pages_under_keywords() {
    let mut ix = KeywordIndex::new();
    ix.add_page(&"a.abyss".to_string(), &vec!["rust".to_string(), "web".to_string()]);
    ix.add_page(&"b.abyss".to_string(), &vec!["web".to_string()]);
    ix.add_page(&"c.abyss".to_string(), &vec![]);
    assert_eq!(ids(ix.urls("rust").unwrap()), vec!["a.abyss"]);
    assert_eq!(ids(ix.urls("web").unwrap()), vec!["a.abyss", "b.abyss"]);
    assert!(ix.urls("none").is_none());
    assert_eq!(ix.keywords.len(), 2);
}

#[test]
fn keyword_index_repeats_urls() {
    let mut ix = KeywordIndex::new();
    ix.add_page(&"a".to_string(), &vec!["k".to_string(), "k".to_string()]);
    ix.add_url(&"k".to_string(), &"b".to_string());
    assert_eq!(ids(ix.urls("k").unwrap()), vec!["a", "a", "b"]);
}

#[test]
fn delivered_messages_are_counted() {
    let mut ok = Walk::start("a");
    ok.step(Some((true, 1)), Some(("b".to_string(), Some((true, 1)))), 5);
    let mut bad = Walk::start("a");
    bad.step(None, None, 5);
    let msgs = vec![ok.into_message("a", "b", 1), bad.into_message("a", "c", 2)];
    assert_eq!(abysses::simulator::network::count_delivered(&msgs), 1);
    assert_eq!(abysses::simulator::network::count_delivered(&vec![]), 0);
}

#[test]
fn draws_map_to_ranges() {
    assert_eq!(latency_from_draw(0), 20);
    assert_eq!(latency_from_draw(179), 199);
    assert_eq!(latency_from_draw(180), 20);
    assert_eq!(jitter_from_draw(44), 49);
    assert_eq!(jitter_from_draw(45), 5);
}
