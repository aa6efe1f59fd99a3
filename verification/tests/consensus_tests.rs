use abysses::consensus::chain::{ChainEntry, EntryType, SignedChain};
use abysses::consensus::pow::LightPow;

fn digest(hash: &[u8; 32], nonce: u64) -> [u8; 32] {
    let mut v = hash.to_vec();
    v.extend_from_slice(&nonce.to_le_bytes());
    blake3::hash(&v).into()
}

#[test]
fn pow_difficulty_zero_accepts_anything() {
    let h = [5u8; 32];
    assert!(LightPow::verify(&h, 12345, 0));
    assert_eq!(LightPow::mine(&h, 0), 0);
}

#[test]
fn pow_mine_then_verify() {
    let h = [6u8; 32];
    let n = LightPow::mine(&h, 8);
    assert!(LightPow::verify(&h, n, 8));
    assert_eq!(digest(&h, n)[0], 0);
    for m in 0..n {
        assert_ne!(digest(&h, m)[0], 0);
    }
    // valid at every lower difficulty
    for d in 0..8 {
        assert!(LightPow::verify(&h, n, d));
    }
}

#[test]
fn pow_partial_byte_difficulty() {
    let h = [7u8; 32];
    let n = LightPow::mine(&h, 11);
    let d = digest(&h, n);
    assert_eq!(d[0], 0);
    assert_eq!(d[1] & 0xE0, 0);
    assert!(LightPow::verify(&h, n, 11));
    assert_eq!(LightPow::try_mine(&h, 11), Some(n));
    // a nonce whose digest has a set top bit fails difficulty 1
    let bad = (0..).find(|m| digest(&h, *m)[0] & 0x80 != 0).unwrap();
    assert!(!LightPow::verify(&h, bad, 1));
}

fn entry(t: EntryType) -> ChainEntry {
    ChainEntry {
        parent_hash: [0; 32],
        entry_type: t,
        data: vec![],
        timestamp: 0,
        nonce: 0,
        difficulty: 0,
        signature: [0; 64],
        hash: [0; 32],
    }
}

#[test]
fn chain_resolves_registrations_only() {
    let mut chain = SignedChain::new();
    assert_eq!(chain.resolve("x"), None);
    chain.entries.push(entry(EntryType::NameRegistration {
        name: "home".into(),
        root_hash: [9; 32],
        owner: "me".into(),
        ttl: 10,
    }));
    chain.entries.push(entry(EntryType::NameUpdate { name: "blog".into(), new_root_hash: [8; 32] }));
    chain.name_index.push(("home".into(), 0));
    chain.name_index.push(("blog".into(), 1));
    assert_eq!(chain.resolve("home"), Some([9; 32]));
    assert_eq!(chain.resolve("blog"), None);
    assert_eq!(chain.resolve("other"), None);
}
