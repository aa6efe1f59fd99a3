use abysses::storage::cache::{Fragment as CachedFragment, OrganicCache};
use abysses::storage::dht::{fragment_key, name_key, DhtStorage};
use abysses::storage::erasure::{Content, ContentMetadata, Fragmenter, DATA_SHARDS, PARITY_SHARDS, TOTAL_SHARDS};
use abysses::storage::merkle::MerkleTree;
use abysses::storage::publisher::SitePublisher;
use abysses::storage::retriever::SiteRetriever;
use abysses::identity::NodeIdentity;
use ed25519_dalek::Verifier;

fn h(parts: &[&[u8]]) -> [u8; 32] {
    let mut v = Vec::new();
    for p in parts {
        v.extend_from_slice(p);
    }
    blake3::hash(&v).into()
}

fn content(data: &[u8]) -> Content {
    Content {
        data: data.to_vec(),
        metadata: ContentMetadata {
            name: String::new(),
            description: String::new(),
            created_at: 0,
            expires_at: 0,
            owner: String::new(),
            mime_type: String::new(),
            tags: vec![],
            original_size: data.len(),
        },
    }
}

#[test]
fn merkle_single_leaf_is_hashed_with_itself() {
    let a = [1u8; 32];
    let t = MerkleTree::new(&[a]);
    assert_eq!(t.leaves, vec![a]);
    assert_eq!(t.root(), h(&[&a, &a]));
}

#[test]
fn merkle_two_and_three_leaves() {
    let a = [1u8; 32];
    let b = [2u8; 32];
    let c = [3u8; 32];
    assert_eq!(MerkleTree::new(&[a, b]).root(), h(&[&a, &b]));
    let ab = h(&[&a, &b]);
    let cc = h(&[&c, &c]);
    assert_eq!(MerkleTree::new(&[a, b, c]).root(), h(&[&ab, &cc]));
}

#[test]
fn merkle_five_leaves() {
    let l: Vec<[u8; 32]> = (0u8..5).map(|i| [i; 32]).collect();
    let l01 = h(&[&l[0], &l[1]]);
    let l23 = h(&[&l[2], &l[3]]);
    let l44 = h(&[&l[4], &l[4]]);
    let a = h(&[&l01, &l23]);
    let b = h(&[&l44, &l44]);
    assert_eq!(MerkleTree::new(&l).root(), h(&[&a, &b]));
}

fn frag(index: u8, len: usize, root: [u8; 32]) -> CachedFragment {
    CachedFragment { index, data: vec![index; len], hash: [index; 32], root_hash: root }
}

#[test]
fn cache_store_then_get() {
    let mut cache = OrganicCache::new(10);
    let root = [7u8; 32];
    assert!(cache.get(&root).is_none());
    assert!(!cache.has_all(&root));
    let frags: Vec<CachedFragment> = (0..10).map(|i| frag(i, 4, root)).collect();
    cache.store(root, frags);
    let got = cache.get(&root).unwrap();
    assert_eq!(got.len(), 10);
    assert_eq!(got[3].index, 3);
    assert_eq!(got[3].data, vec![3u8; 4]);
    assert!(cache.has_all(&root));
    assert_eq!(cache.current_usage_mb, 0);
}

#[test]
fn cache_has_all_needs_ten() {
    let mut cache = OrganicCache::new(10);
    let root = [8u8; 32];
    cache.store(root, (0..9).map(|i| frag(i, 1, root)).collect());
    assert!(!cache.has_all(&root));
}

#[test]
fn cache_evicts_oldest_to_stay_within_capacity() {
    let mib = 1024 * 1024;
    let mut cache = OrganicCache::new(2);
    let r1 = [1u8; 32];
    let r2 = [2u8; 32];
    let r3 = [3u8; 32];
    cache.store(r1, vec![frag(0, mib, r1)]);
    cache.store(r2, vec![frag(0, mib, r2)]);
    assert_eq!(cache.current_usage_mb, 2);
    cache.store(r3, vec![frag(0, mib, r3)]);
    assert_eq!(cache.current_usage_mb, 2);
    assert!(cache.get(&r1).is_none());
    assert!(cache.get(&r2).is_some());
    assert!(cache.get(&r3).is_some());
    assert!(cache.current_usage_mb <= cache.max_capacity_mb);
}

#[test]
fn cache_replacing_a_root_keeps_its_place() {
    let mut cache = OrganicCache::new(100);
    let r1 = [1u8; 32];
    let r2 = [2u8; 32];
    cache.store(r1, vec![frag(0, 1, r1)]);
    cache.store(r2, vec![frag(0, 1, r2)]);
    cache.store(r1, vec![frag(5, 2, r1), frag(6, 2, r1)]);
    assert_eq!(cache.fragments.len(), 2);
    assert_eq!(cache.fragments[0].0, r1);
    assert_eq!(cache.get(&r1).unwrap().len(), 2);
}

#[test]
fn dht_keys() {
    assert_eq!(name_key("home"), "abyss:name:home");
    let mut root = [0u8; 32];
    root[0] = 0xab;
    root[31] = 0x01;
    let expected = format!("abyss:fragment:{}:{:02x}", hex::encode(root), 10u8);
    assert_eq!(fragment_key(&root, 10), expected);
    assert!(fragment_key(&root, 10).ends_with(":0a"));
    assert_eq!(DhtStorage::new(3).replication_factor, 3);
}

#[test]
fn name_keys_of_different_names_differ() {
    assert_ne!(name_key("a"), name_key("b"));
}

#[test]
fn fragment_empty_content_fails() {
    let secret = [9u8; 32];
    assert!(Fragmenter::fragment(&content(&[]), &secret).is_err());
}

#[test]
fn fragment_layout_and_signatures() {
    assert_eq!((DATA_SHARDS, PARITY_SHARDS, TOTAL_SHARDS), (10, 5, 15));
    let secret = [9u8; 32];
    let data = b"hello abyss, this is a page";
    let (frags, root) = Fragmenter::fragment(&content(data), &secret).unwrap();
    assert_eq!(frags.len(), 15);
    let chunk = (data.len() + 9) / 10;
    let mut padded = data.to_vec();
    padded.resize(chunk * 10, 0);
    let vk = ed25519_dalek::SigningKey::from_bytes(&secret).verifying_key();
    let mut hashes = Vec::new();
    for (i, f) in frags.iter().enumerate() {
        assert_eq!(f.index as usize, i);
        assert_eq!(f.shard_index, i);
        assert_eq!(f.ttl, 86400);
        assert_eq!(f.root_hash, root);
        assert_eq!(f.data.len(), chunk);
        if i < 10 {
            assert_eq!(f.data, padded[i * chunk..(i + 1) * chunk].to_vec());
        }
        let digest: [u8; 32] = blake3::hash(&f.data).into();
        assert_eq!(f.hash, digest);
        let sig = ed25519_dalek::Signature::from_slice(&f.signature).unwrap();
        assert!(vk.verify(&f.hash, &sig).is_ok());
        hashes.push(f.hash);
    }
    assert_eq!(MerkleTree::new(&hashes).root(), root);
}

#[test]
fn fragment_round_trip_with_missing_shards() {
    let secret = [4u8; 32];
    let data: Vec<u8> = (0..200u32).map(|i| (i % 251) as u8 + 1).collect();
    let (frags, _root) = Fragmenter::fragment(&content(&data), &secret).unwrap();
    let back = Fragmenter::reconstruct_fragments(&frags).unwrap();
    assert_eq!(back.data, data);
    assert_eq!(back.metadata.original_size, data.len());
    let some: Vec<_> = frags.iter().skip(5).cloned().collect();
    assert_eq!(some.len(), 10);
    let back = Fragmenter::reconstruct_fragments(&some).unwrap();
    assert_eq!(back.data, data);
    assert_eq!(back.metadata.name, "");
}

#[test]
fn reconstruct_drops_trailing_zeros() {
    let secret = [4u8; 32];
    let data = vec![5u8, 0, 6, 0, 0];
    let (frags, _) = Fragmenter::fragment(&content(&data), &secret).unwrap();
    let back = Fragmenter::reconstruct_fragments(&frags).unwrap();
    assert_eq!(back.data, vec![5u8, 0, 6]);
}

#[test]
fn reconstruct_needs_ten_fragments() {
    let secret = [4u8; 32];
    let (frags, _) = Fragmenter::fragment(&content(b"abc"), &secret).unwrap();
    let r = Fragmenter::reconstruct_fragments(&frags[..9]);
    assert_eq!(r.err().unwrap(), "Not enough fragments");
}

#[test]
fn reconstruct_rejects_shards_of_different_sizes() {
    let secret = [4u8; 32];
    let (mut frags, _) = Fragmenter::fragment(&content(&[1u8; 40]), &secret).unwrap();
    frags[0].data.push(1);
    assert!(Fragmenter::reconstruct_fragments(&frags).is_err());
}

#[test]
fn publish_then_retrieve() {
    let id = NodeIdentity::from_secret([3u8; 32]);
    let mut publisher = SitePublisher::new(id, OrganicCache::new(100));
    let page = b"<html>hi</html>";
    let (root, count) = publisher.publish("site", page, "a site").unwrap();
    assert_eq!(count, 15);
    assert!(publisher.cache.has_all(&root));
    let mut retriever = SiteRetriever::new(publisher.cache);
    let got = retriever.retrieve(&root, &[0u8; 32]).unwrap();
    assert_eq!(got.data, page.to_vec());
}

#[test]
fn publish_empty_page_fails() {
    let id = NodeIdentity::from_secret([3u8; 32]);
    let mut publisher = SitePublisher::new(id, OrganicCache::new(100));
    assert!(publisher.publish("site", b"", "").is_err());
    assert_eq!(publisher.cache.fragments.len(), 0);
}

#[test]
fn retrieve_missing_or_short() {
    let mut retriever = SiteRetriever::new(OrganicCache::new(10));
    assert_eq!(retriever.retrieve(&[1u8; 32], &[0u8; 32]).err().unwrap(), "Not in cache");
    let root = [2u8; 32];
    retriever.cache.store(root, (0..3).map(|i| frag(i, 2, root)).collect());
    assert_eq!(retriever.retrieve(&root, &[0u8; 32]).err().unwrap(), "Not enough fragments");
}

#[test]
fn any_ten_fragments_rebuild_content() {
    let secret = [6u8; 32];
    let data: Vec<u8> = (0..137u32).map(|i| (i % 200) as u8 + 3).collect();
    let (frags, _root) = Fragmenter::fragment(&content(&data), &secret).unwrap();
    let picks: [&[usize]; 3] = [
        &[0, 2, 4, 6, 8, 10, 11, 12, 13, 14],
        &[14, 13, 12, 11, 10, 9, 8, 7, 6, 5],
        &[1, 3, 5, 7, 9, 10, 11, 12, 13, 14, 1],
    ];
    for pick in picks {
        let some: Vec<_> = pick.iter().map(|&i| frags[i].clone()).collect();
        let back = Fragmenter::reconstruct_fragments(&some).unwrap();
        assert_eq!(back.data, data);
    }
}

#[test]
fn retrieve_short_with_bad_indices() {
    let mut retriever = SiteRetriever::new(OrganicCache::new(10));
    let root = [3u8; 32];
    retriever.cache.store(root, (0..3).map(|i| frag(200 + i, 2, root)).collect());
    assert_eq!(retriever.retrieve(&root, &[0u8; 32]).err().unwrap(), "Not enough fragments");
}

#[test]
fn can_retrieve_checks_indices() {
    let mut retriever = SiteRetriever::new(OrganicCache::new(10));
    assert!(retriever.can_retrieve(&[9u8; 32]));
    let short = [4u8; 32];
    retriever.cache.store(short, (0..3).map(|i| frag(200 + i, 2, short)).collect());
    assert!(retriever.can_retrieve(&short));
    let bad = [5u8; 32];
    retriever.cache.store(bad, (0..10).map(|i| frag(i * 2, 2, bad)).collect());
    assert!(!retriever.can_retrieve(&bad));
    let good = [6u8; 32];
    retriever.cache.store(good, (0..10).map(|i| frag(i, 2, good)).collect());
    assert!(retriever.can_retrieve(&good));
}

#[test]
fn empty_page_errors_name_the_empty_shard() {
    let secret = [1u8; 32];
    let text = "The first shard provided is of zero length";
    assert_eq!(Fragmenter::fragment(&content(&[]), &secret).err().unwrap(), text);
    let id = abysses::identity::NodeIdentity::from_secret(secret);
    let mut publisher = SitePublisher::new(id, OrganicCache::new(100));
    assert_eq!(publisher.publish("site", b"", "empty").err().unwrap(), text);
}

#[test]
fn last_five_fragments_are_the_parity() {
    let secret = [2u8; 32];
    let data: Vec<u8> = (0..95u32).map(|i| (i * 7 % 256) as u8).collect();
    let (frags, _) = Fragmenter::fragment(&content(&data), &secret).unwrap();
    let mut shards: Vec<Vec<u8>> = frags[..10].iter().map(|f| f.data.clone()).collect();
    for _ in 0..5 {
        shards.push(vec![0u8; shards[0].len()]);
    }
    reed_solomon_erasure::galois_8::ReedSolomon::new(10, 5).unwrap().encode(&mut shards).unwrap();
    for i in 10..15 {
        assert_eq!(frags[i].data, shards[i]);
    }
}
