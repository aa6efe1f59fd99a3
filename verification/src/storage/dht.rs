//! Keys under which fragments and names are published in the DHT.
use vstd::prelude::*;
use crate::primitives::{hex_encode, hex_lower};

verus! {

/// `abyss:fragment:<hex root>:<two hex digits of the index>`.
pub fn fragment_key(root_hash: &[u8; 32], index: u8) -> (key: String)
    ensures
        key@ == "abyss:fragment:"@ + hex_lower(root_hash@) + ":"@ + hex_lower(seq![index]),
{
    let mut key = String::from_str("abyss:fragment:");
    let root_hex = hex_encode(root_hash);
    key.append(root_hex.as_str());
    key.append(":");
    let index_bytes: [u8; 1] = [index];
    assert(index_bytes@ == seq![index]);
    let index_hex = hex_encode(&index_bytes);
    key.append(index_hex.as_str());
    key
}

/// `abyss:name:<name>`.
pub fn name_key(name: &str) -> (key: String)
    ensures
        key@ == "abyss:name:"@ + name@,
{
    let mut key = String::from_str("abyss:name:");
    key.append(name);
    key
}

pub struct NameRecord {
    pub name: String,
    pub root_hash: [u8; 32],
    pub owner: String,
    pub owner_public_key: Vec<u8>,
    pub created_at: u64,
    pub ttl: u32,
    pub signature: Vec<u8>,
    pub pow_nonce: u64,
    pub pow_difficulty: u8,
}

pub struct DhtStorage {
    pub replication_factor: usize,
}

impl DhtStorage {
    pub fn new(replication_factor: usize) -> (s: Self)
        ensures
            s.replication_factor == replication_factor,
    {
        DhtStorage { replication_factor }
    }
}

/// Different names are published under different keys.
pub proof fn law_name_keys_distinct(a: Seq<char>, b: Seq<char>)
    requires
        a != b,
    ensures
        "abyss:name:"@ + a != "abyss:name:"@ + b,
{
    let p = "abyss:name:"@;
    if p + a == p + b {
        assert(a =~= (p + a).subrange(p.len() as int, (p + a).len() as int));
        assert(b =~= (p + b).subrange(p.len() as int, (p + b).len() as int));
    }
}

} // verus!
