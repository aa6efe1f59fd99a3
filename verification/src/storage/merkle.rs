//! Binary Merkle tree over 32-byte leaves, hashed with BLAKE3.
use vstd::prelude::*;
use crate::bytes::concat_bytes;
use crate::primitives::{blake3_digest, blake3_hash};

verus! {

/// Parent of two nodes: the digest of their concatenation.
pub open spec fn node_hash(left: Seq<u8>, right: Seq<u8>) -> Seq<u8> {
    blake3_digest(left + right)
}

/// One level up: pairs `(2i, 2i+1)` are hashed together; a last node
/// without a partner is paired with itself.
pub open spec fn next_level(level: Seq<Seq<u8>>) -> Seq<Seq<u8>> {
    Seq::new(
        ((level.len() + 1) / 2) as nat,
        |i: int|
            node_hash(
                level[2 * i],
                if 2 * i + 1 < level.len() { level[2 * i + 1] } else { level[2 * i] },
            ),
    )
}

/// Folds levels until a single node is left.
pub open spec fn fold_levels(level: Seq<Seq<u8>>) -> Seq<u8>
    decreases level.len(),
{
    if level.len() <= 1 {
        level[0]
    } else {
        fold_levels(next_level(level))
    }
}

/// The leaves as byte strings.
pub open spec fn leaf_views(leaves: Seq<[u8; 32]>) -> Seq<Seq<u8>> {
    leaves.map_values(|l: [u8; 32]| l@)
}

/// The Merkle root of a non-empty list of leaf digests: an odd list first
/// has its last leaf repeated, then levels are folded up to the root.
pub open spec fn merkle_root_of(base: Seq<Seq<u8>>) -> Seq<u8> {
    if base.len() % 2 == 1 {
        fold_levels(base.push(base.last()))
    } else {
        fold_levels(base)
    }
}

/// The Merkle root of a non-empty list of leaves.
pub open spec fn merkle_root(leaves: Seq<[u8; 32]>) -> Seq<u8> {
    merkle_root_of(leaf_views(leaves))
}

pub struct MerkleTree {
    pub leaves: Vec<[u8; 32]>,
    pub root: [u8; 32],
}

fn copy_leaves(leaves: &[[u8; 32]]) -> (out: Vec<[u8; 32]>)
    ensures
        out@ == leaves@,
{
    let mut out: Vec<[u8; 32]> = Vec::new();
    let mut i: usize = 0;
    while i < leaves.len()
        invariant
            i <= leaves@.len(),
            out@ == leaves@.subrange(0, i as int),
        decreases leaves@.len() - i,
    {
        out.push(leaves[i]);
        i = i + 1;
        assert(leaves@.subrange(0, i as int) == leaves@.subrange(0, (i - 1) as int).push(leaves@[i - 1]));
    }
    assert(leaves@.subrange(0, leaves@.len() as int) == leaves@);
    out
}

/// Computes one level up from `current` (see `next_level`).
fn hash_level(current: &Vec<[u8; 32]>) -> (next: Vec<[u8; 32]>)
    requires
        current@.len() >= 1,
    ensures
        leaf_views(next@) == next_level(leaf_views(current@)),
        next@.len() == (current@.len() + 1) / 2,
{
    let ghost cur = leaf_views(current@);
    let mut next: Vec<[u8; 32]> = Vec::new();
    let mut i: usize = 0;
    while i < current.len()
        invariant
            cur == leaf_views(current@),
            i % 2 == 0 || i == current@.len(),
            i <= current@.len(),
            next@.len() == (i + 1) / 2,
            forall|k: int| 0 <= k < next@.len() ==> #[trigger] next@[k]@ == next_level(cur)[k],
        decreases current@.len() - i,
    {
        let left = current[i];
        if i + 1 < current.len() {
            let right = current[i + 1];
            let joined = concat_bytes(&left, &right);
            let h = blake3_hash(joined.as_slice());
            next.push(h);
            assert(next@[next@.len() - 1]@ == next_level(cur)[(i / 2) as int]);
            i = i + 2;
        } else {
            let joined = concat_bytes(&left, &left);
            let h = blake3_hash(joined.as_slice());
            next.push(h);
            assert(next@[next@.len() - 1]@ == next_level(cur)[(i / 2) as int]);
            i = i + 1;
        }
    }
    assert(leaf_views(next@) =~= next_level(cur));
    next
}

impl MerkleTree {
    /// Builds the tree over `leaves` (which must not be empty: the first
    /// level is indexed, which has no element for an empty list).
    pub fn new(leaves: &[[u8; 32]]) -> (tree: Self)
        requires
            leaves@.len() >= 1,
        ensures
            tree.leaves@ == leaves@,
            tree.root@ == merkle_root(leaves@),
    {
        let mut current = copy_leaves(leaves);
        if current.len() % 2 == 1 {
            let last = current[current.len() - 1];
            current.push(last);
        }
        let ghost base = leaf_views(leaves@);
        assert(leaf_views(current@) == (if base.len() % 2 == 1 { base.push(base.last()) } else { base }));
        while current.len() > 1
            invariant
                current@.len() >= 1,
                fold_levels(leaf_views(current@)) == merkle_root(leaves@),
            decreases current@.len(),
        {
            current = hash_level(&current);
        }
        let root = current[0];
        MerkleTree { leaves: copy_leaves(leaves), root }
    }

    /// The root digest.
    pub fn root(&self) -> (r: [u8; 32])
        ensures
            r == self.root,
    {
        self.root
    }
}

} // verus!
