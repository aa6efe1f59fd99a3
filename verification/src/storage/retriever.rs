//! Retrieving a site from the fragments held in the cache.
use vstd::prelude::*;
use crate::bytes::copy_bytes;
use crate::storage::cache::{lookup, FragmentView, OrganicCache};
use crate::storage::erasure::{bare_metadata, placed_shards, recovered_data, Content, Fragment, Fragmenter, DATA_SHARDS};

verus! {

/// The erasure-coding fragments that cached fragments stand for: the shard
/// index is the fragment index; no validity period or signature is cached.
pub open spec fn shard_fragments(cached: Seq<FragmentView>) -> Seq<(usize, Seq<u8>)> {
    cached.map_values(|f: FragmentView| (f.index as usize, f.data))
}

/// The erasure fragments rebuilt from cached ones.
pub open spec fn as_erasure_fragments(frags: Seq<Fragment>) -> Seq<(usize, Seq<u8>)> {
    frags.map_values(|f: Fragment| (f.shard_index, f.data@))
}

/// When ten or more fragments are cached under `root`, every one has an
/// index below fifteen.
pub open spec fn cached_indices_valid(entries: Seq<crate::storage::cache::CacheEntry>, root: [u8; 32]) -> bool {
    match lookup(entries, root) {
        Some(fs) => fs.len() >= 10 ==> forall|i: int| 0 <= i < fs.len() ==> (#[trigger] fs[i]).index < 15,
        None => true,
    }
}

proof fn lemma_placed_by_pairs(a: Seq<Fragment>, b: Seq<Fragment>)
    requires
        as_erasure_fragments(a) == as_erasure_fragments(b),
    ensures
        placed_shards(a) == placed_shards(b),
    decreases a.len(),
{
    assert(a.len() == as_erasure_fragments(a).len());
    assert(b.len() == as_erasure_fragments(b).len());
    if a.len() > 0 {
        assert(as_erasure_fragments(a.drop_last()) =~= as_erasure_fragments(a).drop_last());
        assert(as_erasure_fragments(b.drop_last()) =~= as_erasure_fragments(b).drop_last());
        lemma_placed_by_pairs(a.drop_last(), b.drop_last());
        assert(as_erasure_fragments(a)[a.len() - 1] == as_erasure_fragments(b)[b.len() - 1]);
    }
}

/// Rebuilding goes by the shard index and data of each fragment alone.
proof fn lemma_recovered_by_pairs(a: Seq<Fragment>, b: Seq<Fragment>)
    requires
        as_erasure_fragments(a) == as_erasure_fragments(b),
    ensures
        recovered_data(a) == recovered_data(b),
{
    assert(a.len() == as_erasure_fragments(a).len());
    assert(b.len() == as_erasure_fragments(b).len());
    lemma_placed_by_pairs(a, b);
}

pub struct SiteRetriever {
    pub cache: OrganicCache,
}

impl SiteRetriever {
    pub fn new(cache: OrganicCache) -> (r: Self)
        ensures
            r.cache == cache,
    {
        SiteRetriever { cache }
    }

    /// Whether `retrieve` may be called for `root_hash`: fewer than ten
    /// fragments are cached under it, or every one cached has a shard index
    /// below fifteen.
    pub fn can_retrieve(&self, root_hash: &[u8; 32]) -> (b: bool)
        requires
            self.cache.wf(),
        ensures
            b == cached_indices_valid(self.cache.entries(), *root_hash),
    {
        match self.cache.get(root_hash) {
            None => true,
            Some(fragments) => {
                let ghost fs = crate::storage::cache::fragments_view(fragments@);
                if fragments.len() < DATA_SHARDS {
                    return true;
                }
                let mut i: usize = 0;
                while i < fragments.len()
                    invariant
                        i <= fragments@.len(),
                        fs == crate::storage::cache::fragments_view(fragments@),
                        lookup(self.cache.entries(), *root_hash) == Some(fs),
                        fs.len() >= 10,
                        forall|k: int| 0 <= k < i ==> (#[trigger] fs[k]).index < 15,
                    decreases fragments@.len() - i,
                {
                    if fragments[i].index >= 15 {
                        assert(fs[i as int].index >= 15);
                        return false;
                    }
                    i = i + 1;
                }
                true
            },
        }
    }

    /// Rebuilds the content stored under `root_hash` from the cached
    /// fragments. `key` is the publisher's public key; cached fragments carry
    /// no signatures, so it is not consulted.
    pub fn retrieve(&mut self, root_hash: &[u8; 32], key: &[u8; 32]) -> (r: Result<Content, String>)
        requires
            old(self).cache.wf(),
            cached_indices_valid(old(self).cache.entries(), *root_hash),
        ensures
            final(self).cache == old(self).cache,
            match lookup(old(self).cache.entries(), *root_hash) {
                None => r matches Err(e) && e@ == "Not in cache"@,
                Some(fs) => {
                    &&& fs.len() < 10 ==> (r matches Err(e) && e@ == "Not enough fragments"@)
                    &&& fs.len() >= 10 ==> exists|frags: Seq<Fragment>| #[trigger] as_erasure_fragments(frags) == shard_fragments(fs)
                    &&& forall|frags: Seq<Fragment>| #[trigger] as_erasure_fragments(frags) == shard_fragments(fs) ==>
                        match r {
                            Ok(c) => recovered_data(frags) == Some(c.data@) && bare_metadata(c),
                            Err(_) => recovered_data(frags) is None,
                        }
                },
            },
    {
        let fragments = match self.cache.get(root_hash) {
            Some(f) => f,
            None => { return Err(String::from_str("Not in cache")); },
        };
        if fragments.len() < DATA_SHARDS {
            proof {
                let fs = crate::storage::cache::fragments_view(fragments@);
                assert forall|frags: Seq<Fragment>| #[trigger] as_erasure_fragments(frags) == shard_fragments(fs) implies
                    recovered_data(frags) is None by {
                    assert(frags.len() == as_erasure_fragments(frags).len());
                    assert(shard_fragments(fs).len() == fs.len());
                }
            }
            return Err(String::from_str("Not enough fragments"));
        }
        let ghost cached = crate::storage::cache::fragments_view(fragments@);
        assert(lookup(self.cache.entries(), *root_hash) == Some(cached));
        assert(cached_indices_valid(self.cache.entries(), *root_hash));
        assert(forall|k: int| 0 <= k < cached.len() ==> (#[trigger] cached[k]).index < 15);
        let mut shards: Vec<Fragment> = Vec::new();
        let mut i: usize = 0;
        while i < fragments.len()
            invariant
                i <= fragments@.len(),
                cached == crate::storage::cache::fragments_view(fragments@),
                forall|k: int| 0 <= k < cached.len() ==> (#[trigger] cached[k]).index < 15,
                shards@.len() == i,
                forall|k: int| 0 <= k < i ==> (#[trigger] shards@[k]).shard_index == cached[k].index as usize
                    && shards@[k].data@ == cached[k].data && shards@[k].shard_index < 15,
            decreases fragments@.len() - i,
        {
            let f = &fragments[i];
            assert(cached[i as int].index < 15);
            shards.push(Fragment {
                index: f.index,
                data: copy_bytes(&f.data),
                hash: f.hash,
                root_hash: f.root_hash,
                ttl: 0,
                signature: Vec::new(),
                shard_index: f.index as usize,
            });
            i = i + 1;
        }
        assert(as_erasure_fragments(shards@) =~= shard_fragments(cached));
        let r = Fragmenter::reconstruct_fragments(shards.as_slice());
        proof {
            assert forall|frags: Seq<Fragment>| #[trigger] as_erasure_fragments(frags) == shard_fragments(cached) implies
                recovered_data(frags) == recovered_data(shards@) by {
                lemma_recovered_by_pairs(frags, shards@);
            }
        }
        r
    }
}

} // verus!
