//! Publishing a site: its page is fragmented, signed and cached.
use vstd::prelude::*;
use crate::bytes::copy_bytes;
use crate::identity::NodeIdentity;
use crate::primitives::unix_time_secs;
use crate::storage::cache::{self, evict, fragments_view, law_store_then_lookup, lookup, size_mb, total_bytes, upsert, FragmentView, OrganicCache};
use crate::storage::erasure::{
    chunk_len, encoded_shards, lemma_recovered_in_place, recovered_data, shards_in_place, trim_trailing_zeros, Content,
    ContentMetadata, Fragment, Fragmenter,
};
use crate::storage::retriever::{as_erasure_fragments, cached_indices_valid, shard_fragments};
use crate::storage::merkle::{leaf_views, merkle_root_of};
use crate::primitives::{blake3_digest, rs_empty_shard_text};

verus! {

/// Seconds for which published content is meant to stay available.
pub const CONTENT_LIFETIME_SECS: u64 = 2592000;

/// The cached form of erasure-coded fragments.
pub open spec fn cache_views(frags: Seq<Fragment>) -> Seq<FragmentView> {
    frags.map_values(|f: Fragment| FragmentView { index: f.index, data: f.data@, hash: f.hash@, root_hash: f.root_hash })
}

/// Bytes that the cache holds for content of `n` bytes: fifteen shards.
pub open spec fn published_bytes(n: nat) -> nat {
    15 * chunk_len(n)
}

proof fn lemma_total_equal_lengths(s: Seq<FragmentView>, c: nat)
    requires
        forall|i: int| 0 <= i < s.len() ==> #[trigger] s[i].data.len() == c,
    ensures
        total_bytes(s) == s.len() * c,
    decreases s.len(),
{
    if s.len() > 0 {
        lemma_total_equal_lengths(s.drop_last(), c);
        assert(s.len() * c == (s.len() - 1) * c + c) by (nonlinear_arith);
    }
}

fn to_cache_fragments(frags: &Vec<Fragment>) -> (out: Vec<cache::Fragment>)
    ensures
        fragments_view(out@) == cache_views(frags@),
{
    let mut out: Vec<cache::Fragment> = Vec::new();
    let mut i: usize = 0;
    while i < frags.len()
        invariant
            i <= frags@.len(),
            out@.len() == i,
            forall|k: int| 0 <= k < i ==> #[trigger] out@[k]@ == cache_views(frags@)[k],
        decreases frags@.len() - i,
    {
        let f = &frags[i];
        out.push(cache::Fragment { index: f.index, data: copy_bytes(&f.data), hash: f.hash, root_hash: f.root_hash });
        i = i + 1;
    }
    assert(fragments_view(out@) =~= cache_views(frags@));
    out
}

/// The fragments that the cache holds for published `data` with root
/// `root`: shard `i`, its digest, the root.
pub open spec fn published_views(data: Seq<u8>, root: [u8; 32]) -> Seq<FragmentView> {
    Seq::new(15, |i: int| FragmentView {
        index: i as u8,
        data: encoded_shards(data)[i],
        hash: blake3_digest(encoded_shards(data)[i]),
        root_hash: root,
    })
}

/// The root hash of published `data`: the Merkle root of its shard digests.
pub open spec fn published_root(data: Seq<u8>) -> Seq<u8> {
    merkle_root_of(Seq::new(15, |i: int| blake3_digest(encoded_shards(data)[i])))
}

/// `after` is `before` once `views` have been stored under `root`: the
/// evictions that make room, then the store, and the usage counted
/// accordingly.
pub open spec fn stored_in(before: OrganicCache, after: OrganicCache, root: [u8; 32], views: Seq<FragmentView>) -> bool {
    let (kept, usage) = evict(before.entries(), before.current_usage_mb as nat,
        size_mb(views), before.max_capacity_mb as nat);
    &&& after.entries() == upsert(kept, root, views)
    &&& after.current_usage_mb == usage + size_mb(views)
    &&& after.max_capacity_mb == before.max_capacity_mb
}

/// `after` is the cache once `html` is published under `root`: the root is
/// that of the page's shards, each shard is one chunk long, and the shards
/// are stored under the root.
pub open spec fn published(before: OrganicCache, after: OrganicCache, html: Seq<u8>, root: [u8; 32]) -> bool {
    &&& root@ == published_root(html)
    &&& forall|i: int| 0 <= i < 15 ==> (#[trigger] encoded_shards(html)[i]).len() == chunk_len(html.len())
    &&& stored_in(before, after, root, published_views(html, root))
}

pub struct SitePublisher {
    pub identity: NodeIdentity,
    pub cache: OrganicCache,
}

impl SitePublisher {
    pub fn new(identity: NodeIdentity, cache: OrganicCache) -> (p: Self)
        ensures
            p.identity == identity,
            p.cache == cache,
    {
        SitePublisher { identity, cache }
    }

    /// Publishes `html` under `name`: the page is fragmented and signed with
    /// the node's key, and the fragments are stored in the cache under their
    /// root hash. Returns the root hash and the number of fragments. Empty
    /// pages cannot be fragmented.
    pub fn publish(&mut self, name: &str, html: &[u8], desc: &str) -> (r: Result<([u8; 32], usize), String>)
        requires
            old(self).cache.wf(),
            html@.len() + 10 <= usize::MAX,
            published_bytes(html@.len()) <= usize::MAX,
            old(self).cache.current_usage_mb + published_bytes(html@.len()) / 1048576 <= usize::MAX,
        ensures
            final(self).identity == old(self).identity,
            final(self).cache.wf(),
            r is Ok <==> html@.len() > 0,
            html@.len() == 0 ==> (r matches Err(e) && e@ == rs_empty_shard_text()),
            r is Err ==> final(self).cache == old(self).cache,
            r matches Ok((root, count)) ==> count == 15,
            r matches Ok((root, count)) ==> published(old(self).cache, final(self).cache, html@, root),
    {
        let clock = unix_time_secs();
        let expires = if clock > u64::MAX - CONTENT_LIFETIME_SECS { u64::MAX } else { clock + CONTENT_LIFETIME_SECS };
        let meta = ContentMetadata {
            name: name.to_owned(),
            description: desc.to_owned(),
            created_at: clock,
            expires_at: expires,
            owner: self.identity.peer_id.clone(),
            mime_type: String::from_str("text/html"),
            tags: Vec::new(),
            original_size: html.len(),
        };
        let mut data: Vec<u8> = Vec::new();
        crate::bytes::append_bytes(&mut data, html);
        assert(data@ =~= html@);
        let content = Content { data, metadata: meta };
        let (fragments, root_hash) = match Fragmenter::fragment(&content, &self.identity.ed25519_keypair) {
            Ok(v) => v,
            Err(e) => { return Err(e); },
        };
        let cached = to_cache_fragments(&fragments);
        proof {
            assert forall|i: int| 0 <= i < cache_views(fragments@).len() implies
                #[trigger] cache_views(fragments@)[i].data.len() == chunk_len(html@.len()) by {
                assert(fragments@[i].data@.len() == chunk_len(html@.len()));
            }
            lemma_total_equal_lengths(cache_views(fragments@), chunk_len(html@.len()));
        }
        let count = fragments.len();
        let ghost before = self.cache;
        assert(before == old(self).cache);
        self.cache.store(root_hash, cached);
        assert(fragments_view(cached@) == cache_views(fragments@));
        assert(count == 15);
        proof {
            assert forall|i: int| 0 <= i < 15 implies (#[trigger] encoded_shards(html@)[i]).len() == chunk_len(html@.len()) by {
                assert(fragments@[i].data@ == encoded_shards(html@)[i]);
            }
            assert(cache_views(fragments@) =~= published_views(html@, root_hash));
            assert(leaf_views(fragments@.map_values(|f: Fragment| f.hash))
                =~= Seq::new(15, |i: int| blake3_digest(encoded_shards(html@)[i])));
        }
        Ok((root_hash, count))
    }
}

/// What is published can be retrieved: after a page is published, the cache
/// holds its fifteen fragments under its root hash, with shard indices in
/// range, and the fragments rebuilt from them give back the page, less its
/// trailing zero bytes.
pub proof fn law_publish_then_retrieve(before: OrganicCache, after: OrganicCache, html: Seq<u8>, root: [u8; 32])
    requires
        before.wf(),
        html.len() > 0,
        published(before, after, html, root),
    ensures
        lookup(after.entries(), root) == Some(published_views(html, root)),
        cached_indices_valid(after.entries(), root),
        forall|frags: Seq<Fragment>| #[trigger] as_erasure_fragments(frags) == shard_fragments(published_views(html, root))
            ==> recovered_data(frags) == Some(trim_trailing_zeros(html)),
{
    let views = published_views(html, root);
    law_store_then_lookup(before.entries(), before.current_usage_mb as nat, size_mb(views),
        before.max_capacity_mb as nat, root, views);
    assert forall|frags: Seq<Fragment>| #[trigger] as_erasure_fragments(frags) == shard_fragments(views)
        implies recovered_data(frags) == Some(trim_trailing_zeros(html)) by {
        assert(frags.len() == as_erasure_fragments(frags).len());
        assert forall|i: int| 0 <= i < 15 implies {
            &&& (#[trigger] frags[i]).shard_index == i
            &&& frags[i].data@ == encoded_shards(html)[i]
            &&& encoded_shards(html)[i].len() == chunk_len(html.len())
        } by {
            assert(as_erasure_fragments(frags)[i] == shard_fragments(views)[i]);
            assert(views[i].index == i as u8);
        }
        assert(shards_in_place(html, frags));
        lemma_recovered_in_place(html, frags);
    }
}

/// The root hash of a published page depends on the page's bytes alone:
/// two publications of the same page, by any publishers, under any names
/// and descriptions and at any times, give the same root.
pub proof fn law_publish_root_depends_on_page(
    before1: OrganicCache,
    after1: OrganicCache,
    before2: OrganicCache,
    after2: OrganicCache,
    html: Seq<u8>,
    root1: [u8; 32],
    root2: [u8; 32],
)
    requires
        published(before1, after1, html, root1),
        published(before2, after2, html, root2),
    ensures
        root1 == root2,
{
    assert(root1@ =~= root2@);
    assert(root1 == root2);
}

} // verus!
