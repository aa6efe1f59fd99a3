//! Erasure coding of content into signed fragments: the content is padded
//! and cut into ten data shards, five Reed-Solomon parity shards are added,
//! every shard is hashed, the hashes form a Merkle tree, and every hash is
//! signed.
use vstd::prelude::*;
use crate::bytes::{append_bytes, copy_bytes, copy_range, zeros};
use crate::primitives::{blake3_digest, blake3_hash, ed25519_sign, ed25519_signature, rs_after_reconstruct, rs_codec_new, rs_encode, rs_error_text, rs_parity_shards, rs_reconstruct, rs_reconstructible, rs_consistent, rs_empty_shard_text, rs_recovered_shards, shard_views, opt_shard_views, all_present, count_present};
use crate::storage::merkle::{merkle_root, MerkleTree};

verus! {

pub const DATA_SHARDS: usize = 10;
pub const PARITY_SHARDS: usize = 5;
pub const TOTAL_SHARDS: usize = 15;

/// Validity period, in seconds, written into every fragment.
pub const FRAGMENT_TTL: u32 = 86400;

#[derive(Clone, Debug)]
pub struct Fragment {
    pub index: u8,
    pub data: Vec<u8>,
    pub hash: [u8; 32],
    pub root_hash: [u8; 32],
    pub ttl: u32,
    pub signature: Vec<u8>,
    pub shard_index: usize,
}

pub struct Content {
    pub data: Vec<u8>,
    pub metadata: ContentMetadata,
}

pub struct ContentMetadata {
    pub name: String,
    pub description: String,
    pub created_at: u64,
    pub expires_at: u64,
    pub owner: String,
    pub mime_type: String,
    pub tags: Vec<String>,
    pub original_size: usize,
}

/// Rebuilt content carries no metadata but its size: empty texts and tags,
/// zero times.
pub open spec fn bare_metadata(c: Content) -> bool {
    &&& c.metadata.original_size == c.data@.len()
    &&& c.metadata.name@ == Seq::<char>::empty()
    &&& c.metadata.description@ == Seq::<char>::empty()
    &&& c.metadata.owner@ == Seq::<char>::empty()
    &&& c.metadata.mime_type@ == Seq::<char>::empty()
    &&& c.metadata.tags@ == Seq::<String>::empty()
    &&& c.metadata.created_at == 0
    &&& c.metadata.expires_at == 0
}

pub struct Fragmenter;

/// Length of one shard for `n` bytes of content: `n / 10`, rounded up.
pub open spec fn chunk_len(n: nat) -> nat {
    (n + 9) / 10
}

/// The content followed by zero bytes up to ten shard lengths.
pub open spec fn padded(data: Seq<u8>) -> Seq<u8> {
    data + Seq::new((chunk_len(data.len()) * 10 - data.len()) as nat, |_i: int| 0u8)
}

/// The ten data shards: consecutive slices of the padded content.
pub open spec fn data_chunks(data: Seq<u8>) -> Seq<Seq<u8>> {
    let c = chunk_len(data.len());
    Seq::new(10, |i: int| padded(data).subrange(i * c, (i + 1) * c))
}

/// The fifteen shards: data shards, then their parity shards.
pub open spec fn encoded_shards(data: Seq<u8>) -> Seq<Seq<u8>> {
    data_chunks(data) + rs_parity_shards(data_chunks(data), 5)
}

/// `frags` and `root` are what `fragment` gives for `data` and `secret`:
/// fragment `i` carries shard `i` of the encoding (the ten data shards, then
/// the five parity shards), its digest, the Merkle root of all the digests,
/// the fixed validity period and the signature of its digest.
pub open spec fn is_fragmentation(data: Seq<u8>, secret: Seq<u8>, frags: Seq<Fragment>, root: [u8; 32]) -> bool {
    &&& frags.len() == 15
    &&& rs_parity_shards(data_chunks(data), 5).len() == 5
    &&& forall|i: int| 0 <= i < 15 ==> {
        let f = #[trigger] frags[i];
        &&& f.index == i
        &&& f.shard_index == i
        &&& f.data@ == encoded_shards(data)[i]
        &&& f.data@.len() == chunk_len(data.len())
        &&& f.hash@ == blake3_digest(encoded_shards(data)[i])
        &&& f.root_hash == root
        &&& f.ttl == FRAGMENT_TTL
        &&& f.signature@ == ed25519_signature(secret, f.hash@)
    }
    &&& root@ == merkle_root(frags.map_values(|f: Fragment| f.hash))
}

/// `frags` are drawn from the encoding of `data`: each carries, at its shard
/// index, that shard of the encoding, whose fifteen shards are each one
/// chunk long; and together they cover at least ten distinct shards.
pub open spec fn drawn_from(frags: Seq<Fragment>, data: Seq<u8>) -> bool {
    &&& frags.len() >= 10
    &&& forall|j: int| 0 <= j < 15 ==> (#[trigger] encoded_shards(data)[j]).len() == chunk_len(data.len())
    &&& forall|i: int| 0 <= i < frags.len() ==> (#[trigger] frags[i]).shard_index < 15
        && frags[i].data@ == encoded_shards(data)[frags[i].shard_index as int]
    &&& count_present(placed_shards(frags), 15) >= 10
}

/// The fifteen shard slots after placing each fragment's data at its shard
/// index, in order (a later fragment for the same index wins).
pub open spec fn placed_shards(frags: Seq<Fragment>) -> Seq<Option<Seq<u8>>>
    decreases frags.len(),
{
    if frags.len() == 0 {
        Seq::new(15, |_i: int| None)
    } else {
        let f = frags.last();
        placed_shards(frags.drop_last()).update(f.shard_index as int, Some(f.data@))
    }
}

/// The concatenation of the first `n` shards.
pub open spec fn joined(shards: Seq<Seq<u8>>, n: int) -> Seq<u8>
    decreases n,
{
    if n <= 0 {
        Seq::empty()
    } else {
        joined(shards, n - 1) + shards[n - 1]
    }
}

/// `s` without its trailing zero bytes.
pub open spec fn trim_trailing_zeros(s: Seq<u8>) -> Seq<u8>
    decreases s.len(),
{
    if s.len() > 0 && s.last() == 0 {
        trim_trailing_zeros(s.drop_last())
    } else {
        s
    }
}

/// The content bytes that reconstruction yields from `frags`, or `None`
/// when there are fewer than ten fragments or the shards cannot be
/// reconstructed.
pub open spec fn recovered_data(frags: Seq<Fragment>) -> Option<Seq<u8>> {
    let slots = placed_shards(frags);
    if frags.len() < 10 || !rs_reconstructible(slots, 10, 5) {
        None
    } else {
        Some(trim_trailing_zeros(joined(rs_after_reconstruct(slots, 10, 5), 10)))
    }
}

proof fn lemma_chunk_bounds(n: nat, i: int)
    requires
        0 <= i < 10,
    ensures
        0 <= i * chunk_len(n) <= (i + 1) * chunk_len(n) <= chunk_len(n) * 10,
        (i + 1) * chunk_len(n) - i * chunk_len(n) == chunk_len(n),
        chunk_len(n) * 10 >= n,
        chunk_len(n) * 10 <= n + 9,
{
    let c = chunk_len(n);
    assert(0 <= i * c <= (i + 1) * c <= c * 10) by (nonlinear_arith)
        requires 0 <= i < 10, c >= 0;
    assert((i + 1) * c - i * c == c) by (nonlinear_arith);
}

impl Fragmenter {
    /// Cuts `content.data` into fifteen signed fragments and returns them with
    /// the Merkle root of their digests. Empty content cannot be encoded
    /// (its shards would be empty) and gives an error.
    pub fn fragment(content: &Content, keypair: &[u8; 32]) -> (r: Result<(Vec<Fragment>, [u8; 32]), String>)
        requires
            content.data@.len() + DATA_SHARDS <= usize::MAX,
        ensures
            r is Ok <==> content.data@.len() > 0,
            content.data@.len() == 0 ==> (r matches Err(e) && e@ == rs_empty_shard_text()),
            r matches Ok((frags, root)) ==> is_fragmentation(content.data@, keypair@, frags@, root),
    {
        let data = &content.data;
        let n = data.len();
        let chunk_size = (n + DATA_SHARDS - 1) / DATA_SHARDS;
        proof { lemma_chunk_bounds(n as nat, 0); }
        let mut padded_data = copy_bytes(data);
        let pad = zeros(chunk_size * DATA_SHARDS - n);
        append_bytes(&mut padded_data, pad.as_slice());
        assert(padded_data@ == padded(data@));
        let mut shards: Vec<Vec<u8>> = Vec::new();
        let mut i: usize = 0;
        while i < DATA_SHARDS
            invariant
                i <= 10,
                chunk_size == chunk_len(n as nat),
                padded_data@ == padded(data@),
                padded_data@.len() == chunk_size * 10,
                chunk_size * 10 <= n + 9,
                n + 10 <= usize::MAX,
                n == data@.len(),
                shards@.len() == i,
                forall|k: int| 0 <= k < i ==> #[trigger] shards@[k]@ == data_chunks(data@)[k],
            decreases 10 - i,
        {
            proof { lemma_chunk_bounds(n as nat, i as int); }
            let s = copy_range(padded_data.as_slice(), i * chunk_size, (i + 1) * chunk_size);
            shards.push(s);
            i = i + 1;
        }
        let mut j: usize = 0;
        while j < PARITY_SHARDS
            invariant
                j <= 5,
                shards@.len() == 10 + j,
                chunk_size == chunk_len(n as nat),
                n == data@.len(),
                forall|k: int| 0 <= k < 10 ==> #[trigger] shards@[k]@ == data_chunks(data@)[k],
                forall|k: int| 10 <= k < 10 + j ==> #[trigger] shards@[k]@.len() == chunk_size,
            decreases 5 - j,
        {
            shards.push(zeros(chunk_size));
            j = j + 1;
        }
        proof {
            assert forall|k: int| 0 <= k < 15 implies #[trigger] shards@[k]@.len() == chunk_size by {
                if k < 10 {
                    lemma_chunk_bounds(n as nat, k);
                }
            }
            assert(shard_views(shards@).subrange(0, 10) =~= data_chunks(data@));
        }
        let codec = match rs_codec_new(DATA_SHARDS, PARITY_SHARDS) {
            Ok(c) => c,
            Err(e) => { return Err(rs_error_text(&e)); },
        };
        match rs_encode(&codec, &mut shards) {
            Ok(()) => {},
            Err(e) => { return Err(e); },
        }
        assert(shard_views(shards@) == encoded_shards(data@));
        let mut hashes: Vec<[u8; 32]> = Vec::new();
        let mut k: usize = 0;
        while k < TOTAL_SHARDS
            invariant
                k <= 15,
                shards@.len() == 15,
                shard_views(shards@) == encoded_shards(data@),
                hashes@.len() == k,
                forall|m: int| 0 <= m < k ==> #[trigger] hashes@[m]@ == blake3_digest(encoded_shards(data@)[m]),
            decreases 15 - k,
        {
            let h = blake3_hash(shards[k].as_slice());
            assert(shards@[k as int]@ == shard_views(shards@)[k as int]);
            hashes.push(h);
            k = k + 1;
        }
        let tree = MerkleTree::new(hashes.as_slice());
        let root = tree.root();
        let mut fragments: Vec<Fragment> = Vec::new();
        let mut m: usize = 0;
        while m < TOTAL_SHARDS
            invariant
                m <= 15,
                shards@.len() == 15,
                hashes@.len() == 15,
                shard_views(shards@) == encoded_shards(data@),
                forall|q: int| 0 <= q < 15 ==> #[trigger] shards@[q]@.len() == chunk_len(data@.len()),
                forall|q: int| 0 <= q < 15 ==> #[trigger] hashes@[q]@ == blake3_digest(encoded_shards(data@)[q]),
                root@ == merkle_root(hashes@),
                fragments@.len() == m,
                forall|q: int| 0 <= q < m ==> {
                    let f = #[trigger] fragments@[q];
                    &&& f.index == q
                    &&& f.shard_index == q
                    &&& f.data@ == encoded_shards(data@)[q]
                    &&& f.data@.len() == chunk_len(data@.len())
                    &&& f.hash == hashes@[q]
                    &&& f.hash@ == blake3_digest(encoded_shards(data@)[q])
                    &&& f.root_hash == root
                    &&& f.ttl == FRAGMENT_TTL
                    &&& f.signature@ == ed25519_signature(keypair@, f.hash@)
                },
            decreases 15 - m,
        {
            let sig = ed25519_sign(keypair, &hashes[m]);
            let mut sig_bytes: Vec<u8> = Vec::new();
            append_bytes(&mut sig_bytes, &sig);
            assert(sig_bytes@ == sig@);
            assert(shards@[m as int]@ == shard_views(shards@)[m as int]);
            fragments.push(Fragment {
                index: m as u8,
                data: copy_bytes(&shards[m]),
                hash: hashes[m],
                root_hash: root,
                ttl: FRAGMENT_TTL,
                signature: sig_bytes,
                shard_index: m,
            });
            m = m + 1;
        }
        assert(fragments@.map_values(|f: Fragment| f.hash) =~= hashes@);
        Ok((fragments, root))
    }
}

/// Fifteen empty shard slots.
fn empty_slots() -> (slots: Vec<Option<Vec<u8>>>)
    ensures
        slots@.len() == 15,
        opt_shard_views(slots@) == Seq::new(15, |_i: int| None::<Seq<u8>>),
{
    let mut shards: Vec<Option<Vec<u8>>> = Vec::new();
    let mut t: usize = 0;
    while t < TOTAL_SHARDS
        invariant
            t <= 15,
            shards@.len() == t,
            opt_shard_views(shards@) == Seq::new(t as nat, |_i: int| None::<Seq<u8>>),
        decreases 15 - t,
    {
        let ghost before = shards@;
        shards.push(None);
        assert(shards@ == before.push(None));
        t = t + 1;
        assert forall|j: int| 0 <= j < t implies #[trigger] opt_shard_views(shards@)[j] == None::<Seq<u8>> by {
            if j < t - 1 {
                assert(shards@[j] == before[j]);
                assert(opt_shard_views(before)[j] == None::<Seq<u8>>);
            } else {
                assert(shards@[j] is None);
            }
        }
        assert(opt_shard_views(shards@) =~= Seq::new(t as nat, |_i: int| None::<Seq<u8>>));
    }
    shards
}

/// The shard slots with every fragment's data placed at its shard index.
fn place_fragments(fragments: &[Fragment]) -> (slots: Vec<Option<Vec<u8>>>)
    requires
        forall|i: int| 0 <= i < fragments@.len() ==> #[trigger] fragments@[i].shard_index < 15,
    ensures
        slots@.len() == 15,
        opt_shard_views(slots@) == placed_shards(fragments@),
{
    let mut shards = empty_slots();
    assert(opt_shard_views(shards@) =~= placed_shards(fragments@.subrange(0, 0)));
    let mut i: usize = 0;
    while i < fragments.len()
        invariant
            i <= fragments@.len(),
            forall|q: int| 0 <= q < fragments@.len() ==> #[trigger] fragments@[q].shard_index < 15,
            shards@.len() == 15,
            opt_shard_views(shards@) == placed_shards(fragments@.subrange(0, i as int)),
        decreases fragments@.len() - i,
    {
        let ghost before = opt_shard_views(shards@);
        let f = &fragments[i];
        assert(fragments@[i as int].shard_index < 15);
        shards.set(f.shard_index, Some(copy_bytes(&f.data)));
        assert(fragments@.subrange(0, i + 1).drop_last() =~= fragments@.subrange(0, i as int));
        assert(fragments@.subrange(0, i + 1).last() == fragments@[i as int]);
        assert(opt_shard_views(shards@) =~= before.update(f.shard_index as int, Some(f.data@)));
        i = i + 1;
    }
    assert(fragments@.subrange(0, fragments@.len() as int) =~= fragments@);
    shards
}

/// The first ten shards joined, for slots that all hold a shard.
fn join_data_shards(shards: &Vec<Option<Vec<u8>>>) -> (data: Vec<u8>)
    requires
        shards@.len() == 15,
        all_present(opt_shard_views(shards@)),
    ensures
        data@ == joined(opt_shard_views(shards@).map_values(|o: Option<Seq<u8>>| o.unwrap()), 10),
{
    let ghost all = opt_shard_views(shards@).map_values(|o: Option<Seq<u8>>| o.unwrap());
    let mut data: Vec<u8> = Vec::new();
    let mut k: usize = 0;
    while k < DATA_SHARDS
        invariant
            k <= 10,
            shards@.len() == 15,
            all_present(opt_shard_views(shards@)),
            all == opt_shard_views(shards@).map_values(|o: Option<Seq<u8>>| o.unwrap()),
            data@ == joined(all, k as int),
        decreases 10 - k,
    {
        assert(opt_shard_views(shards@)[k as int] is Some);
        match &shards[k] {
            Some(s) => {
                assert(s@ == all[k as int]);
                append_bytes(&mut data, s.as_slice());
            },
            None => {},
        }
        k = k + 1;
    }
    data
}

/// `data` without its trailing zero bytes.
fn trim_zeros(data: &Vec<u8>) -> (out: Vec<u8>)
    ensures
        out@ == trim_trailing_zeros(data@),
{
    let mut end: usize = data.len();
    assert(data@.subrange(0, data@.len() as int) =~= data@);
    while end > 0 && data[end - 1] == 0
        invariant
            end <= data@.len(),
            trim_trailing_zeros(data@) == trim_trailing_zeros(data@.subrange(0, end as int)),
        decreases end,
    {
        assert(data@.subrange(0, end as int).drop_last() =~= data@.subrange(0, end - 1));
        end = end - 1;
    }
    copy_range(data.as_slice(), 0, end)
}

impl Fragmenter {
    /// Rebuilds the content from at least ten fragments: each fragment's
    /// data goes to the slot of its shard index, the missing shards are
    /// reconstructed, the ten data shards are joined and trailing zero bytes
    /// are dropped. The metadata is left empty apart from the size.
    pub fn reconstruct_fragments(fragments: &[Fragment]) -> (r: Result<Content, String>)
        requires
            fragments@.len() >= 10 ==> forall|i: int| 0 <= i < fragments@.len() ==> #[trigger] fragments@[i].shard_index < 15,
        ensures
            r is Ok <==> recovered_data(fragments@) is Some,
            fragments@.len() < 10 ==> (r matches Err(e) && e@ == "Not enough fragments"@),
            r matches Ok(c) ==> c.data@ == recovered_data(fragments@).unwrap() && bare_metadata(c),
            forall|data: Seq<u8>| data.len() > 0 && #[trigger] drawn_from(fragments@, data)
                ==> (r matches Ok(c) && c.data@ == trim_trailing_zeros(data)),
    {
        if fragments.len() < DATA_SHARDS {
            return Err(String::from_str("Not enough fragments"));
        }
        let mut shards = place_fragments(fragments);
        let ghost slots = placed_shards(fragments@);
        let codec = match rs_codec_new(DATA_SHARDS, PARITY_SHARDS) {
            Ok(c) => c,
            Err(e) => { return Err(rs_error_text(&e)); },
        };
        let ghost before = opt_shard_views(shards@);
        match rs_reconstruct(&codec, &mut shards) {
            Ok(()) => {},
            Err(e) => {
                proof {
                    assert forall|data: Seq<u8>| data.len() > 0 && #[trigger] drawn_from(fragments@, data) implies false by {
                        lemma_drawn_reconstructible(fragments@, data);
                    }
                }
                return Err(rs_error_text(&e));
            },
        }
        proof {
            assert(opt_shard_views(shards@).map_values(|o: Option<Seq<u8>>| o.unwrap())
                =~= rs_after_reconstruct(slots, 10, 5));
            assert forall|data: Seq<u8>| data.len() > 0 && #[trigger] drawn_from(fragments@, data) implies
                recovered_data(fragments@) == Some(trim_trailing_zeros(data)) by {
                lemma_drawn_reconstructible(fragments@, data);
                let d = data_chunks(data);
                assert(d.len() == codec.data_count());
                assert(rs_consistent(before, d, codec.parity_count()));
                assert(rs_after_reconstruct(slots, 10, 5) =~= encoded_shards(data));
                lemma_drawn_recovers(fragments@, data);
            }
        }
        let data = join_data_shards(&shards);
        let out = trim_zeros(&data);
        let size = out.len();
        Ok(Content {
            data: out,
            metadata: ContentMetadata {
                name: String::new(),
                description: String::new(),
                created_at: 0,
                expires_at: 0,
                owner: String::new(),
                mime_type: String::new(),
                tags: Vec::new(),
                original_size: size,
            },
        })
    }
}

proof fn lemma_placed_prefix(data: Seq<u8>, frags: Seq<Fragment>, k: int)
    requires
        shards_in_place(data, frags),
        0 <= k <= 15,
    ensures
        placed_shards(frags.subrange(0, k)) == Seq::new(15, |i: int| if i < k { Some(encoded_shards(data)[i]) } else { None }),
    decreases k,
{
    let target = Seq::new(15, |i: int| if i < k { Some(encoded_shards(data)[i]) } else { None });
    if k == 0 {
        assert(frags.subrange(0, 0).len() == 0);
        assert(placed_shards(frags.subrange(0, 0)) =~= target);
    } else {
        lemma_placed_prefix(data, frags, k - 1);
        let pre = frags.subrange(0, k);
        assert(pre.drop_last() =~= frags.subrange(0, k - 1));
        assert(pre.last() == frags[k - 1]);
        let f = frags[k - 1];
        assert(f.shard_index == k - 1);
        assert(placed_shards(pre) =~= target);
    }
}

proof fn lemma_count_all_present(s: Seq<Option<Seq<u8>>>, n: int)
    requires
        0 <= n <= s.len(),
        all_present(s),
    ensures
        count_present(s, n) == n,
    decreases n,
{
    if n > 0 {
        lemma_count_all_present(s, n - 1);
    }
}

/// The first `k` data shards joined are the first `k` chunks of the padded
/// content; all ten joined give the content followed by its zero padding.
#[verifier::spinoff_prover]
pub proof fn lemma_joined_chunks(data: Seq<u8>, k: int)
    requires
        0 <= k <= 10,
    ensures
        joined(data_chunks(data), k) == padded(data).subrange(0, k * chunk_len(data.len())),
    decreases k,
{
    let c = chunk_len(data.len());
    assert(padded(data).len() == c * 10);
    if k == 0 {
        assert(padded(data).subrange(0, 0) =~= Seq::<u8>::empty());
    } else {
        let p = padded(data);
        let d = data_chunks(data);
        lemma_joined_chunks(data, k - 1);
        lemma_chunk_bounds(data.len(), k - 1);
        assert(k * c == (k - 1) * c + c) by (nonlinear_arith);
        assert(((k - 1) + 1) * c == k * c);
        assert(d[k - 1] == p.subrange((k - 1) * c, k * c));
        assert(joined(d, k) == joined(d, k - 1) + d[k - 1]);
        assert(joined(d, k - 1) == p.subrange(0, (k - 1) * c));
        assert(p.subrange(0, (k - 1) * c) + p.subrange((k - 1) * c, k * c) =~= p.subrange(0, k * c));
    }
}

proof fn lemma_trim_zero_suffix(s: Seq<u8>, m: nat)
    ensures
        trim_trailing_zeros(s + Seq::new(m, |_i: int| 0u8)) == trim_trailing_zeros(s),
    decreases m,
{
    if m == 0 {
        assert(s + Seq::new(0, |_i: int| 0u8) =~= s);
    } else {
        let t = s + Seq::new(m, |_i: int| 0u8);
        assert(t.last() == 0u8);
        assert(t.drop_last() =~= s + Seq::new((m - 1) as nat, |_i: int| 0u8));
        lemma_trim_zero_suffix(s, (m - 1) as nat);
    }
}

/// Fifteen fragments, the `i`-th holding shard `i` of the encoding of
/// `data`, each shard one chunk long.
pub open spec fn shards_in_place(data: Seq<u8>, frags: Seq<Fragment>) -> bool {
    &&& frags.len() == 15
    &&& forall|i: int| 0 <= i < 15 ==> {
        &&& (#[trigger] frags[i]).shard_index == i
        &&& frags[i].data@ == encoded_shards(data)[i]
        &&& encoded_shards(data)[i].len() == chunk_len(data.len())
    }
}

/// Fragments that hold every shard of the encoding of non-empty `data` in
/// place rebuild `data`, less its trailing zero bytes.
pub proof fn lemma_recovered_in_place(data: Seq<u8>, frags: Seq<Fragment>)
    requires
        data.len() > 0,
        shards_in_place(data, frags),
    ensures
        recovered_data(frags) == Some(trim_trailing_zeros(data)),
{
    let c = chunk_len(data.len());
    let enc = encoded_shards(data);
    lemma_placed_prefix(data, frags, 15);
    assert(frags.subrange(0, 15) =~= frags);
    let slots = placed_shards(frags);
    assert forall|i: int| 0 <= i < 15 implies #[trigger] slots[i] == Some(enc[i]) by {}
    assert forall|i: int| 0 <= i < 15 implies enc[i].len() == c by {
        assert(frags[i].data@ == enc[i]);
    }
    assert(all_present(slots));
    lemma_count_all_present(slots, 15);
    assert(rs_reconstructible(slots, 10, 5));
    let after = rs_after_reconstruct(slots, 10, 5);
    assert(forall|i: int| 0 <= i < 10 ==> #[trigger] after[i] == data_chunks(data)[i]);
    assert forall|k: int| 0 <= k <= 10 implies #[trigger] joined(after, k) == joined(data_chunks(data), k) by {
        lemma_joined_agree(after, data_chunks(data), k);
    }
    lemma_joined_chunks(data, 10);
    assert(padded(data).subrange(0, (10 * c) as int) =~= padded(data));
    lemma_trim_zero_suffix(data, (c * 10 - data.len()) as nat);
}

/// Round trip: the fragments that `fragment` makes for non-empty content
/// reconstruct to that content, less its trailing zero bytes (which the
/// padding makes indistinguishable).
pub proof fn law_fragment_round_trip(data: Seq<u8>, secret: Seq<u8>, frags: Seq<Fragment>, root: [u8; 32])
    requires
        data.len() > 0,
        is_fragmentation(data, secret, frags, root),
    ensures
        recovered_data(frags) == Some(trim_trailing_zeros(data)),
{
    assert forall|i: int| 0 <= i < 15 implies encoded_shards(data)[i].len() == chunk_len(data.len()) by {
        assert(frags[i].data@ == encoded_shards(data)[i]);
    }
    lemma_recovered_in_place(data, frags);
}

proof fn lemma_joined_agree(a: Seq<Seq<u8>>, b: Seq<Seq<u8>>, k: int)
    requires
        0 <= k <= 10,
        forall|i: int| 0 <= i < 10 ==> #[trigger] a[i] == b[i],
    ensures
        joined(a, k) == joined(b, k),
    decreases k,
{
    if k > 0 {
        lemma_joined_agree(a, b, k - 1);
    }
}

proof fn lemma_placed_consistent(frags: Seq<Fragment>, data: Seq<u8>)
    requires
        forall|i: int| 0 <= i < frags.len() ==> (#[trigger] frags[i]).shard_index < 15
            && frags[i].data@ == encoded_shards(data)[frags[i].shard_index as int],
    ensures
        placed_shards(frags).len() == 15,
        forall|j: int| 0 <= j < 15 && #[trigger] placed_shards(frags)[j] is Some
            ==> placed_shards(frags)[j] == Some(encoded_shards(data)[j]),
    decreases frags.len(),
{
    if frags.len() > 0 {
        let front = frags.drop_last();
        assert forall|i: int| 0 <= i < front.len() implies (#[trigger] front[i]).shard_index < 15
            && front[i].data@ == encoded_shards(data)[front[i].shard_index as int] by {
            assert(front[i] == frags[i]);
        }
        lemma_placed_consistent(front, data);
        let f = frags.last();
        assert(f == frags[frags.len() - 1]);
    }
}

/// Fragments drawn from the encoding of non-empty data can be reconstructed,
/// and their slots hold that encoding's shards.
proof fn lemma_drawn_reconstructible(frags: Seq<Fragment>, data: Seq<u8>)
    requires
        data.len() > 0,
        drawn_from(frags, data),
    ensures
        rs_reconstructible(placed_shards(frags), 10, 5),
        rs_consistent(placed_shards(frags), data_chunks(data), 5),
{
    lemma_placed_consistent(frags, data);
    let slots = placed_shards(frags);
    let c = chunk_len(data.len());
    let d = data_chunks(data);
    let e = encoded_shards(data);
    assert(c > 0);
    assert forall|i: int| 0 <= i < d.len() implies (#[trigger] d[i]).len() == d[0].len() by {
        assert(e[i] == d[i]);
        assert(e[0] == d[0]);
        assert(e[i].len() == c);
        assert(e[0].len() == c);
    }
    assert(e[0] == d[0] && e[0].len() == c);
    assert forall|i: int| 0 <= i < slots.len() && #[trigger] slots[i] is Some implies slots[i].unwrap().len() > 0 by {
        assert(e[i].len() == c);
    }
    assert forall|i: int, j: int| 0 <= i < slots.len() && 0 <= j < slots.len() && #[trigger] slots[i] is Some
        && #[trigger] slots[j] is Some implies slots[i].unwrap().len() == slots[j].unwrap().len() by {
        assert(e[i].len() == c);
        assert(e[j].len() == c);
    }
}

/// Fragments drawn from the encoding of non-empty data whose reconstruction
/// gives back that encoding rebuild the data, less its trailing zero bytes.
proof fn lemma_drawn_recovers(frags: Seq<Fragment>, data: Seq<u8>)
    requires
        data.len() > 0,
        drawn_from(frags, data),
        rs_after_reconstruct(placed_shards(frags), 10, 5) == encoded_shards(data),
    ensures
        recovered_data(frags) == Some(trim_trailing_zeros(data)),
{
    lemma_drawn_reconstructible(frags, data);
    let c = chunk_len(data.len());
    let after = rs_after_reconstruct(placed_shards(frags), 10, 5);
    assert(forall|i: int| 0 <= i < 10 ==> #[trigger] after[i] == data_chunks(data)[i]);
    assert forall|k: int| 0 <= k <= 10 implies #[trigger] joined(after, k) == joined(data_chunks(data), k) by {
        lemma_joined_agree(after, data_chunks(data), k);
    }
    lemma_joined_chunks(data, 10);
    assert(padded(data).subrange(0, (10 * c) as int) =~= padded(data));
    lemma_trim_zero_suffix(data, (c * 10 - data.len()) as nat);
}

/// Any ten or more distinct fragments of a fragmentation are drawn from the
/// encoding of its data, so `reconstruct_fragments` rebuilds the data from
/// them (less its trailing zero bytes).
pub proof fn law_any_ten_fragments_suffice(data: Seq<u8>, secret: Seq<u8>, all: Seq<Fragment>, root: [u8; 32], some: Seq<Fragment>)
    requires
        is_fragmentation(data, secret, all, root),
        forall|i: int| 0 <= i < some.len() ==> exists|j: int| 0 <= j < all.len() && #[trigger] some[i] == all[j],
        some.len() >= 10,
        count_present(placed_shards(some), 15) >= 10,
    ensures
        drawn_from(some, data),
{
    assert forall|j: int| 0 <= j < 15 implies (#[trigger] encoded_shards(data)[j]).len() == chunk_len(data.len()) by {
        assert(all[j].data@ == encoded_shards(data)[j]);
    }
    assert forall|i: int| 0 <= i < some.len() implies (#[trigger] some[i]).shard_index < 15
        && some[i].data@ == encoded_shards(data)[some[i].shard_index as int] by {
        let j = choose|j: int| 0 <= j < all.len() && #[trigger] some[i] == all[j];
        assert(all[j].shard_index == j);
    }
}

} // verus!
