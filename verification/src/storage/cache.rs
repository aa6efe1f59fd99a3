//! A bounded in-memory cache of fragments, grouped by the root hash of the
//! content they belong to. Capacity is counted in whole mebibytes.
use vstd::prelude::*;
use crate::bytes::{copy_bytes, digest_eq};

verus! {

/// One cached fragment.
#[derive(Clone, Debug)]
pub struct Fragment {
    pub index: u8,
    pub data: Vec<u8>,
    pub hash: [u8; 32],
    pub root_hash: [u8; 32],
}

/// What a fragment holds, as plain values.
pub struct FragmentView {
    pub index: u8,
    pub data: Seq<u8>,
    pub hash: Seq<u8>,
    pub root_hash: [u8; 32],
}

impl View for Fragment {
    type V = FragmentView;

    open spec fn view(&self) -> FragmentView {
        FragmentView { index: self.index, data: self.data@, hash: self.hash@, root_hash: self.root_hash }
    }
}

impl Fragment {
    /// A copy of this fragment.
    pub fn duplicate(&self) -> (out: Fragment)
        ensures
            out@ == self@,
    {
        Fragment { index: self.index, data: copy_bytes(&self.data), hash: self.hash, root_hash: self.root_hash }
    }
}

/// The fragments as plain values.
pub open spec fn fragments_view(s: Seq<Fragment>) -> Seq<FragmentView> {
    s.map_values(|f: Fragment| f@)
}

/// Total number of data bytes in a list of fragments.
pub open spec fn total_bytes(s: Seq<FragmentView>) -> nat
    decreases s.len(),
{
    if s.len() == 0 {
        0
    } else {
        total_bytes(s.drop_last()) + s.last().data.len()
    }
}

/// Size of a group of fragments in whole mebibytes (rounded down).
pub open spec fn size_mb(s: Seq<FragmentView>) -> nat {
    total_bytes(s) / 1048576
}

/// A cache entry as plain values: root hash and its fragments.
pub type CacheEntry = ([u8; 32], Seq<FragmentView>);

/// Position of `root` among the entries, if present.
pub open spec fn find_root(entries: Seq<CacheEntry>, root: [u8; 32]) -> Option<int> {
    if exists|i: int| 0 <= i < entries.len() && #[trigger] entries[i].0 == root {
        Some(choose|i: int| 0 <= i < entries.len() && #[trigger] entries[i].0 == root)
    } else {
        None
    }
}

/// The fragments stored under `root`, if any.
pub open spec fn lookup(entries: Seq<CacheEntry>, root: [u8; 32]) -> Option<Seq<FragmentView>> {
    match find_root(entries, root) {
        Some(i) => Some(entries[i].1),
        None => None,
    }
}

/// Drops the oldest entries until `needed` more mebibytes fit under `max`,
/// or nothing is left; gives the remaining entries and the usage after the
/// evictions (usage never drops below zero).
pub open spec fn evict(entries: Seq<CacheEntry>, usage: nat, needed: nat, max: nat) -> (Seq<CacheEntry>, nat)
    decreases entries.len(),
{
    if usage + needed <= max || entries.len() == 0 {
        (entries, usage)
    } else {
        let freed = size_mb(entries[0].1);
        let rest_usage = if usage >= freed { (usage - freed) as nat } else { 0 };
        evict(entries.drop_first(), rest_usage, needed, max)
    }
}

/// Stores `frags` under `root`: an entry already there is replaced in place,
/// a new one goes to the end (the newest).
pub open spec fn upsert(entries: Seq<CacheEntry>, root: [u8; 32], frags: Seq<FragmentView>) -> Seq<CacheEntry> {
    match find_root(entries, root) {
        Some(i) => entries.update(i, (root, frags)),
        None => entries.push((root, frags)),
    }
}

/// Sum of the entry sizes in mebibytes.
pub open spec fn entries_mb(entries: Seq<CacheEntry>) -> nat
    decreases entries.len(),
{
    if entries.len() == 0 {
        0
    } else {
        size_mb(entries[0].1) + entries_mb(entries.drop_first())
    }
}

pub struct OrganicCache {
    pub fragments: Vec<([u8; 32], Vec<Fragment>)>,
    pub max_capacity_mb: usize,
    pub current_usage_mb: usize,
}

impl OrganicCache {
    /// The entries, oldest first, as plain values.
    pub open spec fn entries(&self) -> Seq<CacheEntry> {
        self.fragments@.map_values(|e: ([u8; 32], Vec<Fragment>)| (e.0, fragments_view(e.1@)))
    }

    /// Every root appears once, and every entry's byte count fits a `usize`.
    pub open spec fn wf(&self) -> bool {
        &&& unique_roots(self.entries())
        &&& forall|i: int| 0 <= i < self.entries().len() ==> total_bytes(#[trigger] self.entries()[i].1) <= usize::MAX
    }

    pub fn new(max_capacity_mb: usize) -> (c: Self)
        ensures
            c.wf(),
            c.entries() == Seq::<CacheEntry>::empty(),
            c.max_capacity_mb == max_capacity_mb,
            c.current_usage_mb == 0,
    {
        let c = OrganicCache { fragments: Vec::new(), max_capacity_mb, current_usage_mb: 0 };
        assert(c.entries() =~= Seq::<CacheEntry>::empty());
        c
    }

    fn position(&self, root_hash: &[u8; 32]) -> (pos: Option<usize>)
        requires
            self.wf(),
        ensures
            match pos {
                Some(i) => find_root(self.entries(), *root_hash) == Some(i as int) && i < self.fragments@.len(),
                None => find_root(self.entries(), *root_hash) is None,
            },
    {
        let mut i: usize = 0;
        while i < self.fragments.len()
            invariant
                self.wf(),
                i <= self.fragments@.len(),
                forall|k: int| 0 <= k < i ==> #[trigger] self.entries()[k].0 != *root_hash,
            decreases self.fragments@.len() - i,
        {
            if digest_eq(&self.fragments[i].0, root_hash) {
                assert(self.entries()[i as int].0 == *root_hash);
                let ghost j = choose|j: int| 0 <= j < self.entries().len() && #[trigger] self.entries()[j].0 == *root_hash;
                assert(j == i as int);
                return Some(i);
            }
            i = i + 1;
        }
        None
    }

    /// True when the cache holds at least ten fragments under `root_hash`.
    pub fn has_all(&self, root_hash: &[u8; 32]) -> (b: bool)
        requires
            self.wf(),
        ensures
            b == match lookup(self.entries(), *root_hash) {
                Some(f) => f.len() >= 10,
                None => false,
            },
    {
        match self.position(root_hash) {
            Some(i) => self.fragments[i].1.len() >= 10,
            None => false,
        }
    }

    /// A copy of the fragments stored under `root_hash`.
    pub fn get(&self, root_hash: &[u8; 32]) -> (out: Option<Vec<Fragment>>)
        requires
            self.wf(),
        ensures
            match out {
                Some(v) => lookup(self.entries(), *root_hash) == Some(fragments_view(v@)),
                None => lookup(self.entries(), *root_hash) is None,
            },
    {
        match self.position(root_hash) {
            Some(i) => {
                let src = &self.fragments[i].1;
                let mut out: Vec<Fragment> = Vec::new();
                let mut k: usize = 0;
                while k < src.len()
                    invariant
                        k <= src@.len(),
                        out@.len() == k,
                        fragments_view(out@) == fragments_view(src@).subrange(0, k as int),
                    decreases src@.len() - k,
                {
                    let ghost before = out@;
                    let d = src[k].duplicate();
                    out.push(d);
                    assert(out@ == before.push(d));
                    assert(fragments_view(out@)[k as int] == src@[k as int]@);
                    k = k + 1;
                    assert(fragments_view(out@) =~= fragments_view(src@).subrange(0, k as int));
                }
                assert(fragments_view(src@).subrange(0, src@.len() as int) =~= fragments_view(src@));
                Some(out)
            },
            None => None,
        }
    }
}


/// Totals of prefixes never exceed the total.
pub proof fn lemma_total_bytes_prefix(s: Seq<FragmentView>, i: int)
    requires
        0 <= i <= s.len(),
    ensures
        total_bytes(s.subrange(0, i)) <= total_bytes(s),
    decreases s.len() - i,
{
    if i < s.len() {
        lemma_total_bytes_prefix(s, i + 1);
        assert(s.subrange(0, i + 1).drop_last() =~= s.subrange(0, i));
    } else {
        assert(s.subrange(0, i) =~= s);
    }
}

/// Total number of data bytes in `v`.
pub fn fragments_bytes(v: &Vec<Fragment>) -> (n: usize)
    requires
        total_bytes(fragments_view(v@)) <= usize::MAX,
    ensures
        n == total_bytes(fragments_view(v@)),
{
    let ghost s = fragments_view(v@);
    let mut n: usize = 0;
    let mut i: usize = 0;
    while i < v.len()
        invariant
            s == fragments_view(v@),
            total_bytes(s) <= usize::MAX,
            i <= v@.len(),
            n == total_bytes(s.subrange(0, i as int)),
        decreases v@.len() - i,
    {
        proof {
            lemma_total_bytes_prefix(s, i + 1);
            assert(s.subrange(0, i + 1).drop_last() =~= s.subrange(0, i as int));
        }
        n = n + v[i].data.len();
        i = i + 1;
    }
    assert(s.subrange(0, v@.len() as int) =~= s);
    n
}

impl OrganicCache {
    /// Stores `fragments` under `root_hash`. First the oldest entries are
    /// evicted while the new group does not fit under the capacity (see
    /// `evict`); then the group is stored (see `upsert`) and its size added
    /// to the usage.
    pub fn store(&mut self, root_hash: [u8; 32], fragments: Vec<Fragment>)
        requires
            old(self).wf(),
            total_bytes(fragments_view(fragments@)) <= usize::MAX,
            old(self).current_usage_mb + size_mb(fragments_view(fragments@)) <= usize::MAX,
        ensures
            final(self).wf(),
            final(self).max_capacity_mb == old(self).max_capacity_mb,
            final(self).entries() == upsert(
                evict(old(self).entries(), old(self).current_usage_mb as nat,
                    size_mb(fragments_view(fragments@)), old(self).max_capacity_mb as nat).0,
                root_hash,
                fragments_view(fragments@),
            ),
            final(self).current_usage_mb == evict(old(self).entries(), old(self).current_usage_mb as nat,
                size_mb(fragments_view(fragments@)), old(self).max_capacity_mb as nat).1
                + size_mb(fragments_view(fragments@)),
    {
        let ghost fv = fragments_view(fragments@);
        let needed = fragments_bytes(&fragments) / 1048576;
        let ghost target = evict(self.entries(), self.current_usage_mb as nat, needed as nat, self.max_capacity_mb as nat);
        let ghost start_usage = self.current_usage_mb;
        while self.current_usage_mb + needed > self.max_capacity_mb && self.fragments.len() > 0
            invariant
                self.wf(),
                self.current_usage_mb <= start_usage,
                start_usage + needed <= usize::MAX,
                self.max_capacity_mb == old(self).max_capacity_mb,
                evict(self.entries(), self.current_usage_mb as nat, needed as nat, self.max_capacity_mb as nat) == target,
            decreases self.fragments@.len(),
        {
            let ghost before = self.entries();
            let removed = self.fragments.remove(0);
            assert(self.entries() =~= before.drop_first());
            assert(total_bytes(before[0].1) <= usize::MAX);
            let freed = fragments_bytes(&removed.1) / 1048576;
            self.current_usage_mb = self.current_usage_mb.saturating_sub(freed);
            proof {
                assert forall|i: int, j: int|
                    0 <= i < j < self.entries().len() implies #[trigger] self.entries()[i].0 != #[trigger] self.entries()[j].0 by {
                    assert(self.entries()[i] == before[i + 1]);
                    assert(self.entries()[j] == before[j + 1]);
                }
                assert forall|i: int| 0 <= i < self.entries().len() implies total_bytes(#[trigger] self.entries()[i].1) <= usize::MAX by {
                    assert(self.entries()[i] == before[i + 1]);
                }
            }
        }
        self.current_usage_mb = self.current_usage_mb + needed;
        let ghost kept = self.entries();
        assert(kept == target.0);
        match self.position(&root_hash) {
            Some(i) => {
                self.fragments.set(i, (root_hash, fragments));
                assert(self.entries() =~= kept.update(i as int, (root_hash, fv)));
                proof {
                    assert forall|a: int, b: int|
                        0 <= a < b < self.entries().len() implies #[trigger] self.entries()[a].0 != #[trigger] self.entries()[b].0 by {
                        assert(self.entries()[a].0 == kept[a].0);
                        assert(self.entries()[b].0 == kept[b].0);
                    }
                    assert forall|a: int| 0 <= a < self.entries().len() implies total_bytes(#[trigger] self.entries()[a].1) <= usize::MAX by {
                        if a != i {
                            assert(self.entries()[a] == kept[a]);
                        }
                    }
                }
            },
            None => {
                self.fragments.push((root_hash, fragments));
                assert(self.entries() =~= kept.push((root_hash, fv)));
                proof {
                    assert forall|a: int, b: int|
                        0 <= a < b < self.entries().len() implies #[trigger] self.entries()[a].0 != #[trigger] self.entries()[b].0 by {
                        if b == kept.len() {
                            assert(kept[a].0 != root_hash);
                        } else {
                            assert(self.entries()[a] == kept[a]);
                            assert(self.entries()[b] == kept[b]);
                        }
                    }
                    assert forall|a: int| 0 <= a < self.entries().len() implies total_bytes(#[trigger] self.entries()[a].1) <= usize::MAX by {
                        if a < kept.len() {
                            assert(self.entries()[a] == kept[a]);
                        }
                    }
                }
            },
        }
    }
}

/// No root appears twice.
pub open spec fn unique_roots(entries: Seq<CacheEntry>) -> bool {
    forall|i: int, j: int| 0 <= i < j < entries.len() ==> #[trigger] entries[i].0 != #[trigger] entries[j].0
}

proof fn lemma_evict_suffix(entries: Seq<CacheEntry>, usage: nat, needed: nat, max: nat)
    ensures
        exists|k: int| 0 <= k <= entries.len()
            && #[trigger] evict(entries, usage, needed, max).0 == entries.subrange(k, entries.len() as int),
    decreases entries.len(),
{
    if usage + needed <= max || entries.len() == 0 {
        assert(entries.subrange(0, entries.len() as int) =~= entries);
    } else {
        let freed = size_mb(entries[0].1);
        let rest_usage = if usage >= freed { (usage - freed) as nat } else { 0 };
        lemma_evict_suffix(entries.drop_first(), rest_usage, needed, max);
        let k = choose|k: int| 0 <= k <= entries.drop_first().len()
            && #[trigger] evict(entries.drop_first(), rest_usage, needed, max).0
                == entries.drop_first().subrange(k, entries.drop_first().len() as int);
        assert(entries.drop_first().subrange(k, entries.drop_first().len() as int)
            =~= entries.subrange(k + 1, entries.len() as int));
    }
}

proof fn lemma_unique_suffix(entries: Seq<CacheEntry>, k: int)
    requires
        unique_roots(entries),
        0 <= k <= entries.len(),
    ensures
        unique_roots(entries.subrange(k, entries.len() as int)),
{
    let t = entries.subrange(k, entries.len() as int);
    assert forall|i: int, j: int| 0 <= i < j < t.len() implies #[trigger] t[i].0 != #[trigger] t[j].0 by {
        assert(t[i] == entries[i + k]);
        assert(t[j] == entries[j + k]);
    }
}

proof fn lemma_lookup_upsert(entries: Seq<CacheEntry>, root: [u8; 32], frags: Seq<FragmentView>)
    requires
        unique_roots(entries),
    ensures
        lookup(upsert(entries, root, frags), root) == Some(frags),
{
    let u = upsert(entries, root, frags);
    match find_root(entries, root) {
        Some(i) => {
            assert(u[i].0 == root);
            let j = choose|j: int| 0 <= j < u.len() && #[trigger] u[j].0 == root;
            if j != i {
                assert(u[j] == entries[j]);
                if j < i {
                    assert(entries[j].0 != entries[i].0);
                } else {
                    assert(entries[i].0 != entries[j].0);
                }
            }
        },
        None => {
            assert(u[entries.len() as int].0 == root);
            let j = choose|j: int| 0 <= j < u.len() && #[trigger] u[j].0 == root;
            if j < entries.len() {
                assert(u[j] == entries[j]);
            }
        },
    }
}

/// What storing a group writes is what a later read of its root gives back:
/// after the evictions and the store, looking the root up yields exactly
/// the fragments stored.
pub proof fn law_store_then_lookup(
    entries: Seq<CacheEntry>,
    usage: nat,
    needed: nat,
    max: nat,
    root: [u8; 32],
    frags: Seq<FragmentView>,
)
    requires
        unique_roots(entries),
    ensures
        lookup(upsert(evict(entries, usage, needed, max).0, root, frags), root) == Some(frags),
{
    lemma_evict_suffix(entries, usage, needed, max);
    let k = choose|k: int| 0 <= k <= entries.len()
        && #[trigger] evict(entries, usage, needed, max).0 == entries.subrange(k, entries.len() as int);
    lemma_unique_suffix(entries, k);
    lemma_lookup_upsert(evict(entries, usage, needed, max).0, root, frags);
}

proof fn lemma_evict_consistent(entries: Seq<CacheEntry>, usage: nat, needed: nat, max: nat)
    requires
        usage == entries_mb(entries),
        needed <= max,
    ensures
        evict(entries, usage, needed, max).1 == entries_mb(evict(entries, usage, needed, max).0),
        evict(entries, usage, needed, max).1 + needed <= max,
    decreases entries.len(),
{
    if usage + needed <= max || entries.len() == 0 {
    } else {
        lemma_evict_consistent(entries.drop_first(), (usage - size_mb(entries[0].1)) as nat, needed, max);
    }
}

proof fn lemma_entries_mb_push(entries: Seq<CacheEntry>, e: CacheEntry)
    ensures
        entries_mb(entries.push(e)) == entries_mb(entries) + size_mb(e.1),
    decreases entries.len(),
{
    if entries.len() > 0 {
        lemma_entries_mb_push(entries.drop_first(), e);
        assert(entries.push(e).drop_first() =~= entries.drop_first().push(e));
        assert(entries.push(e)[0] == entries[0]);
    } else {
        assert(entries.push(e).drop_first() =~= Seq::<CacheEntry>::empty());
        assert(entries_mb(Seq::<CacheEntry>::empty()) == 0);
        assert(entries.push(e)[0] == e);
    }
}

/// Capacity accounting: when the usage counter agrees with the entries,
/// the group is new and fits the capacity on its own, a store leaves the
/// counter agreeing with the entries and within the capacity.
pub proof fn law_store_within_capacity(
    entries: Seq<CacheEntry>,
    usage: nat,
    max: nat,
    root: [u8; 32],
    frags: Seq<FragmentView>,
)
    requires
        unique_roots(entries),
        usage == entries_mb(entries),
        lookup(entries, root) is None,
        size_mb(frags) <= max,
    ensures
        ({
            let (kept, left) = evict(entries, usage, size_mb(frags), max);
            &&& left + size_mb(frags) <= max
            &&& left + size_mb(frags) == entries_mb(upsert(kept, root, frags))
        }),
{
    let needed = size_mb(frags);
    lemma_evict_consistent(entries, usage, needed, max);
    lemma_evict_suffix(entries, usage, needed, max);
    let kept = evict(entries, usage, needed, max).0;
    let k = choose|k: int| 0 <= k <= entries.len()
        && #[trigger] evict(entries, usage, needed, max).0 == entries.subrange(k, entries.len() as int);
    if find_root(kept, root) is Some {
        let i = choose|i: int| 0 <= i < kept.len() && #[trigger] kept[i].0 == root;
        assert(kept[i] == entries[i + k]);
        assert(entries[i + k].0 == root);
    }
    lemma_entries_mb_push(kept, (root, frags));
}

} // verus!
