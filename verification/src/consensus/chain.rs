//! The signed name chain: name registrations, updates and revocations, with
//! an index from names to entries.
use vstd::prelude::*;

verus! {

pub struct ChainEntry {
    pub parent_hash: [u8; 32],
    pub entry_type: EntryType,
    pub data: Vec<u8>,
    pub timestamp: u64,
    pub nonce: u64,
    pub difficulty: u8,
    pub signature: [u8; 64],
    pub hash: [u8; 32],
}

pub enum EntryType {
    NameRegistration { name: String, root_hash: [u8; 32], owner: String, ttl: u32 },
    NameUpdate { name: String, new_root_hash: [u8; 32] },
    NameRevocation { name: String },
}

/// The chain; `name_index` maps each indexed name to the position of its
/// entry (one pair per name).
pub struct SignedChain {
    pub entries: Vec<ChainEntry>,
    pub name_index: Vec<(String, usize)>,
}

/// The name index as a map from names to entry positions.
pub open spec fn index_map(index: Seq<(String, usize)>) -> Map<Seq<char>, usize> {
    Map::new(
        |n: Seq<char>| exists|i: int| 0 <= i < index.len() && #[trigger] index[i].0@ == n,
        |n: Seq<char>| index[choose|i: int| 0 <= i < index.len() && #[trigger] index[i].0@ == n].1,
    )
}

/// The root hash that an entry registers, if it is a registration.
pub open spec fn registered_root(entry: ChainEntry) -> Option<[u8; 32]> {
    match entry.entry_type {
        EntryType::NameRegistration { root_hash, .. } => Some(root_hash),
        _ => None,
    }
}

impl SignedChain {
    /// Every name is indexed once and points at an existing entry.
    pub open spec fn wf(&self) -> bool {
        &&& forall|i: int, j: int|
            0 <= i < j < self.name_index@.len() ==> #[trigger] self.name_index@[i].0@ != #[trigger] self.name_index@[j].0@
        &&& forall|i: int| 0 <= i < self.name_index@.len() ==> #[trigger] self.name_index@[i].1 < self.entries@.len()
    }

    /// The index as a map from names to entry positions.
    pub open spec fn index(&self) -> Map<Seq<char>, usize> {
        index_map(self.name_index@)
    }

    pub fn new() -> (c: Self)
        ensures
            c.wf(),
            c.entries@.len() == 0,
            c.index() == Map::<Seq<char>, usize>::empty(),
    {
        let c = SignedChain { entries: Vec::new(), name_index: Vec::new() };
        assert(c.index() =~= Map::<Seq<char>, usize>::empty());
        c
    }

    /// The root hash registered under `name`: the indexed entry's root hash
    /// when that entry is a registration, otherwise nothing.
    pub fn resolve(&self, name: &str) -> (r: Option<[u8; 32]>)
        requires
            self.wf(),
        ensures
            r == (if self.index().contains_key(name@) {
                registered_root(self.entries@[self.index()[name@] as int])
            } else {
                None
            }),
    {
        let wanted = name.to_owned();
        let mut i: usize = 0;
        while i < self.name_index.len()
            invariant
                self.wf(),
                wanted@ == name@,
                i <= self.name_index@.len(),
                forall|k: int| 0 <= k < i ==> #[trigger] self.name_index@[k].0@ != name@,
            decreases self.name_index@.len() - i,
        {
            if self.name_index[i].0 == wanted {
                let idx = self.name_index[i].1;
                proof {
                    assert(self.name_index@[i as int].0@ == name@);
                    let j = choose|j: int| 0 <= j < self.name_index@.len() && #[trigger] self.name_index@[j].0@ == name@;
                    if j != i {
                        if j < i {
                            assert(self.name_index@[j].0@ != name@);
                        } else {
                            assert(self.name_index@[i as int].0@ != self.name_index@[j].0@);
                        }
                    }
                    assert(self.index()[name@] == idx);
                }
                return match &self.entries[idx].entry_type {
                    EntryType::NameRegistration { root_hash, .. } => Some(*root_hash),
                    _ => None,
                };
            }
            i = i + 1;
        }
        None
    }
}

} // verus!
