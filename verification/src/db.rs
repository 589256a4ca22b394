//! The store of immutable blobs, each kept under the identifier of its
//! content.

use crate::utils::cid::{blake2b256, copy_bytes, same_cid, Cid, CidCborExt, CidView};
use vstd::prelude::*;

verus! {

/// The identifier under which a blob is stored: version 1, DAG-CBOR, and
/// the 256-bit BLAKE2b digest of the blob.
pub open spec fn blob_id(blob: Seq<u8>) -> CidView {
    CidView::v1_dag_cbor_blake2b(blake2b256(blob))
}

/// Every blob lies under the identifier of its own content.
pub open spec fn content_addressed(store: Map<CidView, Seq<u8>>) -> bool {
    forall|id: CidView| #[trigger] store.contains_key(id) ==> id == blob_id(store[id])
}

/// The store after `blob` has been put: nothing changes where its
/// identifier is already present.
pub open spec fn store_after_put(store: Map<CidView, Seq<u8>>, blob: Seq<u8>) -> Map<
    CidView,
    Seq<u8>,
> {
    if store.contains_key(blob_id(blob)) {
        store
    } else {
        store.insert(blob_id(blob), blob)
    }
}

/// Whether `id` is among `marked`.
pub open spec fn is_marked(marked: Seq<Cid>, id: CidView) -> bool {
    exists|j: int| 0 <= j < marked.len() && (#[trigger] marked[j])@ == id
}

/// The identifiers among `marked`, as a set.
pub open spec fn marked_set(marked: Seq<Cid>) -> Set<CidView> {
    Set::new(|id: CidView| is_marked(marked, id))
}

/// Whether `id` is among `marked`.
pub fn contains_cid(marked: &[Cid], id: &Cid) -> (found: bool)
    ensures
        found == is_marked(marked@, id@),
{
    let mut j: usize = 0;
    while j < marked.len()
        invariant
            j <= marked@.len(),
            forall|k: int| 0 <= k < j ==> (#[trigger] marked@[k])@ != id@,
        decreases marked@.len() - j,
    {
        if same_cid(&marked[j], id) {
            return true;
        }
        j += 1;
    }
    false
}

/// A blob store in memory. It stands for a map from identifiers to blobs.
pub struct MemoryDB {
    keys: Vec<Cid>,
    blobs: Vec<Vec<u8>>,
}

impl View for MemoryDB {
    type V = Map<CidView, Seq<u8>>;

    closed spec fn view(&self) -> Map<CidView, Seq<u8>> {
        Map::new(|id: CidView| self.holds(id), |id: CidView| self.blobs[self.index_of(id)]@)
    }
}

impl Default for MemoryDB {
    /// An empty store.
    fn default() -> (store: MemoryDB)
        ensures
            store.wf(),
            store@ == Map::<CidView, Seq<u8>>::empty(),
    {
        MemoryDB::new()
    }
}

impl MemoryDB {
    spec fn holds(self, id: CidView) -> bool {
        exists|i: int| 0 <= i < self.keys.len() && #[trigger] self.keys[i]@ == id
    }

    spec fn index_of(self, id: CidView) -> int {
        choose|i: int| 0 <= i < self.keys.len() && #[trigger] self.keys[i]@ == id
    }

    /// The store is well formed: no identifier is held twice, and every
    /// blob lies under the identifier of its own content.
    pub closed spec fn wf(self) -> bool {
        &&& self.keys.len() == self.blobs.len()
        &&& forall|i: int, j: int|
            0 <= i < j < self.keys.len() ==> #[trigger] self.keys[i]@ != #[trigger] self.keys[j]@
        &&& forall|i: int|
            0 <= i < self.keys.len() ==> #[trigger] self.keys[i]@ == blob_id(self.blobs[i]@)
    }

    /// An empty store.
    pub fn new() -> (store: MemoryDB)
        ensures
            store.wf(),
            store@ == Map::<CidView, Seq<u8>>::empty(),
    {
        let store = MemoryDB { keys: Vec::new(), blobs: Vec::new() };
        assert(store@ =~= Map::<CidView, Seq<u8>>::empty());
        store
    }

    /// Where the blob of `id` lies, if it is present.
    fn find(&self, id: &Cid) -> (at: Option<usize>)
        ensures
            match at {
                Some(i) => i < self.keys.len() && self.keys[i as int]@ == id@,
                None => !self.holds(id@),
            },
    {
        let mut i: usize = 0;
        while i < self.keys.len()
            invariant
                i <= self.keys.len(),
                forall|j: int| 0 <= j < i ==> #[trigger] self.keys[j]@ != id@,
            decreases self.keys.len() - i,
        {
            if same_cid(&self.keys[i], id) {
                return Some(i);
            }
            i += 1;
        }
        None
    }

    /// Whether a blob is stored under `id`.
    pub fn has(&self, id: &Cid) -> (present: bool)
        requires
            self.wf(),
        ensures
            present == self@.contains_key(id@),
            content_addressed(self@),
    {
        proof {
            self.lemma_content_addressed();
        }
        self.find(id).is_some()
    }

    /// The blob stored under `id`, if there is one.
    pub fn get(&self, id: &Cid) -> (blob: Option<Vec<u8>>)
        requires
            self.wf(),
        ensures
            match blob {
                Some(bytes) => self@.contains_key(id@) && bytes@ == self@[id@],
                None => !self@.contains_key(id@),
            },
            content_addressed(self@),
    {
        proof {
            self.lemma_content_addressed();
        }
        match self.find(id) {
            Some(i) => Some(copy_bytes(self.blobs[i].as_slice())),
            None => None,
        }
    }

    /// Stores `blob` under the identifier of its content and returns that
    /// identifier. Where the identifier is already present the store is
    /// left as it is.
    pub fn put(&mut self, blob: &[u8]) -> (id: Cid)
        requires
            old(self).wf(),
        ensures
            final(self).wf(),
            id@ == blob_id(blob@),
            final(self)@ == store_after_put(old(self)@, blob@),
            final(self)@.contains_key(id@),
            content_addressed(final(self)@),
    {
        let id = Cid::from_cbor_blake2b256(blob);
        if self.find(&id).is_none() {
            let ghost before = *self;
            self.keys.push(id.clone());
            self.blobs.push(copy_bytes(blob));
            proof {
                let after = *self;
                let last = before.keys.len() as int;
                assert(after.keys[last]@ == id@);
                assert forall|k: CidView| after.holds(k) <==> (before.holds(k) || k == id@) by {
                    if before.holds(k) {
                        let i = before.index_of(k);
                        assert(after.keys[i]@ == k);
                    }
                    if after.holds(k) && k != id@ {
                        let i = after.index_of(k);
                        assert(before.keys[i]@ == k);
                    }
                }
                assert forall|k: CidView| before.holds(k) implies after.blobs[after.index_of(k)]
                    == before.blobs[before.index_of(k)] by {
                    let i = before.index_of(k);
                    assert(after.keys[i]@ == k);
                    assert(after.holds(k));
                }
                assert(after.holds(id@));
                assert(after.index_of(id@) == last);
                assert(after@ =~= before@.insert(id@, blob@));
            }
        }
        proof {
            assert(self.holds(id@));
            self.lemma_content_addressed();
        }
        id
    }

    /// Collects garbage: copies the blobs whose identifiers are among
    /// `reachable` into a new store and puts it in the place of the old
    /// one. Every stored blob that is reachable stays, unchanged, and
    /// nothing else does.
    pub fn gc(&mut self, reachable: &[Cid])
        requires
            old(self).wf(),
        ensures
            final(self).wf(),
            final(self)@ == old(self)@.restrict(marked_set(reachable@)),
    {
        let mut keys: Vec<Cid> = Vec::new();
        let mut blobs: Vec<Vec<u8>> = Vec::new();
        let ghost mut from: Seq<int> = Seq::empty();
        let mut i: usize = 0;
        while i < self.keys.len()
            invariant
                self.wf(),
                i <= self.keys.len(),
                keys.len() == blobs.len(),
                keys.len() == from.len(),
                forall|n: int|
                    0 <= n < from.len() ==> 0 <= #[trigger] from[n] < i && keys[n]@
                        == self.keys[from[n]]@ && blobs[n]@ == self.blobs[from[n]]@ && is_marked(
                        reachable@,
                        keys[n]@,
                    ),
                forall|a: int, b: int| 0 <= a < b < from.len() ==> from[a] < from[b],
                forall|m: int|
                    0 <= m < i && is_marked(reachable@, (#[trigger] self.keys[m])@) ==> exists|
                        n: int,
                    |
                        0 <= n < from.len() && #[trigger] from[n] == m,
            decreases self.keys.len() - i,
        {
            if contains_cid(reachable, &self.keys[i]) {
                keys.push(self.keys[i].clone());
                blobs.push(copy_bytes(self.blobs[i].as_slice()));
                proof {
                    let ghost before = from;
                    from = from.push(i as int);
                    assert forall|m: int|
                        0 <= m < i + 1 && is_marked(
                            reachable@,
                            (#[trigger] self.keys[m])@,
                        ) implies exists|n: int| 0 <= n < from.len() && #[trigger] from[n] == m by {
                        if m < i {
                            let n = choose|n: int| 0 <= n < before.len() && #[trigger] before[n] == m;
                            assert(from[n] == m);
                        } else {
                            assert(from[before.len() as int] == m);
                        }
                    }
                }
            }
            i += 1;
        }
        let kept = MemoryDB { keys, blobs };
        proof {
            let old_store = *self;
            assert forall|a: int, b: int| 0 <= a < b < kept.keys.len() implies #[trigger] kept.keys[a]@
                != #[trigger] kept.keys[b]@ by {
                assert(from[a] < from[b]);
                assert(old_store.keys[from[a]]@ != old_store.keys[from[b]]@);
            }
            assert forall|n: int| 0 <= n < kept.keys.len() implies #[trigger] kept.keys[n]@
                == blob_id(kept.blobs[n]@) by {
                assert(kept.keys[n]@ == old_store.keys[from[n]]@);
            }
            assert(kept.wf());
            let wanted = old_store@.restrict(marked_set(reachable@));
            assert forall|k: CidView| kept.holds(k) <==> (old_store.holds(k) && is_marked(
                reachable@,
                k,
            )) by {
                if kept.holds(k) {
                    let n = kept.index_of(k);
                    assert(old_store.keys[from[n]]@ == k);
                }
                if old_store.holds(k) && is_marked(reachable@, k) {
                    let m = old_store.index_of(k);
                    let n = choose|n: int| 0 <= n < from.len() && #[trigger] from[n] == m;
                    assert(kept.keys[n]@ == k);
                }
            }
            assert forall|k: CidView| kept.holds(k) implies kept.blobs[kept.index_of(k)]@
                == old_store.blobs[old_store.index_of(k)]@ by {
                let n = kept.index_of(k);
                let m = from[n];
                assert(old_store.keys[m]@ == k);
                assert(old_store.holds(k));
                let c = old_store.index_of(k);
                assert(c == m) by {
                    if c < m {
                        assert(old_store.keys[c]@ != old_store.keys[m]@);
                    } else if m < c {
                        assert(old_store.keys[m]@ != old_store.keys[c]@);
                    }
                }
            }
            assert(kept@ =~= wanted);
        }
        *self = kept;
    }

    /// In a well-formed store every blob lies under the identifier of its
    /// own content.
    pub proof fn lemma_content_addressed(self)
        requires
            self.wf(),
        ensures
            content_addressed(self@),
    {
        assert forall|k: CidView| #[trigger] self@.contains_key(k) implies k == blob_id(
            self@[k],
        ) by {
            let i = self.index_of(k);
        }
    }
}

/// A blob that has just been put is what the store holds under its
/// identifier, unless the store already held another blob with the same
/// digest.
pub proof fn lemma_get_after_put(store: Map<CidView, Seq<u8>>, blob: Seq<u8>)
    requires
        content_addressed(store),
        forall|id: CidView| #[trigger]
            store.contains_key(id) && blake2b256(store[id]) == blake2b256(blob) ==> store[id]
                == blob,
    ensures
        store_after_put(store, blob).contains_key(blob_id(blob)),
        store_after_put(store, blob)[blob_id(blob)] == blob,
        content_addressed(store_after_put(store, blob)),
{
}

/// After a collection every reachable blob that was stored is still
/// stored, unchanged, and nothing has appeared that was not stored.
pub proof fn lemma_gc_keeps_reachable(
    store: Map<CidView, Seq<u8>>,
    reachable: Set<CidView>,
    id: CidView,
)
    ensures
        store.contains_key(id) && reachable.contains(id) ==> store.restrict(reachable).contains_key(
            id,
        ) && store.restrict(reachable)[id] == store[id],
        store.restrict(reachable).contains_key(id) ==> store.contains_key(id) && reachable.contains(
            id,
        ),
        content_addressed(store) ==> content_addressed(store.restrict(reachable)),
{
}

/// Putting a blob again changes nothing.
pub proof fn lemma_put_idempotent(store: Map<CidView, Seq<u8>>, blob: Seq<u8>)
    ensures
        store_after_put(store_after_put(store, blob), blob) == store_after_put(store, blob),
{
}

/// Putting a blob takes nothing away: what was stored stays as it was.
pub proof fn lemma_put_keeps(store: Map<CidView, Seq<u8>>, blob: Seq<u8>, id: CidView)
    requires
        store.contains_key(id),
    ensures
        store_after_put(store, blob).contains_key(id),
        store_after_put(store, blob)[id] == store[id],
{
}

} // verus!
