//! The chain store's head: the one mutable pointer of the chain, moved
//! only to a heavier tipset.

use vstd::prelude::*;

verus! {

/// What the head rule reads of a tipset.
pub ghost struct TipsetView {
    /// Weight of the chain up to the tipset's parents.
    pub parent_weight: u64,
    /// Weight that the tipset itself adds.
    pub weight: u64,
    /// Smallest ticket digest among the tipset's blocks.
    pub min_ticket_digest: Seq<u8>,
}

impl TipsetView {
    /// Weight of the chain that ends in this tipset.
    pub open spec fn chain_weight(self) -> int {
        self.parent_weight + self.weight
    }

    /// Whether this tipset, as a candidate, takes the place of `head`: it
    /// is heavier, or as heavy with a smaller ticket digest.
    pub open spec fn replaces(self, head: TipsetView) -> bool {
        ||| self.chain_weight() > head.chain_weight()
        ||| self.chain_weight() == head.chain_weight() && digest_less(
            self.min_ticket_digest,
            head.min_ticket_digest,
        )
    }
}

/// Lexicographic order on digests: `a` comes strictly before `b`.
pub open spec fn digest_less(a: Seq<u8>, b: Seq<u8>) -> bool
    decreases a.len(),
{
    if b.len() == 0 {
        false
    } else if a.len() == 0 {
        true
    } else if a[0] != b[0] {
        a[0] < b[0]
    } else {
        digest_less(a.drop_first(), b.drop_first())
    }
}

/// The head after each of `candidates` has been offered in turn.
pub open spec fn head_after(head: TipsetView, candidates: Seq<TipsetView>) -> TipsetView
    decreases candidates.len(),
{
    if candidates.len() == 0 {
        head
    } else {
        let before = head_after(head, candidates.drop_last());
        if candidates.last().replaces(before) {
            candidates.last()
        } else {
            before
        }
    }
}

/// Whether digest `a` comes strictly before digest `b`.
pub fn digest_lt(a: &[u8], b: &[u8]) -> (less: bool)
    ensures
        less == digest_less(a@, b@),
{
    let mut i: usize = 0;
    proof {
        assert(a@.skip(0) =~= a@);
        assert(b@.skip(0) =~= b@);
    }
    while i < a.len() && i < b.len()
        invariant
            i <= a@.len(),
            i <= b@.len(),
            digest_less(a@, b@) == digest_less(a@.skip(i as int), b@.skip(i as int)),
        decreases a@.len() - i,
    {
        proof {
            assert(a@.skip(i as int).drop_first() =~= a@.skip(i + 1));
            assert(b@.skip(i as int).drop_first() =~= b@.skip(i + 1));
        }
        if a[i] != b[i] {
            return a[i] < b[i];
        }
        i += 1;
    }
    i < b.len()
}

/// A tipset as the head rule sees it.
#[derive(Debug, PartialEq, Eq)]
pub struct Tipset {
    pub parent_weight: u64,
    pub weight: u64,
    pub min_ticket_digest: Vec<u8>,
}

impl View for Tipset {
    type V = TipsetView;

    open spec fn view(&self) -> TipsetView {
        TipsetView {
            parent_weight: self.parent_weight,
            weight: self.weight,
            min_ticket_digest: self.min_ticket_digest@,
        }
    }
}

impl Tipset {
    /// Whether this candidate takes the place of `head`.
    pub fn replaces(&self, head: &Tipset) -> (r: bool)
        ensures
            r == self@.replaces(head@),
    {
        let mine: u128 = self.parent_weight as u128 + self.weight as u128;
        let theirs: u128 = head.parent_weight as u128 + head.weight as u128;
        if mine != theirs {
            mine > theirs
        } else {
            digest_lt(self.min_ticket_digest.as_slice(), head.min_ticket_digest.as_slice())
        }
    }
}

/// Owner of the head tipset.
#[derive(Debug, PartialEq, Eq)]
pub struct ChainStore {
    head: Tipset,
}

impl View for ChainStore {
    type V = TipsetView;

    closed spec fn view(&self) -> TipsetView {
        self.head@
    }
}

impl ChainStore {
    /// A chain store whose head is `genesis`.
    pub fn new(genesis: Tipset) -> (store: ChainStore)
        ensures
            store@ == genesis@,
    {
        ChainStore { head: genesis }
    }

    /// The current head.
    pub fn head(&self) -> (head: &Tipset)
        ensures
            head@ == self@,
    {
        &self.head
    }

    /// Makes `tipset` the head, whole, and returns the previous head.
    pub fn set_head(&mut self, tipset: Tipset) -> (previous: Tipset)
        ensures
            final(self)@ == tipset@,
            previous@ == old(self)@,
    {
        let mut previous = tipset;
        core::mem::swap(&mut self.head, &mut previous);
        previous
    }

    /// Offers a validated candidate: it becomes the head exactly when it
    /// is heavier than the head, or as heavy with a smaller ticket digest.
    /// Otherwise the head stays as it is. The head never gets lighter.
    pub fn commit(&mut self, candidate: Tipset) -> (accepted: bool)
        ensures
            accepted == candidate@.replaces(old(self)@),
            final(self)@ == head_after(old(self)@, seq![candidate@]),
            final(self)@ == if accepted {
                candidate@
            } else {
                old(self)@
            },
            final(self)@.chain_weight() >= old(self)@.chain_weight(),
    {
        proof {
            let one = seq![candidate@];
            assert(one.drop_last() =~= Seq::<TipsetView>::empty());
            assert(head_after(self@, one.drop_last()) == self@);
            assert(one.last() == candidate@);
        }
        if candidate.replaces(&self.head) {
            self.set_head(candidate);
            true
        } else {
            false
        }
    }
}

/// However many candidates are offered, the head's chain weight never
/// decreases.
pub proof fn lemma_head_weight_monotone(head: TipsetView, candidates: Seq<TipsetView>)
    ensures
        head_after(head, candidates).chain_weight() >= head.chain_weight(),
    decreases candidates.len(),
{
    if candidates.len() > 0 {
        lemma_head_weight_monotone(head, candidates.drop_last());
    }
}

/// The head after a run of candidates is at least as heavy as the head
/// after any shorter run of the same candidates.
pub proof fn lemma_head_weight_monotone_along(
    head: TipsetView,
    candidates: Seq<TipsetView>,
    n: int,
)
    requires
        0 <= n <= candidates.len(),
    ensures
        head_after(head, candidates).chain_weight() >= head_after(
            head,
            candidates.take(n),
        ).chain_weight(),
    decreases candidates.len(),
{
    if n == candidates.len() {
        assert(candidates.take(n) =~= candidates);
    } else {
        lemma_head_weight_monotone_along(head, candidates.drop_last(), n);
        assert(candidates.drop_last().take(n) =~= candidates.take(n));
    }
}

/// No digest comes before itself, so a candidate equal to the head in
/// weight and ticket leaves the head in place.
pub proof fn lemma_digest_less_irreflexive(a: Seq<u8>)
    ensures
        !digest_less(a, a),
    decreases a.len(),
{
    if a.len() > 0 {
        lemma_digest_less_irreflexive(a.drop_first());
    }
}

} // verus!
