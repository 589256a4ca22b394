//! The rendezvous between the callers that ask for a garbage collection
//! and the single collector that serves them.
//!
//! Callers hand in reply channels, named here by numbers; one may wait
//! while the collector works on another. The collector takes one at a
//! time, collects, and answers on it.

use vstd::prelude::*;

verus! {

/// The rendezvous: the reply channel that waits to be taken, and the one
/// whose collection is under way.
#[derive(Clone, Copy, Debug, PartialEq, Eq, Hash, Structural)]
pub struct GcCoordinator {
    pub waiting: Option<u64>,
    pub running: Option<u64>,
}

impl GcCoordinator {
    /// The rendezvous after a caller has handed in `reply`: it waits to be
    /// taken, unless another waits already.
    pub open spec fn after_submit(self, reply: u64) -> GcCoordinator {
        if self.waiting.is_none() {
            GcCoordinator { waiting: Some(reply), ..self }
        } else {
            self
        }
    }

    /// Whether the collector can take a reply channel: one waits, and no
    /// collection is under way.
    pub open spec fn can_take(self) -> bool {
        self.waiting.is_some() && self.running.is_none()
    }

    /// The rendezvous after the collector has tried to take a reply channel.
    pub open spec fn after_take(self) -> GcCoordinator {
        if self.can_take() {
            GcCoordinator { waiting: None, running: self.waiting }
        } else {
            self
        }
    }

    /// Number of requests that the rendezvous holds.
    pub open spec fn held(self) -> nat {
        (if self.waiting.is_some() {
            1nat
        } else {
            0nat
        }) + (if self.running.is_some() {
            1nat
        } else {
            0nat
        })
    }

    /// A rendezvous that holds nothing.
    pub fn new() -> (r: GcCoordinator)
        ensures
            r == (GcCoordinator { waiting: None, running: None }),
    {
        GcCoordinator { waiting: None, running: None }
    }

    /// A caller hands in its reply channel. `false` where another waits
    /// already: the caller has to wait until the collector has taken that
    /// one, and nothing changes.
    pub fn submit(&mut self, reply: u64) -> (accepted: bool)
        ensures
            accepted == old(self).waiting.is_none(),
            *final(self) == old(self).after_submit(reply),
    {
        if self.waiting.is_none() {
            self.waiting = Some(reply);
            true
        } else {
            false
        }
    }

    /// The collector takes the reply channel that waits, where none is
    /// under way, and begins its collection.
    pub fn take(&mut self) -> (taken: Option<u64>)
        ensures
            *final(self) == old(self).after_take(),
            taken == if old(self).can_take() {
                old(self).waiting
            } else {
                None
            },
    {
        if self.waiting.is_some() && self.running.is_none() {
            self.running = self.waiting;
            self.waiting = None;
            self.running
        } else {
            None
        }
    }

    /// The collector has finished: returns the reply channel on which the
    /// result is owed; no collection is under way any more.
    pub fn finish(&mut self) -> (reply: Option<u64>)
        ensures
            reply == old(self).running,
            *final(self) == (GcCoordinator { running: None, ..*old(self) }),
    {
        let reply = self.running;
        self.running = None;
        reply
    }
}

/// A collection begins only when none is under way, so at most one is
/// in flight; and the collector takes exactly what was handed in.
pub proof fn lemma_one_collection_at_a_time(c: GcCoordinator)
    ensures
        c.running.is_some() ==> c.after_take() == c,
        c.can_take() ==> c.after_take().running == c.waiting && c.after_take().waiting.is_none(),
        c.after_take().held() == c.held(),
{
}

/// A request that is handed in is never dropped: it waits until taken,
/// and one that cannot wait yet leaves the rendezvous unchanged.
pub proof fn lemma_submit_keeps_requests(c: GcCoordinator, reply: u64)
    ensures
        c.after_submit(reply).running == c.running,
        c.waiting.is_none() ==> c.after_submit(reply).waiting == Some(reply),
        c.waiting.is_some() ==> c.after_submit(reply) == c,
        c.after_submit(reply).held() <= 2,
{
}

} // verus!
