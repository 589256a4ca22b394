//! The decisions of chain synchronization.
//!
//! A candidate head goes through header fetch, header validation, message
//! fetch, message validation and state evaluation before it is committed.
//! [`Syncer::step`] says, for what has just happened, where the
//! synchronization stands next and what is to be done; whoever drives it
//! does the fetching, the validating and the evaluating. The head moves
//! in one place only, at commit, and never to a lighter tipset.

use crate::chain::{head_after, ChainStore, Tipset, TipsetView};
use vstd::prelude::*;

verus! {

/// Where the synchronization stands.
#[derive(Clone, Copy, Debug, PartialEq, Eq, Hash, Structural)]
pub enum SyncState {
    Idle,
    HeaderFetch,
    HeaderValidate,
    MessageFetch,
    MessageValidate,
    StateEvaluate,
    Commit,
}

/// What has just happened to the work of the current state.
#[derive(Clone, Copy, Debug, PartialEq, Eq, Hash, Structural)]
pub enum SyncEvent {
    /// The work succeeded.
    Done,
    /// A peer timed out or sent bad data.
    PeerFailed,
    /// What was fetched or evaluated is not valid.
    Invalid,
    /// The synchronization is called off.
    Cancelled,
}

/// Kind of the error that ends a candidate.
#[derive(Clone, Copy, Debug, PartialEq, Eq, Hash, Structural)]
pub enum ErrorKind {
    /// Peers kept failing.
    Transient,
    /// A header, a message or a state root did not pass validation.
    ValidationFailure,
}

/// What is to be done next.
#[derive(Clone, Copy, Debug, PartialEq, Eq, Hash, Structural)]
pub enum SyncAction {
    FetchHeaders,
    ValidateHeaders,
    FetchMessages,
    ValidateMessages,
    EvaluateState,
    CommitHead,
    /// Ask another peer for the same thing.
    Retry,
    /// Drop the candidate; `score_down` says whether the peer that sent
    /// it loses score.
    Discard { error: ErrorKind, score_down: bool },
    /// The candidate went through; `accepted` says whether it is the head now.
    Finished { accepted: bool },
    /// Release what was acquired for the candidate.
    Unwind,
    /// Nothing: the event or the candidate comes out of turn.
    Ignore,
}

/// What a [`Syncer`] stands for.
pub ghost struct SyncerView {
    pub state: SyncState,
    /// Failures of peers since the current fetch began.
    pub failures: u32,
    /// Failures of peers that a fetch survives.
    pub fetch_retries: u32,
    pub head: TipsetView,
    pub candidate: Option<TipsetView>,
}

impl SyncerView {
    /// The synchronization back at rest, with the head it has.
    pub open spec fn at_rest(self) -> SyncerView {
        SyncerView { state: SyncState::Idle, failures: 0, candidate: None, ..self }
    }

    /// The synchronization in `state`, with no failure counted.
    pub open spec fn moved_to(self, state: SyncState) -> SyncerView {
        SyncerView { state, failures: 0, ..self }
    }

    /// The head after the commit rule has seen the candidate.
    pub open spec fn committed_head(self) -> TipsetView {
        match self.candidate {
            Some(candidate) => head_after(self.head, seq![candidate]),
            None => self.head,
        }
    }

    /// Whether the commit rule takes the candidate for the head.
    pub open spec fn accepts(self) -> bool {
        match self.candidate {
            Some(candidate) => candidate.replaces(self.head),
            None => false,
        }
    }

    /// Where the synchronization stands after `event`, and what is to be done.
    pub open spec fn step(self, event: SyncEvent) -> (SyncerView, SyncAction) {
        let validation_failure = SyncAction::Discard {
            error: ErrorKind::ValidationFailure,
            score_down: true,
        };
        match (self.state, event) {
            (SyncState::Idle, _) => (self, SyncAction::Ignore),
            (_, SyncEvent::Cancelled) => (self.at_rest(), SyncAction::Unwind),
            (SyncState::HeaderFetch, SyncEvent::Done) => (
                self.moved_to(SyncState::HeaderValidate),
                SyncAction::ValidateHeaders,
            ),
            (SyncState::HeaderValidate, SyncEvent::Done) => (
                self.moved_to(SyncState::MessageFetch),
                SyncAction::FetchMessages,
            ),
            (SyncState::MessageFetch, SyncEvent::Done) => (
                self.moved_to(SyncState::MessageValidate),
                SyncAction::ValidateMessages,
            ),
            (SyncState::MessageValidate, SyncEvent::Done) => (
                self.moved_to(SyncState::StateEvaluate),
                SyncAction::EvaluateState,
            ),
            (SyncState::StateEvaluate, SyncEvent::Done) => (
                self.moved_to(SyncState::Commit),
                SyncAction::CommitHead,
            ),
            (SyncState::Commit, SyncEvent::Done) => (
                SyncerView { head: self.committed_head(), ..self.at_rest() },
                SyncAction::Finished { accepted: self.accepts() },
            ),
            (SyncState::HeaderFetch, SyncEvent::PeerFailed)
            | (SyncState::MessageFetch, SyncEvent::PeerFailed) => if self.failures
                < self.fetch_retries {
                (
                    SyncerView { failures: (self.failures + 1) as u32, ..self },
                    SyncAction::Retry,
                )
            } else {
                (
                    self.at_rest(),
                    SyncAction::Discard { error: ErrorKind::Transient, score_down: false },
                )
            },
            (SyncState::HeaderValidate, SyncEvent::Invalid)
            | (SyncState::MessageValidate, SyncEvent::Invalid)
            | (SyncState::StateEvaluate, SyncEvent::Invalid) => (
                self.at_rest(),
                validation_failure,
            ),
            _ => (self, SyncAction::Ignore),
        }
    }

    /// Where the synchronization stands after a candidate head has come
    /// in, and what is to be done. A candidate that comes while another
    /// is under way is ignored.
    pub open spec fn offer(self, candidate: TipsetView) -> (SyncerView, SyncAction) {
        if self.state == SyncState::Idle {
            (
                SyncerView {
                    state: SyncState::HeaderFetch,
                    failures: 0,
                    candidate: Some(candidate),
                    ..self
                },
                SyncAction::FetchHeaders,
            )
        } else {
            (self, SyncAction::Ignore)
        }
    }
}

/// The synchronization of one candidate at a time, with the chain store
/// whose head it moves.
pub struct Syncer {
    state: SyncState,
    failures: u32,
    fetch_retries: u32,
    chain: ChainStore,
    candidate: Option<Tipset>,
}

impl View for Syncer {
    type V = SyncerView;

    closed spec fn view(&self) -> SyncerView {
        SyncerView {
            state: self.state,
            failures: self.failures,
            fetch_retries: self.fetch_retries,
            head: self.chain@,
            candidate: match self.candidate {
                Some(candidate) => Some(candidate@),
                None => None,
            },
        }
    }
}

impl Syncer {
    /// A synchronization at rest on `chain`, whose fetches survive
    /// `fetch_retries` failures of peers.
    pub fn new(chain: ChainStore, fetch_retries: u32) -> (syncer: Syncer)
        ensures
            syncer@ == (SyncerView {
                state: SyncState::Idle,
                failures: 0,
                fetch_retries,
                head: chain@,
                candidate: None,
            }),
    {
        Syncer { state: SyncState::Idle, failures: 0, fetch_retries, chain, candidate: None }
    }

    /// Where the synchronization stands.
    pub fn state(&self) -> (state: SyncState)
        ensures
            state == self@.state,
    {
        self.state
    }

    /// The current head.
    pub fn head(&self) -> (head: &Tipset)
        ensures
            head@ == self@.head,
    {
        self.chain.head()
    }

    /// Takes a candidate head from the network.
    pub fn offer(&mut self, candidate: Tipset) -> (action: SyncAction)
        ensures
            (final(self)@, action) == old(self)@.offer(candidate@),
    {
        if self.state == SyncState::Idle {
            self.state = SyncState::HeaderFetch;
            self.failures = 0;
            self.candidate = Some(candidate);
            SyncAction::FetchHeaders
        } else {
            SyncAction::Ignore
        }
    }

    fn rest(&mut self)
        ensures
            final(self)@ == old(self)@.at_rest(),
    {
        self.state = SyncState::Idle;
        self.failures = 0;
        self.candidate = None;
    }

    fn move_to(&mut self, state: SyncState)
        ensures
            final(self)@ == old(self)@.moved_to(state),
    {
        self.state = state;
        self.failures = 0;
    }

    /// Takes what has just happened to the work of the current state.
    /// A validation failure discards the candidate and leaves the head
    /// as it is; the head moves at commit only, by the rule of the chain
    /// store.
    pub fn step(&mut self, event: SyncEvent) -> (action: SyncAction)
        ensures
            (final(self)@, action) == old(self)@.step(event),
            !(old(self)@.state == SyncState::Commit && event == SyncEvent::Done)
                ==> final(self)@.head == old(self)@.head,
            final(self)@.head.chain_weight() >= old(self)@.head.chain_weight(),
    {
        match (self.state, event) {
            (SyncState::Idle, _) => SyncAction::Ignore,
            (_, SyncEvent::Cancelled) => {
                self.rest();
                SyncAction::Unwind
            },
            (SyncState::HeaderFetch, SyncEvent::Done) => {
                self.move_to(SyncState::HeaderValidate);
                SyncAction::ValidateHeaders
            },
            (SyncState::HeaderValidate, SyncEvent::Done) => {
                self.move_to(SyncState::MessageFetch);
                SyncAction::FetchMessages
            },
            (SyncState::MessageFetch, SyncEvent::Done) => {
                self.move_to(SyncState::MessageValidate);
                SyncAction::ValidateMessages
            },
            (SyncState::MessageValidate, SyncEvent::Done) => {
                self.move_to(SyncState::StateEvaluate);
                SyncAction::EvaluateState
            },
            (SyncState::StateEvaluate, SyncEvent::Done) => {
                self.move_to(SyncState::Commit);
                SyncAction::CommitHead
            },
            (SyncState::Commit, SyncEvent::Done) => {
                let mut candidate: Option<Tipset> = None;
                core::mem::swap(&mut self.candidate, &mut candidate);
                let accepted = match candidate {
                    Some(tipset) => self.chain.commit(tipset),
                    None => false,
                };
                self.rest();
                SyncAction::Finished { accepted }
            },
            (SyncState::HeaderFetch, SyncEvent::PeerFailed)
            | (SyncState::MessageFetch, SyncEvent::PeerFailed) => {
                if self.failures < self.fetch_retries {
                    self.failures = self.failures + 1;
                    SyncAction::Retry
                } else {
                    self.rest();
                    SyncAction::Discard { error: ErrorKind::Transient, score_down: false }
                }
            },
            (SyncState::HeaderValidate, SyncEvent::Invalid)
            | (SyncState::MessageValidate, SyncEvent::Invalid)
            | (SyncState::StateEvaluate, SyncEvent::Invalid) => {
                self.rest();
                SyncAction::Discard { error: ErrorKind::ValidationFailure, score_down: true }
            },
            _ => SyncAction::Ignore,
        }
    }
}

/// A validation failure ends the candidate: the synchronization is back
/// at rest, the head is the old head, and the peer is scored down.
pub proof fn lemma_validation_failure_keeps_head(syncer: SyncerView)
    requires
        syncer.state == SyncState::HeaderValidate || syncer.state == SyncState::MessageValidate
            || syncer.state == SyncState::StateEvaluate,
    ensures
        syncer.step(SyncEvent::Invalid).0.state == SyncState::Idle,
        syncer.step(SyncEvent::Invalid).0.head == syncer.head,
        syncer.step(SyncEvent::Invalid).0.candidate.is_none(),
        syncer.step(SyncEvent::Invalid).1 == (SyncAction::Discard {
            error: ErrorKind::ValidationFailure,
            score_down: true,
        }),
{
}

/// Whatever happens, in whatever state, the head never gets lighter, and
/// it stays the same unless a commit finishes.
pub proof fn lemma_step_keeps_head_weight(syncer: SyncerView, event: SyncEvent)
    ensures
        syncer.step(event).0.head.chain_weight() >= syncer.head.chain_weight(),
        !(syncer.state == SyncState::Commit && event == SyncEvent::Done) ==> syncer.step(
            event,
        ).0.head == syncer.head,
        syncer.step(event).0.fetch_retries == syncer.fetch_retries,
{
    if let Some(candidate) = syncer.candidate {
        let one = seq![candidate];
        assert(one.drop_last() =~= Seq::<TipsetView>::empty());
        assert(head_after(syncer.head, one.drop_last()) == syncer.head);
        assert(one.last() == candidate);
    }
}

/// A cancellation, at any point, leaves the head as it is and the
/// synchronization at rest.
pub proof fn lemma_cancel_unwinds(syncer: SyncerView)
    ensures
        syncer.step(SyncEvent::Cancelled).0.state == SyncState::Idle,
        syncer.step(SyncEvent::Cancelled).0.head == syncer.head,
{
}

} // verus!
