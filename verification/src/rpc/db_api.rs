//! The database's garbage-collection request, seen from the caller.
//!
//! A caller hands a reply channel to the single collector and waits on it.
//! [`db_gc`] holds the decisions of that exchange: given where the request
//! stands and what has just happened, it says where the request stands next
//! and what to do. Whoever drives it owns the channels.

use vstd::prelude::*;

verus! {

/// Where a garbage-collection request stands.
#[derive(Clone, Copy, Debug, PartialEq, Eq, Hash, Structural)]
pub enum GcRequest {
    /// Nothing has been done yet.
    Created,
    /// The reply channel is on its way to the collector.
    Sending,
    /// The collector has the reply channel; its answer is awaited.
    Waiting,
    /// The request has returned.
    Finished,
}

/// What the collector answered on the reply channel.
#[derive(Debug, PartialEq, Eq)]
pub enum GcReply {
    /// The collection succeeded.
    Done,
    /// The collection failed, with the collector's message.
    Failed(String),
    /// The collector dropped the reply channel without an answer.
    Dropped,
}

/// What has just happened to a request.
#[derive(Debug, PartialEq, Eq)]
pub enum GcEvent {
    /// The caller asks for a collection.
    Requested,
    /// The collector took the reply channel.
    Sent,
    /// The collector is gone: the reply channel could not be handed over.
    Disconnected,
    /// The reply channel yielded.
    Replied(GcReply),
}

/// Why a request failed.
#[derive(Debug, PartialEq, Eq)]
pub enum GcError {
    /// No collector took the request.
    Disconnected,
    /// The collector took the request and never answered.
    NoReply,
    /// The collection itself failed.
    Failed(String),
}

/// What the driver does next.
#[derive(Debug, PartialEq, Eq)]
pub enum GcAction {
    /// Make a reply channel of capacity one and send its sending half to
    /// the collector.
    SendReplyChannel,
    /// Wait on the reply channel.
    AwaitReply,
    /// Return to the caller.
    Return(Result<(), GcError>),
    /// The event is not one that the request awaits: do nothing.
    Ignore,
}

/// The state after `event` has reached a request in `state`.
pub open spec fn next_state(state: GcRequest, event: GcEvent) -> GcRequest {
    match (state, event) {
        (GcRequest::Created, GcEvent::Requested) => GcRequest::Sending,
        (GcRequest::Sending, GcEvent::Sent) => GcRequest::Waiting,
        (GcRequest::Sending, GcEvent::Disconnected) => GcRequest::Finished,
        (GcRequest::Waiting, GcEvent::Replied(_)) => GcRequest::Finished,
        _ => state,
    }
}

/// What the caller is told when `reply` arrives.
pub open spec fn outcome(reply: GcReply) -> Result<(), GcError> {
    match reply {
        GcReply::Done => Ok(()),
        GcReply::Failed(message) => Err(GcError::Failed(message)),
        GcReply::Dropped => Err(GcError::NoReply),
    }
}

/// The action that `event` asks for on a request in `state`.
pub open spec fn next_action(state: GcRequest, event: GcEvent) -> GcAction {
    match (state, event) {
        (GcRequest::Created, GcEvent::Requested) => GcAction::SendReplyChannel,
        (GcRequest::Sending, GcEvent::Sent) => GcAction::AwaitReply,
        (GcRequest::Sending, GcEvent::Disconnected) => GcAction::Return(
            Err(GcError::Disconnected),
        ),
        (GcRequest::Waiting, GcEvent::Replied(reply)) => GcAction::Return(outcome(reply)),
        _ => GcAction::Ignore,
    }
}

/// One step of a garbage-collection request: the reply channel is sent,
/// then awaited, and the collector's answer, or the loss of the collector,
/// is what the caller gets. An event that the request does not await
/// changes nothing.
pub fn db_gc(state: GcRequest, event: GcEvent) -> (r: (GcRequest, GcAction))
    ensures
        r.0 == next_state(state, event),
        r.1 == next_action(state, event),
{
    match (state, event) {
        (GcRequest::Created, GcEvent::Requested) => (
            GcRequest::Sending,
            GcAction::SendReplyChannel,
        ),
        (GcRequest::Sending, GcEvent::Sent) => (GcRequest::Waiting, GcAction::AwaitReply),
        (GcRequest::Sending, GcEvent::Disconnected) => (
            GcRequest::Finished,
            GcAction::Return(Err(GcError::Disconnected)),
        ),
        (GcRequest::Waiting, GcEvent::Replied(reply)) => {
            let result = match reply {
                GcReply::Done => Ok(()),
                GcReply::Failed(message) => Err(GcError::Failed(message)),
                GcReply::Dropped => Err(GcError::NoReply),
            };
            (GcRequest::Finished, GcAction::Return(result))
        },
        (state, _) => (state, GcAction::Ignore),
    }
}

/// A request returns success only when the collector answered that the
/// collection succeeded, and it returns at most once: after a return the
/// request is finished, and a finished request ignores every event.
pub proof fn lemma_success_only_on_done(state: GcRequest, event: GcEvent)
    ensures
        next_action(state, event) == GcAction::Return(Ok(())) <==> state == GcRequest::Waiting
            && event == GcEvent::Replied(GcReply::Done),
        next_action(state, event) is Return ==> next_state(state, event) == GcRequest::Finished,
        state == GcRequest::Finished ==> next_action(state, event) == GcAction::Ignore
            && next_state(state, event) == GcRequest::Finished,
{
}

} // verus!
