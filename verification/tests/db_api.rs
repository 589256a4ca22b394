use forest_filecoin::rpc::db_api::{db_gc, GcAction, GcError, GcEvent, GcReply, GcRequest};

fn run(events: Vec<GcEvent>) -> (GcRequest, Vec<GcAction>) {
    let mut state = GcRequest::Created;
    let mut actions = Vec::new();
    for event in events {
        let (next, action) = db_gc(state, event);
        state = next;
        actions.push(action);
    }
    (state, actions)
}

#[test]
fn request_that_succeeds() {
    let (state, actions) = run(vec![
        GcEvent::Requested,
        GcEvent::Sent,
        GcEvent::Replied(GcReply::Done),
    ]);
    assert_eq!(state, GcRequest::Finished);
    assert_eq!(
        actions,
        vec![
            GcAction::SendReplyChannel,
            GcAction::AwaitReply,
            GcAction::Return(Ok(())),
        ]
    );
}

#[test]
fn request_whose_collection_fails() {
    let (state, actions) = run(vec![
        GcEvent::Requested,
        GcEvent::Sent,
        GcEvent::Replied(GcReply::Failed(String::from("disk full"))),
    ]);
    assert_eq!(state, GcRequest::Finished);
    assert_eq!(
        actions[2],
        GcAction::Return(Err(GcError::Failed(String::from("disk full"))))
    );
}

#[test]
fn request_without_a_collector() {
    let (state, actions) = run(vec![GcEvent::Requested, GcEvent::Disconnected]);
    assert_eq!(state, GcRequest::Finished);
    assert_eq!(
        actions,
        vec![
            GcAction::SendReplyChannel,
            GcAction::Return(Err(GcError::Disconnected)),
        ]
    );
}

#[test]
fn request_whose_reply_channel_is_dropped() {
    let (state, actions) = run(vec![
        GcEvent::Requested,
        GcEvent::Sent,
        GcEvent::Replied(GcReply::Dropped),
    ]);
    assert_eq!(state, GcRequest::Finished);
    assert_eq!(actions[2], GcAction::Return(Err(GcError::NoReply)));
}

#[test]
fn events_out_of_turn_are_ignored() {
    assert_eq!(
        db_gc(GcRequest::Created, GcEvent::Sent),
        (GcRequest::Created, GcAction::Ignore)
    );
    assert_eq!(
        db_gc(GcRequest::Created, GcEvent::Replied(GcReply::Done)),
        (GcRequest::Created, GcAction::Ignore)
    );
    assert_eq!(
        db_gc(GcRequest::Sending, GcEvent::Requested),
        (GcRequest::Sending, GcAction::Ignore)
    );
    assert_eq!(
        db_gc(GcRequest::Sending, GcEvent::Replied(GcReply::Done)),
        (GcRequest::Sending, GcAction::Ignore)
    );
    assert_eq!(
        db_gc(GcRequest::Waiting, GcEvent::Sent),
        (GcRequest::Waiting, GcAction::Ignore)
    );
    assert_eq!(
        db_gc(GcRequest::Waiting, GcEvent::Disconnected),
        (GcRequest::Waiting, GcAction::Ignore)
    );
}

#[test]
fn finished_request_returns_only_once() {
    let (state, actions) = run(vec![
        GcEvent::Requested,
        GcEvent::Sent,
        GcEvent::Replied(GcReply::Done),
        GcEvent::Replied(GcReply::Done),
        GcEvent::Requested,
        GcEvent::Disconnected,
    ]);
    assert_eq!(state, GcRequest::Finished);
    assert_eq!(actions[3], GcAction::Ignore);
    assert_eq!(actions[4], GcAction::Ignore);
    assert_eq!(actions[5], GcAction::Ignore);
}

#[test]
fn two_requests_served_in_turn_both_succeed() {
    // The collector takes one reply channel at a time: the second request
    // stays in `Sending` until the first has been answered.
    let (first, a1) = db_gc(GcRequest::Created, GcEvent::Requested);
    let (second, a2) = db_gc(GcRequest::Created, GcEvent::Requested);
    assert_eq!(a1, GcAction::SendReplyChannel);
    assert_eq!(a2, GcAction::SendReplyChannel);
    let (first, _) = db_gc(first, GcEvent::Sent);
    assert_eq!(second, GcRequest::Sending);
    let (first, r1) = db_gc(first, GcEvent::Replied(GcReply::Done));
    let (second, _) = db_gc(second, GcEvent::Sent);
    let (second, r2) = db_gc(second, GcEvent::Replied(GcReply::Done));
    assert_eq!(first, GcRequest::Finished);
    assert_eq!(second, GcRequest::Finished);
    assert_eq!(r1, GcAction::Return(Ok(())));
    assert_eq!(r2, GcAction::Return(Ok(())));
}
