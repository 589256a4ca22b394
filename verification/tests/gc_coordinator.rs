use forest_filecoin::db::MemoryDB;
use forest_filecoin::rpc::db_api::{db_gc, GcAction, GcEvent, GcReply, GcRequest};
use forest_filecoin::rpc::gc_coordinator::GcCoordinator;

#[test]
fn two_requests_are_served_one_after_the_other() {
    let mut store = MemoryDB::new();
    let kept = store.put(b"reachable");
    let dropped = store.put(b"garbage");
    let reachable = vec![kept.clone()];

    let mut rendezvous = GcCoordinator::new();
    let (first, _) = db_gc(GcRequest::Created, GcEvent::Requested);
    let (second, _) = db_gc(GcRequest::Created, GcEvent::Requested);

    // The first caller gets through; the collector takes its channel.
    assert!(rendezvous.submit(1));
    let (first, _) = db_gc(first, GcEvent::Sent);
    assert_eq!(rendezvous.take(), Some(1));
    // The second caller gets through as well, and waits its turn.
    assert!(rendezvous.submit(2));
    let (second, _) = db_gc(second, GcEvent::Sent);
    assert_eq!(rendezvous.take(), None);

    store.gc(&reachable);
    assert_eq!(rendezvous.finish(), Some(1));
    let (first, answer) = db_gc(first, GcEvent::Replied(GcReply::Done));
    assert_eq!(answer, GcAction::Return(Ok(())));
    assert_eq!(first, GcRequest::Finished);
    assert_eq!(store.get(&kept), Some(b"reachable".to_vec()));
    assert!(!store.has(&dropped));

    assert_eq!(rendezvous.take(), Some(2));
    store.gc(&reachable);
    assert_eq!(rendezvous.finish(), Some(2));
    let (second, answer) = db_gc(second, GcEvent::Replied(GcReply::Done));
    assert_eq!(answer, GcAction::Return(Ok(())));
    assert_eq!(second, GcRequest::Finished);
    assert_eq!(store.get(&kept), Some(b"reachable".to_vec()));
    assert_eq!(rendezvous, GcCoordinator::new());
}

#[test]
fn a_third_caller_has_to_wait() {
    let mut rendezvous = GcCoordinator::new();
    assert!(rendezvous.submit(1));
    assert!(!rendezvous.submit(2));
    assert_eq!(rendezvous.take(), Some(1));
    assert!(rendezvous.submit(2));
    assert!(!rendezvous.submit(3));
    assert_eq!(
        rendezvous,
        GcCoordinator {
            waiting: Some(2),
            running: Some(1)
        }
    );
}

#[test]
fn the_collector_with_nothing_to_do() {
    let mut rendezvous = GcCoordinator::new();
    assert_eq!(rendezvous.take(), None);
    assert_eq!(rendezvous.finish(), None);
    assert_eq!(rendezvous, GcCoordinator::new());
}
