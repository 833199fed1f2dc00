use quorum_store::batch_reader::{BatchReader, FetchError, ReaderAction};
use quorum_store::batch_store::{BatchStore, StoreEvent};
use quorum_store::digest::compute_digest;
use quorum_store::messages::{BatchStoreCommand, PersistRequest};
use quorum_store::types::{HashValue, LogicalTime, PeerId};

fn peer(n: u8) -> PeerId {
    PeerId { bytes: [n; 32] }
}

fn digest(n: u8) -> HashValue {
    HashValue { bytes: [n; 32] }
}

fn store_with(memory_quota: usize, payload: Vec<Vec<u8>>) -> (BatchStore, HashValue) {
    let mut s = BatchStore::new(5, 0, peer(1), 20, memory_quota, 1000);
    let d = compute_digest(&peer(3), 5, 9, &payload);
    let n = payload.iter().map(|b| b.len()).sum();
    let r = PersistRequest::new(peer(3), 9, payload, d, n, LogicalTime::new(5, 30));
    s.step(StoreEvent::Command(BatchStoreCommand::Persist(r, false)));
    s.step(StoreEvent::Saved(true));
    s.step(StoreEvent::Signed(vec![]));
    (s, d)
}

fn requests(actions: &[ReaderAction]) -> Vec<PeerId> {
    let mut out = Vec::new();
    for a in actions {
        if let ReaderAction::Request(to, _) = a {
            out.push(*to);
        }
    }
    out
}

#[test]
fn cached_body_is_handed_over_at_once() {
    let (store, d) = store_with(100, vec![vec![1, 2], vec![3]]);
    let mut r = BatchReader::new(vec![peer(2)], 2, 500);
    let actions = r.get(&store, d, 7, 0);
    match &actions[..] {
        [ReaderAction::Resolve(7, Ok(body))] => assert_eq!(body, &vec![vec![1, 2], vec![3]]),
        other => panic!("unexpected {:?}", other),
    }
    assert!(!r.is_pending(&d));
}

#[test]
fn body_on_disk_is_read_checked_and_handed_to_all_who_wait() {
    let (store, d) = store_with(0, vec![vec![1, 2, 3]]);
    let mut r = BatchReader::new(vec![peer(2)], 2, 500);
    assert!(matches!(&r.get(&store, d, 7, 0)[..], [ReaderAction::ReadFromDisk(x)] if *x == d));
    // a second waiter joins without a second read
    assert!(r.get(&store, d, 8, 0).is_empty());
    // a timer does not concern a read from disk
    assert!(r.on_timeout(d, u64::MAX).is_empty());
    assert!(r.on_failed(d, 0).is_empty());
    let actions = r.on_loaded(&store, d, Some(vec![vec![1, 2, 3]]));
    match &actions[..] {
        [ReaderAction::Resolve(7, Ok(a)), ReaderAction::Resolve(8, Ok(b))] => {
            assert_eq!(a, &vec![vec![1, 2, 3]]);
            assert_eq!(b, &vec![vec![1, 2, 3]]);
        }
        other => panic!("unexpected {:?}", other),
    }
    assert!(!r.is_pending(&d));
    // nothing waits any more
    assert!(r.on_loaded(&store, d, Some(vec![vec![1, 2, 3]])).is_empty());
}

#[test]
fn corrupt_or_missing_body_on_disk_is_not_found() {
    let (store, d) = store_with(0, vec![vec![1, 2, 3]]);
    let mut r = BatchReader::new(vec![peer(2)], 2, 500);
    r.get(&store, d, 7, 0);
    let actions = r.on_loaded(&store, d, Some(vec![vec![1, 2, 4]]));
    assert!(matches!(&actions[..], [ReaderAction::Resolve(7, Err(FetchError::NotFound))]));
    r.get(&store, d, 8, 0);
    let actions = r.on_loaded(&store, d, None);
    assert!(matches!(&actions[..], [ReaderAction::Resolve(8, Err(FetchError::NotFound))]));
}

#[test]
fn peers_are_asked_a_few_at_a_time_the_author_first() {
    let mut store = BatchStore::new(5, 0, peer(1), 20, 0, 1000);
    let d = digest(4);
    store.register_remote(d, peer(9), LogicalTime::new(5, 30));
    let mut r = BatchReader::new(vec![peer(2), peer(3), peer(4)], 2, 500);
    let actions = r.get(&store, d, 7, 1_000);
    assert_eq!(requests(&actions), vec![peer(9), peer(2)]);
    assert!(matches!(actions.last(), Some(ReaderAction::ArmTimer(x, 1_500)) if *x == d));
    // a timer that fires early changes nothing
    assert!(r.on_timeout(d, 1_499).is_empty());
    let actions = r.on_timeout(d, 1_500);
    assert_eq!(requests(&actions), vec![peer(3), peer(4)]);
    assert!(matches!(actions.last(), Some(ReaderAction::ArmTimer(_, 2_000))));
    // an answer that was refused moves on without waiting; no one is left
    let actions = r.on_failed(d, 1_600);
    assert!(matches!(&actions[..], [ReaderAction::Resolve(7, Err(FetchError::NotFound))]));
    assert!(!r.is_pending(&d));
    assert!(r.on_timeout(d, u64::MAX).is_empty());
}

#[test]
fn author_is_asked_once() {
    let mut store = BatchStore::new(5, 0, peer(1), 20, 0, 1000);
    let d = digest(4);
    store.register_remote(d, peer(3), LogicalTime::new(5, 30));
    let mut r = BatchReader::new(vec![peer(2), peer(3), peer(4)], 2, 500);
    assert_eq!(requests(&r.get(&store, d, 7, 0)), vec![peer(3), peer(2)]);
    assert_eq!(requests(&r.on_timeout(d, 500)), vec![peer(4)]);
    let actions = r.on_timeout(d, 1_000);
    assert!(matches!(&actions[..], [ReaderAction::Resolve(7, Err(FetchError::NotFound))]));
}

#[test]
fn with_a_fan_out_of_zero_no_one_is_asked() {
    let mut store = BatchStore::new(5, 0, peer(1), 20, 0, 1000);
    store.register_remote(digest(4), peer(3), LogicalTime::new(5, 30));
    let mut r = BatchReader::new(vec![peer(2), peer(3)], 0, 500);
    let actions = r.get(&store, digest(4), 7, 0);
    assert!(matches!(&actions[..], [ReaderAction::Resolve(7, Err(FetchError::NotFound))]));
    assert!(!r.is_pending(&digest(4)));
}

#[test]
fn unknown_batch_is_asked_of_the_peers() {
    let store = BatchStore::new(5, 0, peer(1), 20, 0, 1000);
    let mut r = BatchReader::new(vec![peer(2), peer(3), peer(4)], 1, 500);
    assert_eq!(requests(&r.get(&store, digest(4), 7, 0)), vec![peer(2)]);
    assert_eq!(requests(&r.on_timeout(digest(4), 500)), vec![peer(3)]);
    assert_eq!(requests(&r.on_timeout(digest(4), 1_000)), vec![peer(4)]);
    let actions = r.on_timeout(digest(4), 1_500);
    assert!(matches!(&actions[..], [ReaderAction::Resolve(7, Err(FetchError::NotFound))]));
}

#[test]
fn with_no_one_to_ask_the_batch_is_not_found() {
    let store = BatchStore::new(5, 0, peer(1), 20, 0, 1000);
    let mut r = BatchReader::new(vec![], 3, 500);
    let actions = r.get(&store, digest(4), 7, 0);
    assert!(matches!(&actions[..], [ReaderAction::Resolve(7, Err(FetchError::NotFound))]));
    assert!(!r.is_pending(&digest(4)));
}

#[test]
fn last_batch_of_peers_may_be_short() {
    let store = BatchStore::new(5, 0, peer(1), 20, 0, 1000);
    let mut r = BatchReader::new(vec![peer(2), peer(3), peer(4)], 2, u64::MAX as usize);
    let actions = r.get(&store, digest(4), 7, 10);
    assert_eq!(requests(&actions), vec![peer(2), peer(3)]);
    // the deadline stays at the largest time
    assert!(matches!(actions.last(), Some(ReaderAction::ArmTimer(_, u64::MAX))));
    assert_eq!(requests(&r.on_failed(digest(4), 0)), vec![peer(4)]);
}

#[test]
fn waiters_are_served_in_the_order_of_arrival() {
    let store = BatchStore::new(5, 0, peer(1), 20, 0, 1000);
    let mut r = BatchReader::new(vec![peer(2)], 1, 500);
    r.get(&store, digest(4), 30, 0);
    assert!(r.get(&store, digest(4), 10, 0).is_empty());
    assert!(r.get(&store, digest(4), 20, 0).is_empty());
    let actions = r.on_expired(digest(4));
    assert!(matches!(
        &actions[..],
        [
            ReaderAction::Resolve(30, Err(FetchError::Expired)),
            ReaderAction::Resolve(10, Err(FetchError::Expired)),
            ReaderAction::Resolve(20, Err(FetchError::Expired))
        ]
    ));
    assert!(r.on_expired(digest(4)).is_empty());
    assert!(r.on_fetched(digest(4), vec![]).is_empty());
}

#[test]
fn teardown_tells_everyone_who_waits() {
    let (store, d) = store_with(0, vec![vec![1, 2, 3]]);
    let mut r = BatchReader::new(vec![peer(2)], 1, 500);
    r.get(&store, d, 1, 0);
    r.get(&store, digest(4), 2, 0);
    r.get(&store, digest(4), 3, 0);
    let actions = r.teardown();
    let mut told = Vec::new();
    for a in &actions {
        match a {
            ReaderAction::Resolve(w, Err(FetchError::NotFound)) => told.push(*w),
            other => panic!("unexpected {:?}", other),
        }
    }
    told.sort();
    assert_eq!(told, vec![1, 2, 3]);
    assert!(!r.is_pending(&d));
    assert!(!r.is_pending(&digest(4)));
    assert!(r.teardown().is_empty());
}
