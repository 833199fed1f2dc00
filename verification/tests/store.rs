use quorum_store::batch_index::{BatchIndex, Budget, Location};
use quorum_store::batch_store::{BatchStore, StoreAction, StoreError, StoreEvent};
use quorum_store::digest::compute_digest;
use quorum_store::messages::{BatchStoreCommand, ConsensusMsg, PersistRequest};
use quorum_store::types::{HashValue, LogicalTime, PeerId};

fn peer(n: u8) -> PeerId {
    PeerId { bytes: [n; 32] }
}

fn make(author: u8, epoch: u64, batch_id: u64, payload: Vec<Vec<u8>>, round: u64) -> PersistRequest {
    let digest = compute_digest(&peer(author), epoch, batch_id, &payload);
    let num_bytes = payload.iter().map(|b| b.len()).sum();
    PersistRequest::new(
        peer(author),
        batch_id,
        payload,
        digest,
        num_bytes,
        LogicalTime::new(epoch, round),
    )
}

fn store(memory_quota: usize, db_quota: usize) -> BatchStore {
    BatchStore::new(5, 0, peer(1), 20, memory_quota, db_quota)
}

fn store_at(round: u64, memory_quota: usize, db_quota: usize) -> BatchStore {
    BatchStore::new(5, round, peer(1), 20, memory_quota, db_quota)
}

fn try_save(store: &mut BatchStore, request: PersistRequest) -> bool {
    let actions = store.step(StoreEvent::Command(BatchStoreCommand::Persist(request, false)));
    if actions.is_empty() {
        return false;
    }
    store.step(StoreEvent::Saved(true));
    store.step(StoreEvent::Signed(vec![1]));
    true
}

fn save(store: &mut BatchStore, request: PersistRequest) {
    let actions = store.step(StoreEvent::Command(BatchStoreCommand::Persist(request, false)));
    assert!(matches!(actions.last(), Some(StoreAction::DbSave(_))));
    store.step(StoreEvent::Saved(true));
    store.step(StoreEvent::Signed(vec![1]));
}

#[test]
fn signing_waits_for_the_write() {
    let mut s = store(1000, 1000);
    let r = make(1, 5, 1, vec![vec![1, 2, 3]], 30);
    let d = r.digest;
    let actions = s.step(StoreEvent::Command(BatchStoreCommand::Persist(r, true)));
    // nothing is signed and nothing is in the index while the write is under way
    assert_eq!(actions.len(), 1);
    assert!(matches!(&actions[0], StoreAction::DbSave(x) if x.digest == d));
    assert_eq!(s.location_of(&d), None);
    assert!(!s.is_idle());
    assert!(!s.accepts(&StoreEvent::Signed(vec![])));
    assert!(!s.accepts(&StoreEvent::Command(BatchStoreCommand::Clean(1))));
    assert!(s.accepts(&StoreEvent::Saved(true)));
    let actions = s.step(StoreEvent::Saved(true));
    assert!(matches!(&actions[..], [StoreAction::Sign(5, x, e)] if *x == d && *e == LogicalTime::new(5, 30)));
    assert!(s.accepts(&StoreEvent::Signed(vec![])));
    assert!(!s.accepts(&StoreEvent::Saved(true)));
}

#[test]
fn failed_write_leaves_no_trace_and_no_signature() {
    let mut s = store(1000, 1000);
    let r = make(1, 5, 1, vec![vec![1, 2, 3]], 30);
    let d = r.digest;
    s.step(StoreEvent::Command(BatchStoreCommand::Persist(r, true)));
    let actions = s.step(StoreEvent::Saved(false));
    assert!(actions.is_empty());
    assert!(s.is_idle());
    assert_eq!(s.location_of(&d), None);
    assert_eq!(s.db_used(), 0);
    assert_eq!(s.memory_used(), 0);
}

#[test]
fn reply_goes_only_to_who_asked() {
    let mut s = store(1000, 1000);
    s.step(StoreEvent::Command(BatchStoreCommand::Persist(make(2, 5, 1, vec![vec![1]], 30), false)));
    s.step(StoreEvent::Saved(true));
    let actions = s.step(StoreEvent::Signed(vec![7, 7]));
    assert_eq!(actions.len(), 1);
    match &actions[0] {
        StoreAction::Broadcast(ConsensusMsg::SignedDigestMsg(sd)) => {
            // the signer is this node, not the author of the batch
            assert_eq!(sd.signer, peer(1));
            assert_eq!(sd.signature, vec![7, 7]);
        }
        other => panic!("unexpected {:?}", other),
    }
    assert!(s.is_idle());
}

#[test]
fn wrong_digest_is_refused() {
    let mut s = store(1000, 1000);
    let mut r = make(1, 5, 1, vec![vec![1, 2, 3]], 30);
    r.digest = HashValue { bytes: [0; 32] };
    assert!(!s.verify_request(&r));
    match s.handle_persist(r, true) {
        Err(StoreError::VerificationFailure) => {}
        other => panic!("unexpected {:?}", other),
    }
    assert!(s.is_idle());
    assert_eq!(s.db_used(), 0);
}

#[test]
fn digest_of_another_epoch_is_refused() {
    let mut s = store(1000, 1000);
    let r = make(1, 6, 1, vec![vec![1, 2, 3]], 30);
    assert!(matches!(s.handle_persist(r, false), Err(StoreError::VerificationFailure)));
}

#[test]
fn wrong_size_is_refused() {
    let mut s = store(1000, 1000);
    let mut r = make(1, 5, 1, vec![vec![1, 2, 3]], 30);
    r.num_bytes = 2;
    assert!(matches!(s.handle_persist(r, false), Err(StoreError::VerificationFailure)));
    // through `step` a refused batch gives no action
    let mut r = make(1, 5, 1, vec![vec![1, 2, 3]], 30);
    r.num_bytes = 4;
    assert!(s.step(StoreEvent::Command(BatchStoreCommand::Persist(r, true))).is_empty());
    assert!(s.is_idle());
}

#[test]
fn batch_larger_than_the_quota_is_refused_and_evicts_nothing() {
    let mut s = store_at(100, 1000, 10);
    save(&mut s, make(1, 5, 1, vec![vec![1; 6]], 30));
    let big = make(1, 5, 2, vec![vec![2; 11]], 40);
    assert!(matches!(s.handle_persist(big, false), Err(StoreError::QuotaExceeded)));
    assert_eq!(s.db_used(), 6);
    // exactly the quota fits, once the other batch is gone
    let exact = make(1, 5, 3, vec![vec![3; 10]], 40);
    let d = exact.digest;
    let actions = s.handle_persist(exact, false).expect("fits");
    assert_eq!(actions.len(), 2);
    assert!(matches!(&actions[0], StoreAction::DbDelete(_)));
    s.step(StoreEvent::Saved(true));
    assert_eq!(s.db_used(), 10);
    assert_eq!(s.location_of(&d), Some(Location::Local));
}

#[test]
fn full_disk_refuses_while_nothing_is_due_for_collection() {
    // committed round 49: a batch that expires at round 30 is not due with a lag of 20
    let mut s = store_at(49, 1000, 10);
    let held = make(1, 5, 1, vec![vec![1; 6]], 30);
    let dh = held.digest;
    save(&mut s, held);
    let more = make(1, 5, 2, vec![vec![2; 5]], 40);
    assert!(matches!(s.handle_persist(more, false), Err(StoreError::QuotaExceeded)));
    assert_eq!(s.location_of(&dh), Some(Location::Local));
    assert_eq!(s.db_used(), 6);
    // what still fits is taken without evicting
    let small = make(1, 5, 3, vec![vec![3; 4]], 40);
    assert_eq!(s.handle_persist(small, false).expect("fits").len(), 1);
    s.step(StoreEvent::Saved(true));
    s.step(StoreEvent::Signed(vec![]));
    // at round 50 the first batch is due and makes room
    let mut s = store_at(50, 1000, 10);
    save(&mut s, make(1, 5, 1, vec![vec![1; 6]], 30));
    let more = make(1, 5, 2, vec![vec![2; 5]], 40);
    let actions = s.handle_persist(more, false).expect("room is made");
    assert!(matches!(&actions[..], [StoreAction::DbDelete(x), StoreAction::DbSave(_)] if *x == dh));
}

#[test]
fn quotas_hold_after_every_persist() {
    let mut s = store_at(200, 50, 120);
    let mut taken = 0;
    for i in 0..40u64 {
        let size = 10 + (i as usize * 7) % 35;
        if try_save(&mut s, make(1, 5, i, vec![vec![i as u8; size]], 100 - i)) {
            taken += 1;
        }
        assert!(s.db_used() <= 120);
        assert!(s.memory_used() <= 50);
    }
    assert_eq!(taken, 40);
    assert!(s.db_used() > 0);
    // with nothing due for collection the disk fills up and stays within its quota
    let mut s = store_at(0, 50, 120);
    let mut taken = 0;
    for i in 0..40u64 {
        let size = 10 + (i as usize * 7) % 35;
        if try_save(&mut s, make(1, 5, i, vec![vec![i as u8; size]], 100 - i)) {
            taken += 1;
        }
        assert!(s.db_used() <= 120);
        assert!(s.memory_used() <= 50);
    }
    assert!(taken > 0 && taken < 40);
}

#[test]
fn memory_keeps_the_newcomer_and_drops_what_expires_first() {
    let mut s = store(10, 100);
    let a = make(1, 5, 1, vec![vec![1; 4]], 30);
    let b = make(1, 5, 2, vec![vec![2; 4]], 20);
    let c = make(1, 5, 3, vec![vec![3; 4]], 40);
    let (da, db, dc) = (a.digest, b.digest, c.digest);
    save(&mut s, a);
    save(&mut s, b);
    assert_eq!(s.memory_used(), 8);
    // 4 more bytes do not fit: the body that expires first leaves the memory
    save(&mut s, c);
    assert_eq!(s.location_of(&da), Some(Location::Local));
    assert_eq!(s.location_of(&db), Some(Location::Persisted));
    assert_eq!(s.location_of(&dc), Some(Location::Local));
    assert_eq!(s.memory_used(), 8);
    // all three are still on disk
    assert_eq!(s.db_used(), 12);
    assert_eq!(s.entry_of(&da).expect("known").payload, vec![vec![1; 4]]);
    assert!(s.entry_of(&db).expect("known").payload.is_empty());
    assert_eq!(s.entry_of(&dc).expect("known").payload, vec![vec![3; 4]]);
}

#[test]
fn batch_larger_than_the_memory_is_not_cached_and_drops_nothing() {
    let mut s = store(10, 100);
    let a = make(1, 5, 1, vec![vec![1; 6]], 30);
    let big = make(1, 5, 2, vec![vec![2; 11]], 31);
    let exact = make(1, 5, 3, vec![vec![3; 10]], 32);
    let (da, dbig, dexact) = (a.digest, big.digest, exact.digest);
    save(&mut s, a);
    save(&mut s, big);
    assert_eq!(s.location_of(&da), Some(Location::Local));
    assert_eq!(s.location_of(&dbig), Some(Location::Persisted));
    assert_eq!(s.memory_used(), 6);
    // exactly the quota fits, once the other body is dropped
    save(&mut s, exact);
    assert_eq!(s.location_of(&da), Some(Location::Persisted));
    assert_eq!(s.location_of(&dexact), Some(Location::Local));
    assert_eq!(s.memory_used(), 10);
    assert_eq!(s.db_used(), 27);
}

#[test]
fn persisting_again_only_refreshes_the_expiration() {
    let mut s = store(100, 100);
    let first = make(1, 5, 1, vec![vec![1; 6]], 30);
    let d = first.digest;
    save(&mut s, first);
    save(&mut s, make(1, 5, 2, vec![vec![2; 6]], 31));
    let again = PersistRequest::new(peer(1), 1, vec![vec![1; 6]], d, 6, LogicalTime::new(5, 77));
    let actions = s.step(StoreEvent::Command(BatchStoreCommand::Persist(again, true)));
    assert!(actions.is_empty());
    assert!(s.is_idle());
    assert_eq!(s.db_used(), 12);
    assert_eq!(s.memory_used(), 12);
    assert_eq!(s.entry_of(&d).expect("known").expiration, LogicalTime::new(5, 77));
    assert_eq!(s.location_of(&d), Some(Location::Local));
}

#[test]
fn collection_keeps_what_is_within_the_lag() {
    let mut s = store(100, 100);
    let keep = make(1, 5, 1, vec![vec![1; 6]], 51);
    let drop = make(1, 5, 2, vec![vec![2; 6]], 50);
    let much = make(1, 5, 3, vec![vec![3; 6]], u64::MAX);
    let (dk, dd, dm) = (keep.digest, drop.digest, much.digest);
    save(&mut s, keep);
    save(&mut s, drop);
    save(&mut s, much);
    let actions = s.step(StoreEvent::Command(BatchStoreCommand::Clean(70)));
    assert!(matches!(&actions[..], [StoreAction::Expire(x, true)] if *x == dd));
    assert_eq!(s.location_of(&dk), Some(Location::Local));
    assert_eq!(s.location_of(&dd), None);
    // a round that is too large to add the lag to never comes
    assert_eq!(s.location_of(&dm), Some(Location::Local));
    assert!(s.step(StoreEvent::Command(BatchStoreCommand::Clean(u64::MAX))).len() == 1);
    assert_eq!(s.location_of(&dm), Some(Location::Local));
    assert_eq!(s.location_of(&dk), None);
}

#[test]
fn collection_takes_remote_entries_without_touching_the_disk() {
    let mut s = store(100, 100);
    let d = HashValue { bytes: [8; 32] };
    assert!(s.register_remote(d, peer(2), LogicalTime::new(5, 10)));
    assert!(!s.register_remote(d, peer(3), LogicalTime::new(5, 99)));
    assert_eq!(s.entry_of(&d).expect("known").author, peer(2));
    let actions = s.step(StoreEvent::Command(BatchStoreCommand::Clean(30)));
    assert!(matches!(&actions[..], [StoreAction::Expire(x, false)] if *x == d));
    assert_eq!(s.location_of(&d), None);
}

#[test]
fn cached_body_is_served_at_once() {
    let mut s = store(100, 100);
    let r = make(3, 5, 9, vec![vec![1, 2], vec![3]], 30);
    let d = r.digest;
    save(&mut s, r);
    let actions = s.step(StoreEvent::Command(BatchStoreCommand::BatchRequest(peer(4), d)));
    assert_eq!(actions.len(), 1);
    match &actions[0] {
        StoreAction::Send(to, ConsensusMsg::BatchResponseMsg(x, 9, body, author)) => {
            assert_eq!(*to, peer(4));
            assert_eq!(*x, d);
            assert_eq!(body, &vec![vec![1, 2], vec![3]]);
            assert_eq!(*author, peer(3));
        }
        other => panic!("unexpected {:?}", other),
    }
    assert!(s.is_idle());
}

#[test]
fn body_on_disk_is_read_and_checked_before_it_is_served() {
    let mut s = store(0, 100);
    let r = make(3, 5, 9, vec![vec![1, 2, 3]], 30);
    let d = r.digest;
    save(&mut s, r);
    let actions = s.step(StoreEvent::Command(BatchStoreCommand::BatchRequest(peer(4), d)));
    assert!(matches!(&actions[..], [StoreAction::DbLoad(x)] if *x == d));
    assert!(!s.is_idle());
    let actions = s.step(StoreEvent::Loaded(Some(vec![vec![1, 2, 3]])));
    assert!(matches!(&actions[..], [StoreAction::Send(to, ConsensusMsg::BatchResponseMsg(x, 9, _, a))]
        if *to == peer(4) && *x == d && *a == peer(3)));
    assert!(s.is_idle());
    // a body that does not hash to the digest is not served
    s.step(StoreEvent::Command(BatchStoreCommand::BatchRequest(peer(4), d)));
    assert!(s.step(StoreEvent::Loaded(Some(vec![vec![1, 2, 4]]))).is_empty());
    // nor is one that is not there
    s.step(StoreEvent::Command(BatchStoreCommand::BatchRequest(peer(4), d)));
    assert!(s.step(StoreEvent::Loaded(None)).is_empty());
    assert!(s.is_idle());
}

#[test]
fn unknown_and_remote_batches_are_not_served() {
    let mut s = store(100, 100);
    let d = HashValue { bytes: [8; 32] };
    assert!(s.step(StoreEvent::Command(BatchStoreCommand::BatchRequest(peer(4), d))).is_empty());
    s.register_remote(d, peer(2), LogicalTime::new(5, 10));
    assert!(s.step(StoreEvent::Command(BatchStoreCommand::BatchRequest(peer(4), d))).is_empty());
    assert!(s.is_idle());
}

#[test]
fn answer_is_taken_only_from_the_attributed_author_and_with_the_right_body() {
    let mut s = store(100, 100);
    let body = vec![vec![5, 6, 7]];
    let d = compute_digest(&peer(2), 5, 4, &body);
    // a body for a batch that the index does not know is not stored, but handed
    // to whoever waits for it, if it hashes to its digest
    let actions = s.handle_batch_response(d, 4, body.clone(), peer(2)).expect("verified");
    assert!(matches!(&actions[..], [StoreAction::Fetched(x, b)] if *x == d && b == &body));
    assert_eq!(s.location_of(&d), None);
    assert!(s.is_idle());
    assert!(matches!(
        s.handle_batch_response(d, 4, vec![vec![0]], peer(2)),
        Err(StoreError::VerificationFailure)
    ));
    s.register_remote(d, peer(2), LogicalTime::new(5, 10));
    // wrong author
    assert!(matches!(
        s.handle_batch_response(d, 4, body.clone(), peer(3)),
        Err(StoreError::VerificationFailure)
    ));
    // wrong body
    assert!(matches!(
        s.handle_batch_response(d, 4, vec![vec![5, 6, 8]], peer(2)),
        Err(StoreError::VerificationFailure)
    ));
    // wrong number of the batch
    assert!(matches!(
        s.handle_batch_response(d, 5, body.clone(), peer(2)),
        Err(StoreError::VerificationFailure)
    ));
    assert_eq!(s.location_of(&d), Some(Location::Remote));
    // right
    let actions = s.handle_batch_response(d, 4, body.clone(), peer(2)).expect("taken");
    assert!(matches!(&actions[..], [StoreAction::DbSave(r)] if r.expiration == LogicalTime::new(5, 10)));
    let actions = s.step(StoreEvent::Saved(true));
    assert!(matches!(&actions[..], [StoreAction::Fetched(x, b)] if *x == d && b == &body));
    assert_eq!(s.location_of(&d), Some(Location::Persisted));
    assert_eq!(s.db_used(), 3);
    assert_eq!(s.memory_used(), 0);
    // a second answer is ignored
    assert!(matches!(s.handle_batch_response(d, 4, body, peer(2)), Ok(a) if a.is_empty()));
}

#[test]
fn answer_larger_than_the_quota_is_refused() {
    let mut s = store(100, 2);
    let body = vec![vec![5, 6, 7]];
    let d = compute_digest(&peer(2), 5, 4, &body);
    s.register_remote(d, peer(2), LogicalTime::new(5, 10));
    assert!(matches!(
        s.handle_batch_response(d, 4, body, peer(2)),
        Err(StoreError::QuotaExceeded)
    ));
    assert_eq!(s.location_of(&d), Some(Location::Remote));
}

#[test]
fn index_evicts_the_first_of_equal_expirations() {
    let mut x = BatchIndex::new(0, 100);
    let d = |n: u8| HashValue { bytes: [n; 32] };
    let t = LogicalTime::new(1, 5);
    assert_eq!(x.install(d(1), peer(1), 1, t, 40, vec![], true), Location::Persisted);
    assert_eq!(x.install(d(2), peer(1), 2, t, 40, vec![], true), Location::Persisted);
    let disk = Budget::Disk(25, 20);
    assert_eq!(x.nearest_index(disk), Some(0));
    // at round 24 nothing is due yet
    assert_eq!(x.nearest_index(Budget::Disk(24, 20)), None);
    assert_eq!(x.reclaimable_bytes(24, 20), 0);
    assert_eq!(x.reclaimable_bytes(25, 20), 80);
    assert!(!x.can_make_room(30, 24, 20));
    assert!(x.can_make_room(30, 25, 20));
    assert!(x.can_make_room(100, 25, 20));
    assert!(!x.can_make_room(101, 25, 20));
    assert!(x.make_room(30, 24, 20).is_empty());
    assert_eq!(x.make_room(30, 25, 20), vec![d(1)]);
    assert_eq!(x.len(), 1);
    assert_eq!(x.db_used(), 40);
    assert_eq!(x.db_quota_limit(), 100);
    assert_eq!(x.memory_quota_limit(), 0);
    assert!(x.get(&d(2)).is_some());
    assert!(x.get(&d(1)).is_none());
    // remote entries are never evicted
    assert!(x.register_remote(d(3), peer(2), LogicalTime::new(0, 0)));
    assert_eq!(x.make_room(100, 25, 20), vec![d(2)]);
    assert_eq!(x.nearest_index(disk), None);
    assert_eq!(x.len(), 1);
    assert_eq!(x.find(&d(3)), Some(0));
    assert_eq!(x.entry(0).location, Location::Remote);
    x.refresh(0, LogicalTime::new(9, 9));
    assert_eq!(x.entry(0).expiration, LogicalTime::new(9, 9));
    let gone = x.collect(100, 0);
    assert_eq!(gone.len(), 1);
    assert_eq!(gone[0].digest, d(3));
}

#[test]
fn index_drops_cached_bodies_in_the_order_of_expiration() {
    let mut x = BatchIndex::new(100, 1000);
    let d = |n: u8| HashValue { bytes: [n; 32] };
    let t = |r: u64| LogicalTime::new(1, r);
    assert_eq!(x.install(d(1), peer(1), 1, t(30), 40, vec![vec![1; 40]], true), Location::Local);
    assert_eq!(x.install(d(2), peer(1), 2, t(10), 40, vec![vec![2; 40]], true), Location::Local);
    assert_eq!(x.install(d(3), peer(1), 3, t(20), 40, vec![vec![3; 40]], false), Location::Persisted);
    assert_eq!(x.memory_used(), 80);
    assert_eq!(x.nearest_index(Budget::Memory), Some(1));
    assert_eq!(x.nearest_index(Budget::Disk(100, 0)), Some(1));
    assert_eq!(x.nearest_index(Budget::Disk(15, 0)), Some(1));
    assert_eq!(x.nearest_index(Budget::Disk(9, 0)), None);
    // room for 30: the body that expires at 10 goes
    x.make_room_in_memory(30);
    assert_eq!(x.entry(1).location, Location::Persisted);
    assert!(x.entry(1).payload.is_empty());
    assert_eq!(x.entry(0).location, Location::Local);
    assert_eq!(x.memory_used(), 40);
    assert_eq!(x.db_used(), 120);
    // there is room already: nothing goes
    x.make_room_in_memory(60);
    assert_eq!(x.memory_used(), 40);
    // more than the quota: everything goes, and it is still not enough
    x.make_room_in_memory(101);
    assert_eq!(x.memory_used(), 0);
    assert_eq!(x.nearest_index(Budget::Memory), None);
    assert_eq!(x.nearest_index(Budget::Disk(100, 0)), Some(1));
    assert_eq!(x.len(), 3);
}
