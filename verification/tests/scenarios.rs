use quorum_store::batch_index::Location;
use quorum_store::batch_reader::{BatchReader, FetchError, ReaderAction};
use quorum_store::batch_store::{BatchStore, StoreAction, StoreEvent};
use quorum_store::digest::compute_digest;
use quorum_store::messages::{
    BatchStoreCommand, ConsensusMsg, Fragment, PersistRequest, ProofBuilderCommand, SignedDigest,
};
use quorum_store::network_listener::{ListenerAction, NetworkListener};
use quorum_store::proof_builder::ProofBuilder;
use quorum_store::quorum_store::{
    DriverAction, DriverEvent, QuorumStore, QuorumStoreCommand, QuorumStoreConfig,
    QuorumStoreError,
};
use quorum_store::types::{HashValue, LogicalTime, PeerId};
use quorum_store::validator_verifier::{ValidatorInfo, ValidatorVerifier};
use tiny_keccak::{Hasher, Sha3};

fn peer(n: u8) -> PeerId {
    PeerId { bytes: [n; 32] }
}

fn config(db_quota: usize) -> QuorumStoreConfig {
    QuorumStoreConfig {
        channel_size: 100,
        proof_timeout_ms: 1000,
        batch_request_num_peers: 2,
        batch_request_timeout_ms: 500,
        max_execution_round_lag: 20,
        max_batch_size: 10_000,
        memory_quota: 100_000,
        db_quota,
    }
}

fn committee(members: &[(u8, u64)], quorum: u128) -> ValidatorVerifier {
    let validators = members
        .iter()
        .map(|(n, w)| ValidatorInfo { address: peer(*n), voting_power: *w })
        .collect();
    ValidatorVerifier::new(validators, quorum)
}

fn blob(len: usize, fill: u8) -> Vec<u8> {
    vec![fill; len]
}

fn request(author: u8, epoch: u64, batch_id: u64, payload: Vec<Vec<u8>>, round: u64) -> PersistRequest {
    let digest = compute_digest(&peer(author), epoch, batch_id, &payload);
    let num_bytes = payload.iter().map(|b| b.len()).sum();
    PersistRequest::new(
        peer(author),
        batch_id,
        payload,
        digest,
        num_bytes,
        LogicalTime::new(epoch, round),
    )
}

/// Runs a persist command through its write, and its signing if it gets that far.
fn persist(store: &mut BatchStore, request: PersistRequest, reply: bool) -> Vec<StoreAction> {
    let mut all = store.step(StoreEvent::Command(BatchStoreCommand::Persist(request, reply)));
    if all.iter().any(|a| matches!(a, StoreAction::DbSave(_))) {
        all.extend(store.step(StoreEvent::Saved(true)));
        all.extend(store.step(StoreEvent::Signed(vec![0xAA])));
    }
    all
}

fn deleted(actions: &[StoreAction]) -> Vec<HashValue> {
    let mut out = Vec::new();
    for a in actions {
        if let StoreAction::DbDelete(d) = a {
            out.push(*d);
        }
    }
    out
}

#[test]
fn happy_path_single_validator_quorum_one() {
    let me = peer(1);
    let verifier = committee(&[(1, 1)], 1);
    let (mut driver, mut parts) = QuorumStore::new(2, 0, me, config(1 << 20), &verifier);
    let tx_a = b"tx_a".to_vec();
    let tx_b = b"tx_b".to_vec();

    // AppendToBatch([tx_a], bid=7): one fragment goes out, with fragment_id 0
    let actions =
        driver.step(DriverEvent::Command(QuorumStoreCommand::AppendToBatch(vec![tx_a.clone()], 7)));
    assert_eq!(actions.len(), 1);
    match &actions[0] {
        DriverAction::Broadcast(ConsensusMsg::FragmentMsg(f)) => {
            assert_eq!(f.fragment_id, 0);
            assert_eq!(f.batch_id, 7);
            assert_eq!(f.epoch, 2);
            assert_eq!(f.payload, vec![tx_a.clone()]);
            assert_eq!(f.maybe_expiration, None);
            assert_eq!(f.author, me);
        }
        other => panic!("unexpected {:?}", other),
    }

    // EndBatch([tx_b], bid=7, expiration=(2,100)): the batch goes to the store,
    // and no fragment goes out yet
    let expiration = LogicalTime::new(2, 100);
    let mut actions = driver.step(DriverEvent::Command(QuorumStoreCommand::EndBatch(
        vec![tx_b.clone()],
        7,
        expiration,
        55,
    )));
    assert_eq!(actions.len(), 1);
    let command = match actions.remove(0) {
        DriverAction::ToBatchStore(command) => command,
        other => panic!("unexpected {:?}", other),
    };

    // digest = H(me ‖ 2 ‖ 7 ‖ tx_a ‖ tx_b)
    let mut preimage = me.bytes.to_vec();
    preimage.extend_from_slice(&2u64.to_le_bytes());
    preimage.extend_from_slice(&7u64.to_le_bytes());
    preimage.extend_from_slice(b"tx_atx_b");
    let mut hasher = Sha3::v256();
    let mut expected = [0u8; 32];
    hasher.update(&preimage);
    hasher.finalize(&mut expected);
    let digest = HashValue { bytes: expected };
    match &command {
        BatchStoreCommand::Persist(request, reply) => {
            assert!(*reply);
            assert_eq!(request.digest, digest);
            assert_eq!(request.num_bytes, 8);
            assert_eq!(request.payload, vec![tx_a.clone(), tx_b.clone()]);
            assert_eq!(request.expiration, expiration);
            assert_eq!(request.author, me);
        }
        other => panic!("unexpected {:?}", other),
    }

    // the store writes the batch under that digest
    let store = &mut parts.batch_store;
    let actions = store.step(StoreEvent::Command(command));
    assert_eq!(actions.len(), 1);
    match &actions[0] {
        StoreAction::DbSave(record) => assert_eq!(record.digest, digest),
        other => panic!("unexpected {:?}", other),
    }
    let actions = store.step(StoreEvent::Saved(true));
    assert_eq!(actions.len(), 1);
    assert!(matches!(&actions[0], StoreAction::Sign(2, d, e) if *d == digest && *e == expiration));
    assert_eq!(store.location_of(&digest), Some(Location::Local));

    // one signed digest goes out, and one comes back to the driver
    let mut actions = store.step(StoreEvent::Signed(vec![1, 2, 3]));
    assert_eq!(actions.len(), 2);
    let local = match actions.remove(1) {
        StoreAction::Reply(signed) => signed,
        other => panic!("unexpected {:?}", other),
    };
    match &actions[0] {
        StoreAction::Broadcast(ConsensusMsg::SignedDigestMsg(signed)) => {
            assert_eq!(signed.signer, me);
            assert_eq!(signed.epoch, 2);
            assert_eq!(signed.digest, digest);
            assert_eq!(signed.expiration, expiration);
            assert_eq!(signed.signature, vec![1, 2, 3]);
        }
        other => panic!("unexpected {:?}", other),
    }

    // the driver opens the proof and only now sends the terminator
    let event = DriverEvent::Persisted(local);
    assert!(driver.accepts(&event));
    let mut actions = driver.step(event);
    assert_eq!(actions.len(), 2);
    match &actions[1] {
        DriverAction::Broadcast(ConsensusMsg::FragmentMsg(f)) => {
            assert_eq!(f.fragment_id, 1);
            assert_eq!(f.batch_id, 7);
            assert_eq!(f.payload, vec![tx_b.clone()]);
            assert_eq!(f.maybe_expiration, Some(expiration));
        }
        other => panic!("unexpected {:?}", other),
    }
    let init = match actions.remove(0) {
        DriverAction::ToProofBuilder(command) => command,
        other => panic!("unexpected {:?}", other),
    };
    assert!(matches!(&init, ProofBuilderCommand::InitProof(_, 7, 55)));

    // with a quorum of one the proof is there at once
    let reply = parts.proof_builder.handle(&verifier, init, true, 10_000).expect("proof");
    assert_eq!(reply.channel, 55);
    let (proof, batch_id) = reply.result.expect("ok");
    assert_eq!(batch_id, 7);
    assert_eq!(proof.digest, digest);
    assert_eq!(proof.expiration, expiration);
    assert_eq!(proof.signers, vec![me]);
    assert_eq!(proof.signatures, vec![vec![1, 2, 3]]);
    assert_eq!(parts.proof_builder.num_open(), 0);
    assert_eq!(driver.num_pending(), 0);
}

#[test]
fn peer_fragment_mis_order() {
    let p = peer(7);
    let mut listener = NetworkListener::new(2, 1000);
    let verifier = committee(&[(7, 1)], 1);
    let first = Fragment::new(2, 3, 0, vec![vec![1]], None, p);
    assert!(listener.handle(p, ConsensusMsg::FragmentMsg(first), &verifier, true).is_empty());
    // fragment_id 2 follows 0: dropped, and nothing is persisted
    let third = Fragment::new(2, 3, 2, vec![vec![3]], None, p);
    assert!(listener.handle(p, ConsensusMsg::FragmentMsg(third), &verifier, true).is_empty());
    // the aggregator of P was reset: not even the terminator of that batch is taken
    let late = Fragment::new(2, 3, 1, vec![vec![2]], Some(LogicalTime::new(2, 9)), p);
    assert!(listener.handle(p, ConsensusMsg::FragmentMsg(late), &verifier, true).is_empty());
    // but a new batch is
    let start = Fragment::new(2, 4, 0, vec![vec![5]], None, p);
    assert!(listener.handle(p, ConsensusMsg::FragmentMsg(start), &verifier, true).is_empty());
    let end = Fragment::new(2, 4, 1, vec![vec![6]], Some(LogicalTime::new(2, 9)), p);
    let actions = listener.handle(p, ConsensusMsg::FragmentMsg(end), &verifier, true);
    assert_eq!(actions.len(), 1);
    match &actions[0] {
        ListenerAction::ToBatchStore(BatchStoreCommand::Persist(request, reply)) => {
            assert!(!*reply);
            assert_eq!(request.payload, vec![vec![5], vec![6]]);
            assert_eq!(request.digest, compute_digest(&p, 2, 4, &vec![vec![5, 6]]));
        }
        other => panic!("unexpected {:?}", other),
    }
}

#[test]
fn proof_timeout() {
    let me = peer(1);
    let verifier = committee(&[(1, 1), (2, 1)], 2);
    let mut builder = ProofBuilder::new(1000);
    let digest = HashValue { bytes: [4; 32] };
    let local = SignedDigest::new(me, 2, digest, LogicalTime::new(2, 100), vec![9]);
    assert!(builder.init_proof(&verifier, local, 7, 55, 5_000).is_none());
    assert!(builder.is_open(&verifier, &digest));
    // before the deadline nothing happens
    assert!(builder.expire(&verifier, 5_999).is_empty());
    assert!(builder.is_open(&verifier, &digest));
    // at proof_timeout_ms the producer gets the timeout and the state is gone
    let replies = builder.expire(&verifier, 6_000);
    assert_eq!(replies.len(), 1);
    assert_eq!(replies[0].channel, 55);
    match &replies[0].result {
        Err(QuorumStoreError::Timeout(7)) => {}
        other => panic!("unexpected {:?}", other),
    }
    assert!(!builder.is_open(&verifier, &digest));
    assert_eq!(builder.num_open(), 0);
    // a signature that comes late is ignored
    let late = SignedDigest::new(peer(2), 2, digest, LogicalTime::new(2, 100), vec![8]);
    assert!(builder.add_signature(&verifier, late, true).is_none());
    assert_eq!(builder.num_open(), 0);
}

#[test]
fn fetch_on_consensus_request() {
    let me = peer(1);
    let p = peer(2);
    let mut store = BatchStore::new(2, 0, me, 20, 1 << 20, 1 << 20);
    let mut reader = BatchReader::new(vec![p, peer(3)], 1, 500);
    let mut listener = NetworkListener::new(2, 10_000);
    let verifier = committee(&[(1, 1), (2, 1), (3, 1)], 2);
    let payload = vec![vec![1, 2], vec![3]];
    let d = compute_digest(&p, 2, 11, &payload);
    assert!(store.register_remote(d, p, LogicalTime::new(2, 40)));
    assert_eq!(store.location_of(&d), Some(Location::Remote));

    // get_batch(d): the request goes to P
    let actions = reader.get(&store, d, 77, 1_000);
    assert_eq!(actions.len(), 2);
    assert!(matches!(&actions[0], ReaderAction::Request(to, x) if *to == p && *x == d));
    assert!(matches!(&actions[1], ReaderAction::ArmTimer(x, 1_500) if *x == d));
    assert!(reader.is_pending(&d));

    // the answer of P passes the listener and the store
    let msg = ConsensusMsg::BatchResponseMsg(d, 11, payload.clone(), p);
    let mut actions = listener.handle(p, msg, &verifier, true);
    assert_eq!(actions.len(), 1);
    let command = match actions.remove(0) {
        ListenerAction::ToBatchStore(command) => command,
        other => panic!("unexpected {:?}", other),
    };
    let actions = store.step(StoreEvent::Command(command));
    assert_eq!(actions.len(), 1);
    assert!(matches!(&actions[0], StoreAction::DbSave(r) if r.digest == d && r.num_bytes == 3));
    let mut actions = store.step(StoreEvent::Saved(true));
    assert_eq!(actions.len(), 1);
    let (digest, body) = match actions.remove(0) {
        StoreAction::Fetched(digest, body) => (digest, body),
        other => panic!("unexpected {:?}", other),
    };
    assert_eq!(digest, d);
    // the entry is promoted
    assert_eq!(store.location_of(&d), Some(Location::Persisted));
    assert!(store.is_idle());

    // and the waiter gets the payload
    let actions = reader.on_fetched(digest, body);
    assert_eq!(actions.len(), 1);
    match &actions[0] {
        ReaderAction::Resolve(77, Ok(got)) => assert_eq!(got, &payload),
        other => panic!("unexpected {:?}", other),
    }
    assert!(!reader.is_pending(&d));
}

#[test]
fn garbage_collection() {
    let me = peer(1);
    let mut store = BatchStore::new(3, 0, me, 20, 0, 1 << 20);
    let mut reader = BatchReader::new(vec![peer(2)], 1, 500);
    let req = request(1, 3, 1, vec![blob(10, 1)], 50);
    let d = req.digest;
    persist(&mut store, req, false);
    // with no memory to cache in the batch is on disk only
    assert_eq!(store.location_of(&d), Some(Location::Persisted));
    assert_eq!(store.db_used(), 10);

    // committed round 69: the batch is present
    assert!(store.step(StoreEvent::Command(BatchStoreCommand::Clean(69))).is_empty());
    assert_eq!(store.location_of(&d), Some(Location::Persisted));

    // someone waits for its body
    let actions = reader.get(&store, d, 5, 0);
    assert!(matches!(&actions[..], [ReaderAction::ReadFromDisk(x)] if *x == d));

    // committed round 70: the batch is deleted, and the waiter is told
    let actions = store.step(StoreEvent::Command(BatchStoreCommand::Clean(70)));
    assert_eq!(actions.len(), 1);
    let gone = match &actions[0] {
        StoreAction::Expire(x, true) => *x,
        other => panic!("unexpected {:?}", other),
    };
    assert_eq!(gone, d);
    assert_eq!(store.location_of(&d), None);
    assert_eq!(store.db_used(), 0);
    let actions = reader.on_expired(gone);
    assert!(matches!(&actions[..], [ReaderAction::Resolve(5, Err(FetchError::Expired))]));
    assert!(!reader.is_pending(&d));
}

#[test]
fn quota_eviction() {
    let me = peer(1);
    // db_quota = 1 KiB; consensus has committed round 130, so that with a lag
    // of 20 rounds the batches below are due for collection
    let mut store = BatchStore::new(3, 130, me, 20, 0, 1024);
    let a = request(1, 3, 1, vec![blob(600, 1)], 100);
    let b = request(1, 3, 2, vec![blob(600, 2)], 90);
    let c = request(1, 3, 3, vec![blob(600, 3)], 110);
    let (da, db, dc) = (a.digest, b.digest, c.digest);
    persist(&mut store, a, false);
    persist(&mut store, b, false);
    assert!(store.db_used() <= 1024);
    assert_eq!(store.location_of(&db), Some(Location::Persisted));

    // C comes: B goes first, and C is admitted
    let actions = persist(&mut store, c, false);
    let evicted = deleted(&actions);
    assert_eq!(evicted.first(), Some(&db));
    assert!(actions.iter().any(|x| matches!(x, StoreAction::DbSave(r) if r.digest == dc)));
    assert_eq!(store.location_of(&dc), Some(Location::Persisted));
    assert_eq!(store.location_of(&db), None);
    assert_eq!(store.location_of(&da), None);
    assert_eq!(store.db_used(), 600);
}

#[test]
fn quota_eviction_takes_the_nearest_expiration_first() {
    let me = peer(1);
    let mut store = BatchStore::new(3, 130, me, 20, 0, 2000);
    let a = request(1, 3, 1, vec![blob(600, 1)], 100);
    let b = request(1, 3, 2, vec![blob(600, 2)], 90);
    let c = request(1, 3, 3, vec![blob(600, 3)], 110);
    let (da, db, dc) = (a.digest, b.digest, c.digest);
    assert!(deleted(&persist(&mut store, a, false)).is_empty());
    assert!(deleted(&persist(&mut store, b, false)).is_empty());
    assert!(deleted(&persist(&mut store, c, false)).is_empty());
    assert_eq!(store.db_used(), 1800);
    // 1500 more bytes need all three to go: B (r=90), then A (r=100), then C (r=110)
    let d = request(1, 3, 4, vec![blob(1500, 4)], 95);
    let dd = d.digest;
    let actions = persist(&mut store, d, false);
    assert_eq!(deleted(&actions), vec![db, da, dc]);
    assert_eq!(store.location_of(&dd), Some(Location::Persisted));
    assert_eq!(store.db_used(), 1500);
}

#[test]
fn quota_eviction_stops_as_soon_as_the_batch_fits() {
    let me = peer(1);
    let mut store = BatchStore::new(3, 130, me, 20, 0, 2000);
    let a = request(1, 3, 1, vec![blob(600, 1)], 100);
    let b = request(1, 3, 2, vec![blob(600, 2)], 90);
    let c = request(1, 3, 3, vec![blob(600, 3)], 110);
    let (da, db, dc) = (a.digest, b.digest, c.digest);
    persist(&mut store, a, false);
    persist(&mut store, b, false);
    persist(&mut store, c, false);
    let d = request(1, 3, 4, vec![blob(700, 4)], 95);
    let actions = persist(&mut store, d, false);
    assert_eq!(deleted(&actions), vec![db]);
    assert_eq!(store.location_of(&da), Some(Location::Persisted));
    assert_eq!(store.location_of(&dc), Some(Location::Persisted));
    assert_eq!(store.db_used(), 1900);
}

#[test]
fn quota_eviction_spares_what_is_not_due() {
    let me = peer(1);
    // committed round 115: B (r=90) is due for collection, A (r=100) is not
    let mut store = BatchStore::new(3, 115, me, 20, 0, 2000);
    let a = request(1, 3, 1, vec![blob(600, 1)], 100);
    let b = request(1, 3, 2, vec![blob(600, 2)], 90);
    let (da, db) = (a.digest, b.digest);
    persist(&mut store, a, false);
    persist(&mut store, b, false);
    // 1500 more bytes would need both to go: the batch is refused and both stay
    let big = request(1, 3, 3, vec![blob(1500, 3)], 200);
    assert!(persist(&mut store, big, true).is_empty());
    assert_eq!(store.location_of(&da), Some(Location::Persisted));
    assert_eq!(store.location_of(&db), Some(Location::Persisted));
    assert_eq!(store.db_used(), 1200);
    // 1400 fit once B is gone
    let fits = request(1, 3, 4, vec![blob(1400, 4)], 200);
    let actions = persist(&mut store, fits, false);
    assert_eq!(deleted(&actions), vec![db]);
    assert_eq!(store.location_of(&da), Some(Location::Persisted));
    assert_eq!(store.db_used(), 2000);
}
