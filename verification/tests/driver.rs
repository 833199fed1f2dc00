use quorum_store::digest::compute_digest;
use quorum_store::messages::{BatchStoreCommand, ConsensusMsg, ProofBuilderCommand, SignedDigest};
use quorum_store::quorum_store::{
    DriverAction, DriverEvent, QuorumStore, QuorumStoreCommand, QuorumStoreConfig,
    QuorumStoreError,
};
use quorum_store::types::{HashValue, LogicalTime, PeerId};
use quorum_store::validator_verifier::{ValidatorInfo, ValidatorVerifier};

fn peer(n: u8) -> PeerId {
    PeerId { bytes: [n; 32] }
}

fn driver(max_batch_size: usize) -> QuorumStore {
    let config = QuorumStoreConfig {
        channel_size: 10,
        proof_timeout_ms: 1000,
        batch_request_num_peers: 2,
        batch_request_timeout_ms: 500,
        max_execution_round_lag: 20,
        max_batch_size,
        memory_quota: 1000,
        db_quota: 1000,
    };
    let verifier = ValidatorVerifier::new(
        vec![
            ValidatorInfo { address: peer(1), voting_power: 1 },
            ValidatorInfo { address: peer(2), voting_power: 1 },
        ],
        2,
    );
    let (q, parts) = QuorumStore::new(4, 9, peer(1), config, &verifier);
    assert!(parts.batch_store.is_idle());
    assert_eq!(parts.batch_store.epoch(), 4);
    assert_eq!(parts.proof_builder.num_open(), 0);
    q
}

fn append(payload: Vec<Vec<u8>>, batch_id: u64) -> DriverEvent {
    DriverEvent::Command(QuorumStoreCommand::AppendToBatch(payload, batch_id))
}

fn end(payload: Vec<Vec<u8>>, batch_id: u64, round: u64, channel: u64) -> DriverEvent {
    DriverEvent::Command(QuorumStoreCommand::EndBatch(
        payload,
        batch_id,
        LogicalTime::new(4, round),
        channel,
    ))
}

fn fragment_ids(actions: &[DriverAction]) -> Vec<(usize, bool)> {
    let mut out = Vec::new();
    for a in actions {
        if let DriverAction::Broadcast(ConsensusMsg::FragmentMsg(f)) = a {
            out.push((f.fragment_id, f.maybe_expiration.is_some()));
        }
    }
    out
}

#[test]
fn fragments_go_out_in_order_and_only_the_last_carries_the_expiration() {
    let mut q = driver(1000);
    let mut sent = Vec::new();
    sent.extend(fragment_ids(&q.step(append(vec![vec![1]], 3))));
    sent.extend(fragment_ids(&q.step(append(vec![vec![2]], 3))));
    sent.extend(fragment_ids(&q.step(append(vec![vec![3]], 3))));
    let actions = q.step(end(vec![vec![4]], 3, 50, 8));
    // the terminator is held back until the batch is persisted
    assert!(fragment_ids(&actions).is_empty());
    let digest = match &actions[..] {
        [DriverAction::ToBatchStore(BatchStoreCommand::Persist(r, true))] => {
            assert_eq!(r.payload, vec![vec![1], vec![2], vec![3], vec![4]]);
            assert_eq!(r.batch_id, 3);
            r.digest
        }
        other => panic!("unexpected {:?}", other),
    };
    assert_eq!(digest, compute_digest(&peer(1), 4, 3, &vec![vec![1, 2, 3, 4]]));
    assert_eq!(q.num_pending(), 1);
    let local = SignedDigest::new(peer(1), 4, digest, LogicalTime::new(4, 50), vec![]);
    sent.extend(fragment_ids(&q.step(DriverEvent::Persisted(local))));
    assert_eq!(sent, vec![(0, false), (1, false), (2, false), (3, true)]);
    assert_eq!(q.num_pending(), 0);
}

#[test]
fn counter_starts_again_after_each_batch() {
    let mut q = driver(1000);
    q.step(append(vec![vec![1]], 3));
    q.step(end(vec![], 3, 50, 8));
    assert!(q.in_order(4));
    assert_eq!(fragment_ids(&q.step(append(vec![vec![1]], 4))), vec![(0, false)]);
    assert_eq!(fragment_ids(&q.step(append(vec![vec![1]], 4))), vec![(1, false)]);
}

#[test]
fn commands_out_of_order_are_not_accepted() {
    let mut q = driver(1000);
    assert!(q.accepts(&append(vec![], 3)));
    q.step(append(vec![vec![1]], 3));
    // another batch while this one is in flight
    assert!(!q.accepts(&append(vec![], 4)));
    assert!(!q.accepts(&end(vec![], 4, 1, 1)));
    assert!(!q.in_order(4));
    assert!(q.accepts(&end(vec![], 3, 1, 1)));
    // an answer of the store for a batch that is not pending
    let stray = SignedDigest::new(peer(1), 4, HashValue { bytes: [0; 32] }, LogicalTime::new(4, 1), vec![]);
    assert!(!q.accepts(&DriverEvent::Persisted(stray)));
    // a failure for a batch that is not pending changes nothing
    let nothing = DriverEvent::PersistFailed(HashValue { bytes: [0; 32] });
    assert!(q.accepts(&nothing));
    assert!(q.step(nothing).is_empty());
}

#[test]
fn oversize_fragment_is_not_sent_and_ends_the_batch() {
    let mut q = driver(4);
    assert_eq!(q.step(append(vec![vec![1, 2, 3]], 3)).len(), 1);
    // two more bytes do not fit: nothing goes out
    assert!(q.step(append(vec![vec![4, 5]], 3)).is_empty());
    // the counter has moved on while the aggregator is idle: nothing is in order now
    assert!(!q.accepts(&append(vec![], 3)));
    assert!(!q.accepts(&end(vec![], 3, 1, 1)));
    assert!(!q.accepts(&append(vec![], 4)));
}

#[test]
fn oversize_terminator_persists_nothing() {
    let mut q = driver(4);
    q.step(append(vec![vec![1, 2, 3]], 3));
    assert!(q.step(end(vec![vec![4, 5]], 3, 1, 1)).is_empty());
    assert_eq!(q.num_pending(), 0);
    // the next batch is fine
    assert!(q.accepts(&append(vec![], 4)));
}

#[test]
fn handlers_say_what_step_does() {
    let mut q = driver(1000);
    let msg = q.handle_append_to_batch(vec![vec![1]], 3).expect("accepted");
    assert!(matches!(&msg, ConsensusMsg::FragmentMsg(f) if f.fragment_id == 0 && f.epoch == 4));
    // the counter is moved by `step`, not by the handler: the same fragment is out of order now
    assert!(!q.in_order(3));
    let mut q = driver(1000);
    let command = q.handle_end_batch(vec![vec![1]], 3, LogicalTime::new(4, 5), 2).expect("accepted");
    let digest = match &command {
        BatchStoreCommand::Persist(r, true) => r.digest,
        other => panic!("unexpected {:?}", other),
    };
    let local = SignedDigest::new(peer(1), 4, digest, LogicalTime::new(4, 5), vec![6]);
    let (init, last) = q.handle_persisted(local);
    assert!(matches!(&init, ProofBuilderCommand::InitProof(s, 3, 2) if s.signature == vec![6]));
    assert!(matches!(&last, ConsensusMsg::FragmentMsg(f)
        if f.fragment_id == 0 && f.maybe_expiration == Some(LogicalTime::new(4, 5))));
}

#[test]
fn same_batch_again_replaces_what_was_pending() {
    let mut q = driver(1000);
    q.step(end(vec![vec![1]], 3, 5, 10));
    q.step(end(vec![vec![1]], 3, 6, 11));
    assert_eq!(q.num_pending(), 1);
    let digest = compute_digest(&peer(1), 4, 3, &vec![vec![1]]);
    let local = SignedDigest::new(peer(1), 4, digest, LogicalTime::new(4, 6), vec![]);
    let actions = q.step(DriverEvent::Persisted(local));
    assert!(matches!(&actions[0], DriverAction::ToProofBuilder(ProofBuilderCommand::InitProof(_, 3, 11))));
}

#[test]
fn failed_persist_reaches_the_producer_as_a_timeout() {
    let mut q = driver(1000);
    q.step(append(vec![vec![1]], 3));
    q.step(end(vec![vec![2]], 3, 5, 10));
    let digest = compute_digest(&peer(1), 4, 3, &vec![vec![1, 2]]);
    let actions = q.step(DriverEvent::PersistFailed(digest));
    assert!(matches!(&actions[..], [DriverAction::Return(10, QuorumStoreError::Timeout(3))]));
    assert_eq!(q.num_pending(), 0);
    // the terminator never goes out, and a late answer of the store is not accepted
    let late = SignedDigest::new(peer(1), 4, digest, LogicalTime::new(4, 5), vec![]);
    assert!(!q.accepts(&DriverEvent::Persisted(late)));
    assert!(q.step(DriverEvent::PersistFailed(digest)).is_empty());
    // the producer can go on with a fresh batch
    assert!(q.accepts(&append(vec![], 4)));
}

#[test]
fn teardown_tells_every_producer_that_waits() {
    let mut q = driver(1000);
    q.step(end(vec![vec![1]], 3, 5, 10));
    q.step(end(vec![vec![2]], 4, 5, 11));
    assert_eq!(q.num_pending(), 2);
    let mut replies = q.drain();
    replies.sort_by_key(|r| r.0);
    assert_eq!(
        replies,
        vec![(10, QuorumStoreError::Timeout(3)), (11, QuorumStoreError::Timeout(4))]
    );
    assert_eq!(q.num_pending(), 0);
    assert!(q.drain().is_empty());
}
