use quorum_store::batch_aggregator::{AggregationMode, BatchAggregator};
use quorum_store::digest::{compute_digest, count_bytes};
use quorum_store::types::{HashValue, LogicalTime, PeerId};
use tiny_keccak::{Hasher, Sha3};

fn peer(n: u8) -> PeerId {
    PeerId { bytes: [n; 32] }
}

fn sha3(bytes: &[u8]) -> HashValue {
    let mut hasher = Sha3::v256();
    let mut out = [0u8; 32];
    hasher.update(bytes);
    hasher.finalize(&mut out);
    HashValue { bytes: out }
}

fn framed(author: &PeerId, epoch: u64, batch_id: u64, payload: &[u8]) -> Vec<u8> {
    let mut bytes = author.bytes.to_vec();
    bytes.extend_from_slice(&epoch.to_le_bytes());
    bytes.extend_from_slice(&batch_id.to_le_bytes());
    bytes.extend_from_slice(payload);
    bytes
}

#[test]
fn append_then_end_yields_concatenation() {
    let me = peer(1);
    let mut a = BatchAggregator::new(me, 2, 1000, AggregationMode::AssertWrongOrder);
    assert!(a.append_transactions(7, 0, vec![vec![1, 2, 3]]));
    assert!(a.append_transactions(7, 1, vec![vec![4], vec![5, 6]]));
    let batch = a.end_batch(7, 2, vec![vec![7]]).expect("accepted");
    assert_eq!(batch.payload, vec![vec![1, 2, 3], vec![4], vec![5, 6], vec![7]]);
    assert_eq!(batch.num_bytes, 7);
    assert_eq!(batch.digest, sha3(&framed(&me, 2, 7, &[1, 2, 3, 4, 5, 6, 7])));
}

#[test]
fn digest_is_sha3_of_author_epoch_batch_and_payload() {
    let me = peer(9);
    let d = compute_digest(&me, 2, 7, &vec![b"tx_a".to_vec(), b"tx_b".to_vec()]);
    assert_eq!(d, sha3(&framed(&me, 2, 7, b"tx_atx_b")));
    // the integers are framed with their least significant byte first
    let big = compute_digest(&me, 0x0102030405060708, 1 << 40, &vec![]);
    let mut bytes = me.bytes.to_vec();
    bytes.extend_from_slice(&[8, 7, 6, 5, 4, 3, 2, 1]);
    bytes.extend_from_slice(&[0, 0, 0, 0, 0, 1, 0, 0]);
    assert_eq!(big, sha3(&bytes));
}

#[test]
fn digest_of_nothing_is_known() {
    // SHA3-256 over 48 zero bytes: the author, the epoch and the batch are zero
    let d = compute_digest(&peer(0), 0, 0, &vec![]);
    assert_eq!(d, sha3(&[0u8; 48]));
    assert_ne!(d.bytes, [0u8; 32]);
}

#[test]
fn digest_depends_on_each_part() {
    let base = compute_digest(&peer(1), 2, 7, &vec![vec![1]]);
    assert_ne!(base, compute_digest(&peer(2), 2, 7, &vec![vec![1]]));
    assert_ne!(base, compute_digest(&peer(1), 3, 7, &vec![vec![1]]));
    assert_ne!(base, compute_digest(&peer(1), 2, 8, &vec![vec![1]]));
    assert_ne!(base, compute_digest(&peer(1), 2, 7, &vec![vec![2]]));
    // the split into blobs does not matter, only the bytes end to end
    assert_eq!(
        compute_digest(&peer(1), 2, 7, &vec![vec![1, 2], vec![3]]),
        compute_digest(&peer(1), 2, 7, &vec![vec![1], vec![2, 3]])
    );
}

#[test]
fn count_bytes_adds_the_blobs() {
    assert_eq!(count_bytes(&vec![]), Some(0));
    assert_eq!(count_bytes(&vec![vec![], vec![1, 2, 3], vec![4]]), Some(4));
}

#[test]
fn accepted_fragment_ids_are_zero_one_two() {
    let mut a = BatchAggregator::new(peer(1), 1, 100, AggregationMode::IgnoreWrongOrder);
    assert!(a.in_order(5, 0));
    assert!(!a.in_order(5, 1));
    assert!(a.append_transactions(5, 0, vec![vec![1]]));
    assert!(a.in_order(5, 1));
    assert!(!a.in_order(5, 0));
    assert!(!a.in_order(5, 2));
    assert!(!a.in_order(6, 1));
    assert!(a.append_transactions(5, 1, vec![vec![2]]));
    assert!(a.in_order(5, 2));
    assert!(a.end_batch(5, 2, vec![]).is_some());
    // the batch is over: the next one starts at zero again
    assert!(a.in_order(6, 0));
    assert!(!a.in_order(5, 3));
}

#[test]
fn fragment_out_of_order_is_dropped_and_resets() {
    let mut a = BatchAggregator::new(peer(1), 1, 100, AggregationMode::IgnoreWrongOrder);
    assert!(a.append_transactions(5, 0, vec![vec![1]]));
    assert!(!a.append_transactions(5, 2, vec![vec![3]]));
    // the batch in flight is gone: its next fragment is out of order now
    assert!(!a.in_order(5, 1));
    assert!(a.end_batch(5, 1, vec![vec![2]]).is_none());
    // a new batch can start
    assert!(a.append_transactions(6, 0, vec![vec![9]]));
    let batch = a.end_batch(6, 1, vec![]).expect("accepted");
    assert_eq!(batch.payload, vec![vec![9]]);
}

#[test]
fn new_batch_does_not_start_while_one_is_in_flight() {
    let mut a = BatchAggregator::new(peer(1), 1, 100, AggregationMode::IgnoreWrongOrder);
    assert!(a.append_transactions(5, 0, vec![vec![1]]));
    assert!(!a.append_transactions(6, 0, vec![vec![1]]));
    assert!(a.in_order(6, 0));
}

#[test]
fn terminator_before_header_is_refused() {
    let mut a = BatchAggregator::new(peer(1), 1, 100, AggregationMode::IgnoreWrongOrder);
    assert!(a.end_batch(5, 1, vec![vec![1]]).is_none());
    // a batch of one fragment is fine
    let batch = a.end_batch(5, 0, vec![vec![1]]).expect("accepted");
    assert_eq!(batch.num_bytes, 1);
}

#[test]
fn oversize_batch_fails_and_ends_the_batch() {
    let mut a = BatchAggregator::new(peer(1), 1, 4, AggregationMode::AssertWrongOrder);
    assert!(a.append_transactions(5, 0, vec![vec![1, 2, 3]]));
    // 3 + 2 bytes are more than 4
    assert!(!a.append_transactions(5, 1, vec![vec![4, 5]]));
    assert!(a.in_order(6, 0));
    // exactly at the bound is fine
    assert!(a.append_transactions(6, 0, vec![vec![1, 2]]));
    let batch = a.end_batch(6, 1, vec![vec![3, 4]]).expect("accepted");
    assert_eq!(batch.num_bytes, 4);
    // one more byte is not
    assert!(a.append_transactions(7, 0, vec![vec![1, 2]]));
    assert!(a.end_batch(7, 1, vec![vec![3, 4, 5]]).is_none());
}

#[test]
fn logical_time_is_ordered_by_epoch_then_round() {
    let a = LogicalTime::new(1, 100);
    let b = LogicalTime::new(2, 0);
    let c = LogicalTime::new(2, 1);
    assert!(a.is_before(&b));
    assert!(b.is_before(&c));
    assert!(a.is_before(&c));
    assert!(!b.is_before(&a));
    assert!(!a.is_before(&a));
    assert_eq!(a.epoch(), 1);
    assert_eq!(a.round(), 100);
    assert!(a < b && b < c);
}

#[test]
fn identities_compare_by_their_bytes() {
    assert!(peer(3).same(&peer(3)));
    assert!(!peer(3).same(&peer(4)));
    let mut x = [0u8; 32];
    x[31] = 1;
    assert!(!HashValue { bytes: x }.same(&HashValue { bytes: [0u8; 32] }));
    assert!(HashValue { bytes: x }.same(&HashValue { bytes: x }));
}
