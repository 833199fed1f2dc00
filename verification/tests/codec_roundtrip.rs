use quorum_store::codec::{decode_record, encode_record};
use quorum_store::digest::compute_digest;
use quorum_store::messages::PersistRequest;
use quorum_store::types::{LogicalTime, PeerId};

fn peer(n: u8) -> PeerId {
    PeerId { bytes: [n; 32] }
}

fn make(payload: Vec<Vec<u8>>) -> PersistRequest {
    let digest = compute_digest(&peer(3), 5, 9, &payload);
    let n = payload.iter().map(|b| b.len()).sum();
    PersistRequest::new(peer(3), 9, payload, digest, n, LogicalTime::new(5, 30))
}

#[test]
fn record_has_the_stated_layout() {
    let bytes = encode_record(&make(vec![vec![0xAA, 0xBB], vec![], vec![0xCC]]));
    let mut expected = vec![3u8; 32];
    expected.extend_from_slice(&[9, 0, 0, 0, 0, 0, 0, 0]); // number of the batch
    expected.extend_from_slice(&[5, 0, 0, 0, 0, 0, 0, 0]); // epoch
    expected.extend_from_slice(&[30, 0, 0, 0, 0, 0, 0, 0]); // round
    expected.extend_from_slice(&[3, 0, 0, 0, 0, 0, 0, 0]); // size
    expected.extend_from_slice(&[3, 0, 0, 0, 0, 0, 0, 0]); // number of blobs
    expected.extend_from_slice(&[2, 0, 0, 0, 0, 0, 0, 0, 0xAA, 0xBB]);
    expected.extend_from_slice(&[0, 0, 0, 0, 0, 0, 0, 0]);
    expected.extend_from_slice(&[1, 0, 0, 0, 0, 0, 0, 0, 0xCC]);
    assert_eq!(bytes, expected);
}

#[test]
fn record_is_read_back_as_it_was_written() {
    let request = make(vec![vec![1, 2, 3], vec![], vec![4; 300]]);
    let back = decode_record(&encode_record(&request)).expect("readable");
    assert_eq!(back.author, request.author);
    assert_eq!(back.batch_id, 9);
    assert_eq!(back.expiration, LogicalTime::new(5, 30));
    assert_eq!(back.num_bytes, 303);
    assert_eq!(back.payload, request.payload);
    // and hashes to the digest that it had
    assert_eq!(compute_digest(&back.author, 5, back.batch_id, &back.payload), request.digest);
}

#[test]
fn empty_payload_is_read_back() {
    let back = decode_record(&encode_record(&make(vec![]))).expect("readable");
    assert!(back.payload.is_empty());
    assert_eq!(back.num_bytes, 0);
}

#[test]
fn numbers_are_read_least_significant_byte_first() {
    let mut bytes = vec![1u8; 32];
    bytes.extend_from_slice(&[1, 2, 3, 4, 5, 6, 7, 8]);
    bytes.extend_from_slice(&[0xFF; 8]);
    bytes.extend_from_slice(&[0, 1, 0, 0, 0, 0, 0, 0]);
    bytes.extend_from_slice(&[7, 0, 0, 0, 0, 0, 0, 0]);
    bytes.extend_from_slice(&[0; 8]);
    let back = decode_record(&bytes).expect("readable");
    assert_eq!(back.batch_id, 0x0807060504030201);
    assert_eq!(back.expiration, LogicalTime::new(u64::MAX, 256));
    assert_eq!(back.num_bytes, 7);
    assert!(back.payload.is_empty());
}

#[test]
fn truncated_or_overlong_records_are_not_read() {
    let bytes = encode_record(&make(vec![vec![1, 2, 3], vec![4]]));
    for cut in 0..bytes.len() {
        assert!(decode_record(&bytes[..cut].to_vec()).is_none(), "cut at {}", cut);
    }
    let mut longer = bytes.clone();
    longer.push(0);
    assert!(decode_record(&longer).is_none());
    assert!(decode_record(&bytes).is_some());
}

#[test]
fn blob_longer_than_the_input_is_not_read() {
    let mut bytes = encode_record(&make(vec![vec![1, 2, 3]]));
    // the length of the blob claims more than there is
    bytes[72] = 4;
    assert!(decode_record(&bytes).is_none());
    bytes[72] = 0xFF;
    bytes[79] = 0xFF;
    assert!(decode_record(&bytes).is_none());
    // a count of blobs that the input does not hold
    let mut bytes = encode_record(&make(vec![vec![1, 2, 3]]));
    bytes[64] = 2;
    assert!(decode_record(&bytes).is_none());
    bytes[64] = 0;
    assert!(decode_record(&bytes).is_none());
}
