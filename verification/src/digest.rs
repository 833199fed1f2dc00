//! The digest of a batch: a SHA3-256 hash over the author, the epoch, the
//! batch identifier and the payload, laid out canonically.
//!
//! The hash is computed by `tiny-keccak`, the integers are laid out by
//! `bcs`.

use crate::types::{concat, BatchId, Data, HashValue, PeerId};
use vstd::bytes::spec_u64_to_le_bytes;
use vstd::prelude::*;

verus! {

/// The SHA3-256 hash of a byte string.
pub uninterp spec fn sha3_256(input: Seq<u8>) -> Seq<u8>;

/// Hashes `input` with `tiny_keccak::Sha3::v256`: a fresh hasher absorbs the
/// whole input once and is squeezed into 32 bytes. The contract claims only
/// that the outcome is a function of the input bytes, which it names.
#[verifier::external_body]
pub(crate) fn sha3_256_of(input: &Vec<u8>) -> (out: HashValue)
    ensures
        out@ == sha3_256(input@),
{
    let mut hasher = tiny_keccak::Sha3::v256();
    let mut bytes = [0u8; 32];
    tiny_keccak::Hasher::update(&mut hasher, input.as_slice());
    tiny_keccak::Hasher::finalize(hasher, &mut bytes);
    HashValue { bytes }
}

/// Encodes an unsigned 64-bit integer with `bcs::to_bytes`. The canonical
/// encoding of a `u64` is its eight bytes, least significant first, and
/// writing them into a fresh vector cannot fail.
#[verifier::external_body]
pub(crate) fn encode_u64(x: u64) -> (out: Option<Vec<u8>>)
    ensures
        out is Some,
        out->Some_0@ == spec_u64_to_le_bytes(x),
{
    bcs::to_bytes(&x).ok()
}

/// The bytes that are hashed for a batch:
/// `author ‖ epoch ‖ batch_id ‖ concat(payload)`.
pub open spec fn digest_preimage(
    author: Seq<u8>,
    epoch: u64,
    batch_id: BatchId,
    payload: Seq<Seq<u8>>,
) -> Seq<u8> {
    author + spec_u64_to_le_bytes(epoch) + spec_u64_to_le_bytes(batch_id) + concat(payload)
}

/// The digest of a batch.
pub open spec fn batch_digest(
    author: Seq<u8>,
    epoch: u64,
    batch_id: BatchId,
    payload: Seq<Seq<u8>>,
) -> Seq<u8> {
    sha3_256(digest_preimage(author, epoch, batch_id, payload))
}

/// Number of bytes in a payload.
pub open spec fn payload_len(payload: Seq<Seq<u8>>) -> nat {
    concat(payload).len()
}

/// Appends every blob of `payload` to `buf`.
pub fn append_payload(buf: &mut Vec<u8>, payload: &Data)
    ensures
        final(buf)@ == old(buf)@ + concat(payload.deep_view()),
{
    let ghost start = buf@;
    let mut i: usize = 0;
    while i < payload.len()
        invariant
            i <= payload.len(),
            buf@ == start + concat(payload.deep_view().subrange(0, i as int)),
        decreases payload.len() - i,
    {
        let ghost before = payload.deep_view().subrange(0, i as int);
        let mut j: usize = 0;
        let blob = &payload[i];
        let ghost base = buf@;
        while j < blob.len()
            invariant
                j <= blob.len(),
                buf@ == base + blob@.subrange(0, j as int),
            decreases blob.len() - j,
        {
            buf.push(blob[j]);
            assert(blob@.subrange(0, j as int).push(blob@[j as int]) =~= blob@.subrange(
                0,
                j + 1 as int,
            ));
            j += 1;
        }
        proof {
            assert(blob@.subrange(0, blob@.len() as int) =~= blob@);
            assert(payload.deep_view()[i as int] == blob@);
            assert(payload.deep_view().subrange(0, i + 1 as int) =~= before.push(blob@));
            before.lemma_flatten_push(blob@);
            assert(buf@ =~= start + concat(before.push(blob@)));
        }
        i += 1;
    }
    assert(payload.deep_view().subrange(0, payload.len() as int) =~= payload.deep_view());
}

/// Computes the digest of the batch `(author, epoch, batch_id, payload)`.
pub fn compute_digest(author: &PeerId, epoch: u64, batch_id: BatchId, payload: &Data) -> (out:
    HashValue)
    ensures
        out@ == batch_digest(author@, epoch, batch_id, payload.deep_view()),
{
    let mut buf: Vec<u8> = Vec::new();
    let mut i: usize = 0;
    while i < 32
        invariant
            i <= 32,
            buf@ == author@.subrange(0, i as int),
        decreases 32 - i,
    {
        buf.push(author.bytes[i]);
        assert(author@.subrange(0, i as int).push(author@[i as int]) =~= author@.subrange(
            0,
            i + 1 as int,
        ));
        i += 1;
    }
    assert(author@.subrange(0, 32) =~= author@);
    let mut e = encode_u64(epoch).unwrap();
    buf.append(&mut e);
    let mut b = encode_u64(batch_id).unwrap();
    buf.append(&mut b);
    append_payload(&mut buf, payload);
    sha3_256_of(&buf)
}

/// Total number of bytes in `payload`, or `None` where it does not fit the
/// machine's word.
pub fn count_bytes(payload: &Data) -> (n: Option<usize>)
    ensures
        match n {
            Some(k) => k == payload_len(payload.deep_view()),
            None => payload_len(payload.deep_view()) > usize::MAX,
        },
{
    let mut total: usize = 0;
    let mut i: usize = 0;
    while i < payload.len()
        invariant
            i <= payload.len(),
            total == payload_len(payload.deep_view().subrange(0, i as int)),
        decreases payload.len() - i,
    {
        let ghost before = payload.deep_view().subrange(0, i as int);
        let ghost blob = payload.deep_view()[i as int];
        proof {
            assert(blob == payload[i as int]@);
            assert(payload.deep_view().subrange(0, i + 1 as int) =~= before.push(blob));
            before.lemma_flatten_push(blob);
        }
        match total.checked_add(payload[i].len()) {
            Some(t) => {
                total = t;
            },
            None => {
                proof {
                    let rest = payload.deep_view().subrange(i + 1 as int, payload.len() as int);
                    assert(payload.deep_view() =~= before.push(blob) + rest);
                    vstd::seq_lib::lemma_flatten_concat(before.push(blob), rest);
                }
                return None;
            },
        }
        i += 1;
    }
    assert(payload.deep_view().subrange(0, payload.len() as int) =~= payload.deep_view());
    Some(total)
}

} // verus!
