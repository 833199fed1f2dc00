//! The layout of a batch on disk.
//!
//! A batch is stored under its digest as: the author, 32 bytes; the number
//! of the batch, the epoch and the round of its expiration, and its size,
//! each as eight bytes, least significant first; the number of blobs in the
//! same form; and then each blob, its length in the same form before its
//! bytes.

use crate::digest::{batch_digest, encode_u64};
use crate::messages::{PersistRequest, PersistRequestView};
use crate::types::{BatchId, Data, LogicalTime, PeerId};
use vstd::bytes::{
    lemma_auto_spec_u64_to_from_le_bytes, spec_u64_from_le_bytes, spec_u64_to_le_bytes,
};
use vstd::prelude::*;

verus! {

/// A stored batch, as mathematical values.
pub ghost struct RecordView {
    pub author: Seq<u8>,
    pub batch_id: BatchId,
    pub expiration: LogicalTime,
    pub num_bytes: u64,
    pub payload: Seq<Seq<u8>>,
}

/// A batch as it is read from disk.
#[derive(Debug)]
pub struct StoredBatch {
    pub author: PeerId,
    pub batch_id: BatchId,
    pub expiration: LogicalTime,
    pub num_bytes: u64,
    pub payload: Data,
}

impl View for StoredBatch {
    type V = RecordView;

    open spec fn view(&self) -> RecordView {
        RecordView {
            author: self.author@,
            batch_id: self.batch_id,
            expiration: self.expiration,
            num_bytes: self.num_bytes,
            payload: self.payload.deep_view(),
        }
    }
}

/// The blobs, each with its length before it.
pub open spec fn blobs_bytes(p: Seq<Seq<u8>>) -> Seq<u8>
    decreases p.len(),
{
    if p.len() == 0 {
        Seq::empty()
    } else {
        spec_u64_to_le_bytes(p.first().len() as u64) + p.first() + blobs_bytes(p.drop_first())
    }
}

/// The bytes that stand for a batch on disk.
pub open spec fn record_bytes(r: RecordView) -> Seq<u8> {
    r.author + spec_u64_to_le_bytes(r.batch_id) + spec_u64_to_le_bytes(r.expiration.epoch)
        + spec_u64_to_le_bytes(r.expiration.round) + spec_u64_to_le_bytes(r.num_bytes)
        + spec_u64_to_le_bytes(r.payload.len() as u64) + blobs_bytes(r.payload)
}

/// Whether a batch can be written down: its author has 32 bytes, and the
/// number of blobs and the length of each fit in eight bytes.
pub open spec fn encodable(r: RecordView) -> bool {
    &&& r.author.len() == 32
    &&& r.payload.len() <= u64::MAX
    &&& forall|i: int| 0 <= i < r.payload.len() ==> (#[trigger] r.payload[i]).len() <= u64::MAX
}

/// The number that the first eight bytes stand for, and what follows them.
pub open spec fn take_u64(b: Seq<u8>) -> Option<(u64, Seq<u8>)> {
    if b.len() < 8 {
        None
    } else {
        Some((spec_u64_from_le_bytes(b.subrange(0, 8)), b.subrange(8, b.len() as int)))
    }
}

/// The `count` blobs that `b` stands for, if it stands for as many and for
/// nothing more.
pub open spec fn parse_blobs(b: Seq<u8>, count: nat) -> Option<Seq<Seq<u8>>>
    decreases count,
{
    if count == 0 {
        if b.len() == 0 {
            Some(Seq::empty())
        } else {
            None
        }
    } else {
        match take_u64(b) {
            None => None,
            Some((n, rest)) => if rest.len() < n {
                None
            } else {
                match parse_blobs(rest.subrange(n as int, rest.len() as int), (count - 1) as nat) {
                    None => None,
                    Some(more) => Some(seq![rest.subrange(0, n as int)] + more),
                }
            },
        }
    }
}

/// The batch that `b` stands for, if it stands for one.
pub open spec fn parse_record(b: Seq<u8>) -> Option<RecordView> {
    if b.len() < 72 {
        None
    } else {
        match parse_blobs(
            b.subrange(72, b.len() as int),
            spec_u64_from_le_bytes(b.subrange(64, 72)) as nat,
        ) {
            None => None,
            Some(payload) => Some(
                RecordView {
                    author: b.subrange(0, 32),
                    batch_id: spec_u64_from_le_bytes(b.subrange(32, 40)),
                    expiration: LogicalTime {
                        epoch: spec_u64_from_le_bytes(b.subrange(40, 48)),
                        round: spec_u64_from_le_bytes(b.subrange(48, 56)),
                    },
                    num_bytes: spec_u64_from_le_bytes(b.subrange(56, 64)),
                    payload,
                },
            ),
        }
    }
}

/// Blobs that are written down are read back as they were.
pub proof fn blobs_round_trip(p: Seq<Seq<u8>>)
    requires
        p.len() <= u64::MAX,
        forall|i: int| 0 <= i < p.len() ==> (#[trigger] p[i]).len() <= u64::MAX,
    ensures
        parse_blobs(blobs_bytes(p), p.len()) == Some(p),
    decreases p.len(),
{
    lemma_auto_spec_u64_to_from_le_bytes();
    if p.len() > 0 {
        let head = p.first();
        let tail = p.drop_first();
        let n = head.len() as u64;
        let b = blobs_bytes(p);
        assert(p[0].len() <= u64::MAX);
        assert forall|i: int| 0 <= i < tail.len() implies (#[trigger] tail[i]).len()
            <= u64::MAX by {
            assert(tail[i] == p[i + 1]);
        }
        blobs_round_trip(tail);
        assert(b.subrange(0, 8) =~= spec_u64_to_le_bytes(n));
        let rest = b.subrange(8, b.len() as int);
        assert(rest =~= head + blobs_bytes(tail));
        assert(rest.subrange(0, n as int) =~= head);
        assert(rest.subrange(n as int, rest.len() as int) =~= blobs_bytes(tail));
        assert(seq![head] + tail =~= p);
    }
}

/// A batch that is written down is read back as it was.
pub proof fn record_round_trip(r: RecordView)
    requires
        encodable(r),
    ensures
        parse_record(record_bytes(r)) == Some(r),
{
    lemma_auto_spec_u64_to_from_le_bytes();
    let b = record_bytes(r);
    blobs_round_trip(r.payload);
    assert(b.subrange(0, 32) =~= r.author);
    assert(b.subrange(32, 40) =~= spec_u64_to_le_bytes(r.batch_id));
    assert(b.subrange(40, 48) =~= spec_u64_to_le_bytes(r.expiration.epoch));
    assert(b.subrange(48, 56) =~= spec_u64_to_le_bytes(r.expiration.round));
    assert(b.subrange(56, 64) =~= spec_u64_to_le_bytes(r.num_bytes));
    assert(b.subrange(64, 72) =~= spec_u64_to_le_bytes(r.payload.len() as u64));
    assert(b.subrange(72, b.len() as int) =~= blobs_bytes(r.payload));
}

/// Decodes an unsigned 64-bit integer with `bcs::from_bytes`. The decoder
/// yields a number if and only if the input has exactly eight bytes, and the
/// number is the one that they stand for, least significant byte first.
#[verifier::external_body]
pub(crate) fn decode_u64(bytes: &Vec<u8>) -> (out: Option<u64>)
    ensures
        out is Some == (bytes@.len() == 8),
        out is Some ==> out->Some_0 == spec_u64_from_le_bytes(bytes@),
{
    bcs::from_bytes::<u64>(bytes.as_slice()).ok()
}

/// Appends the eight bytes of `x` to `buf`.
fn put_u64(buf: &mut Vec<u8>, x: u64)
    ensures
        final(buf)@ == old(buf)@ + spec_u64_to_le_bytes(x),
{
    let mut e = encode_u64(x).unwrap();
    buf.append(&mut e);
}

/// Appends the bytes of `blob` to `buf`.
fn put_bytes(buf: &mut Vec<u8>, blob: &Vec<u8>)
    ensures
        final(buf)@ == old(buf)@ + blob@,
{
    let ghost start = buf@;
    let mut j: usize = 0;
    while j < blob.len()
        invariant
            j <= blob@.len(),
            buf@ == start + blob@.subrange(0, j as int),
        decreases blob@.len() - j,
    {
        buf.push(blob[j]);
        assert(blob@.subrange(0, j as int).push(blob@[j as int]) =~= blob@.subrange(
            0,
            j + 1 as int,
        ));
        j += 1;
    }
    assert(blob@.subrange(0, blob@.len() as int) =~= blob@);
}

/// The bytes of `bytes` from `from` up to `to`.
fn copy_range(bytes: &Vec<u8>, from: usize, to: usize) -> (out: Vec<u8>)
    requires
        from <= to <= bytes@.len(),
    ensures
        out@ == bytes@.subrange(from as int, to as int),
{
    let mut out: Vec<u8> = Vec::new();
    let mut j: usize = from;
    while j < to
        invariant
            from <= j <= to <= bytes@.len(),
            out@ == bytes@.subrange(from as int, j as int),
        decreases to - j,
    {
        out.push(bytes[j]);
        assert(bytes@.subrange(from as int, j as int).push(bytes@[j as int]) =~= bytes@.subrange(
            from as int,
            j + 1 as int,
        ));
        j += 1;
    }
    out
}

/// The batch of a request as it is stored.
pub open spec fn record_of(request: PersistRequestView) -> RecordView {
    RecordView {
        author: request.author,
        batch_id: request.batch_id,
        expiration: request.expiration,
        num_bytes: request.num_bytes as u64,
        payload: request.payload,
    }
}

/// Writes a batch down. Every batch can be written down, and what is
/// written is read back as the batch that it was.
pub fn encode_record(request: &PersistRequest) -> (out: Vec<u8>)
    ensures
        out@ == record_bytes(record_of(request@)),
        encodable(record_of(request@)),
        parse_record(out@) == Some(record_of(request@)),
{
    proof {
        let r = record_of(request@);
        assert forall|i: int| 0 <= i < r.payload.len() implies (#[trigger] r.payload[i]).len()
            <= u64::MAX by {
            assert(request.payload.deep_view()[i] == request.payload@[i]@);
            assert(request.payload@[i]@.len() == request.payload@[i].len());
            assert(request.payload@[i].len() <= usize::MAX);
        }
        assert(r.payload.len() == request.payload@.len());
        assert(request.payload@.len() == request.payload.len());
        assert(r.payload.len() <= u64::MAX);
        assert(r.author == request.author.bytes@);
        assert(r.author.len() == 32);
        record_round_trip(r);
    }
    let mut out: Vec<u8> = Vec::new();
    let mut i: usize = 0;
    while i < 32
        invariant
            i <= 32,
            out@ == request.author@.subrange(0, i as int),
        decreases 32 - i,
    {
        out.push(request.author.bytes[i]);
        assert(request.author@.subrange(0, i as int).push(request.author@[i as int])
            =~= request.author@.subrange(0, i + 1 as int));
        i += 1;
    }
    assert(request.author@.subrange(0, 32) =~= request.author@);
    put_u64(&mut out, request.batch_id);
    put_u64(&mut out, request.expiration.epoch);
    put_u64(&mut out, request.expiration.round);
    put_u64(&mut out, request.num_bytes as u64);
    put_u64(&mut out, request.payload.len() as u64);
    let ghost head = out@;
    let ghost p = request.payload.deep_view();
    let mut k: usize = 0;
    assert(p.subrange(0, p.len() as int) =~= p);
    while k < request.payload.len()
        invariant
            k <= request.payload@.len(),
            p == request.payload.deep_view(),
            out@ + blobs_bytes(p.subrange(k as int, p.len() as int)) == head + blobs_bytes(p),
        decreases request.payload@.len() - k,
    {
        let blob = &request.payload[k];
        let ghost before = out@;
        let ghost rest = p.subrange(k as int, p.len() as int);
        assert(rest.first() == blob@);
        assert(rest.drop_first() =~= p.subrange(k + 1 as int, p.len() as int));
        put_u64(&mut out, blob.len() as u64);
        put_bytes(&mut out, blob);
        assert(out@ + blobs_bytes(rest.drop_first()) =~= before + blobs_bytes(rest));
        k += 1;
    }
    assert(out@ =~= head + blobs_bytes(p)) by {
        assert(p.subrange(p.len() as int, p.len() as int) =~= Seq::<Seq<u8>>::empty());
        assert(out@ + Seq::<u8>::empty() =~= out@);
    }
    out
}

/// The number that the eight bytes from `pos` on stand for, if there are
/// as many.
fn read_u64(bytes: &Vec<u8>, pos: usize) -> (out: Option<u64>)
    requires
        pos <= bytes@.len(),
    ensures
        match take_u64(bytes@.subrange(pos as int, bytes@.len() as int)) {
            Some((x, rest)) => out == Some(x) && pos + 8 <= bytes@.len() && rest
                == bytes@.subrange(pos + 8, bytes@.len() as int),
            None => out is None,
        },
{
    let ghost tail = bytes@.subrange(pos as int, bytes@.len() as int);
    if bytes.len() - pos < 8 {
        return None;
    }
    let chunk = copy_range(bytes, pos, pos + 8);
    assert(tail.subrange(0, 8) =~= chunk@);
    assert(tail.subrange(8, tail.len() as int) =~= bytes@.subrange(pos + 8, bytes@.len() as int));
    decode_u64(&chunk)
}

/// Reads a batch back.
pub fn decode_record(bytes: &Vec<u8>) -> (out: Option<StoredBatch>)
    ensures
        match parse_record(bytes@) {
            Some(r) => out matches Some(b) && b@ == r,
            None => out is None,
        },
{
    let len = bytes.len();
    if len < 72 {
        return None;
    }
    let ghost whole = bytes@;
    assert(whole.subrange(0, len as int) =~= whole);
    let mut author = [0u8; 32];
    let mut i: usize = 0;
    while i < 32
        invariant
            i <= 32,
            bytes@.len() >= 72,
            forall|j: int| 0 <= j < i ==> author@[j] == bytes@[j],
        decreases 32 - i,
    {
        author[i] = bytes[i];
        i += 1;
    }
    assert(author@ =~= whole.subrange(0, 32));
    let batch_id = decode_u64(&copy_range(bytes, 32, 40)).unwrap();
    let epoch = decode_u64(&copy_range(bytes, 40, 48)).unwrap();
    let round = decode_u64(&copy_range(bytes, 48, 56)).unwrap();
    let num_bytes = decode_u64(&copy_range(bytes, 56, 64)).unwrap();
    let count = decode_u64(&copy_range(bytes, 64, 72)).unwrap();
    let ghost body = whole.subrange(72, len as int);
    let mut payload: Data = Vec::new();
    let mut pos: usize = 72;
    let mut done: u64 = 0;
    assert(payload.deep_view() =~= Seq::<Seq<u8>>::empty());
    assert(parse_blobs(body, count as nat) == (match parse_blobs(body, count as nat) {
        None => None,
        Some(more) => Some(Seq::<Seq<u8>>::empty() + more),
    })) by {
        if let Some(more) = parse_blobs(body, count as nat) {
            assert(Seq::<Seq<u8>>::empty() + more =~= more);
        }
    }
    while done < count
        invariant
            72 <= pos <= len,
            len == bytes@.len(),
            whole == bytes@,
            body == whole.subrange(72, len as int),
            count == spec_u64_from_le_bytes(whole.subrange(64, 72)),
            done <= count,
            parse_blobs(body, count as nat) == (match parse_blobs(
                whole.subrange(pos as int, len as int),
                (count - done) as nat,
            ) {
                None => None,
                Some(more) => Some(payload.deep_view() + more),
            }),
        decreases count - done,
    {
        let ghost here = whole.subrange(pos as int, len as int);
        let ghost so_far = payload.deep_view();
        let n = match read_u64(bytes, pos) {
            Some(n) => n,
            None => {
                assert(parse_blobs(here, (count - done) as nat) is None);
                return None;
            },
        };
        let ghost rest = whole.subrange(pos + 8, len as int);
        let room: u64 = (len - pos - 8) as u64;
        if room < n {
            assert(parse_blobs(here, (count - done) as nat) is None);
            return None;
        }
        let size = n as usize;
        let blob = copy_range(bytes, pos + 8, pos + 8 + size);
        proof {
            assert(rest.subrange(0, n as int) =~= blob@);
            assert(rest.subrange(n as int, rest.len() as int) =~= whole.subrange(
                pos + 8 + size,
                len as int,
            ));
        }
        payload.push(blob);
        proof {
            assert(payload.deep_view() =~= so_far.push(blob@)) by {
                assert(payload.deep_view().len() == so_far.len() + 1);
                assert(payload.deep_view()[so_far.len() as int] == payload@[so_far.len() as int]@);
                assert forall|j: int| 0 <= j < so_far.len() implies payload.deep_view()[j]
                    == so_far[j] by {
                    assert(payload.deep_view()[j] == payload@[j]@);
                }
            }
            if let Some(more) = parse_blobs(
                whole.subrange(pos + 8 + size, len as int),
                (count - done - 1) as nat,
            ) {
                assert(so_far + (seq![blob@] + more) =~= so_far.push(blob@) + more);
            }
        }
        pos = pos + 8 + size;
        done = done + 1;
    }
    if pos != len {
        return None;
    }
    assert(whole.subrange(len as int, len as int) =~= Seq::<u8>::empty());
    assert(payload.deep_view() + Seq::<Seq<u8>>::empty() =~= payload.deep_view());
    Some(
        StoredBatch {
            author: PeerId { bytes: author },
            batch_id,
            expiration: LogicalTime { epoch, round },
            num_bytes,
            payload,
        },
    )
}

/// A batch that is written down and read back hashes to the digest that it
/// had: the bytes on disk give back the author, the number of the batch and
/// the payload, and with them the digest.
pub proof fn stored_batch_keeps_its_digest(r: RecordView, epoch: u64)
    requires
        encodable(r),
    ensures
        parse_record(record_bytes(r)) matches Some(back) && batch_digest(
            back.author,
            epoch,
            back.batch_id,
            back.payload,
        ) == batch_digest(r.author, epoch, r.batch_id, r.payload),
{
    record_round_trip(r);
}

} // verus!
