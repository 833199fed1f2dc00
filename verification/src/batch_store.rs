//! The write side of the quorum store.
//!
//! The batch store admits closed batches under the two quotas, has them
//! written to disk, and only then has their digest signed and the signature
//! sent out. It collects expired batches as consensus commits, serves the
//! bodies it holds to peers that ask, and takes in the bodies that peers
//! send in answer to a request.
//!
//! Disk and signing key are outside: the store says what is to be done and
//! is told how it went. It does one thing at a time.

use crate::batch_index::{
    cached_bytes, can_make_room, collected, disk_bytes, distinct_digests, evict_until_fits,
    evict_until_fits_contained, evicted_by, expired, hash_views, knows,
    on_disk, surviving, with_room_in_memory, BatchIndex, EntryView, Location,
};
use crate::digest::{batch_digest, compute_digest, count_bytes, payload_len};
use crate::messages::{
    BatchStoreCommand, ConsensusMsg, PersistRequest, PersistRequestView, SignedDigest,
    SignedDigestView,
};
use crate::types::{clone_data, BatchId, Data, HashValue, LogicalTime, PeerId, Round};
use vstd::prelude::*;

verus! {

/// Why a batch was not admitted.
#[derive(Clone, Copy, Debug, PartialEq, Eq, Structural)]
pub enum StoreError {
    /// No room can be made on disk for the batch: what is held and not due
    /// for collection leaves too little of the quota.
    QuotaExceeded,
    /// The digest or the size that came with the batch is not that of its
    /// payload.
    VerificationFailure,
}

/// What the store is busy with, as mathematical values.
pub ghost enum PhaseView {
    /// Nothing: the store takes commands.
    Idle,
    /// A batch is being written to disk. `fetched` says that it came from a
    /// peer in answer to a request.
    Saving { request: PersistRequestView, reply: bool, fetched: bool },
    /// The digest of a batch that is on disk is being signed.
    Signing { digest: Seq<u8>, expiration: LogicalTime, reply: bool },
    /// A body is being read from disk for a peer.
    Loading { digest: Seq<u8>, peer: Seq<u8> },
}

enum Phase {
    Idle,
    Saving { request: PersistRequest, reply: bool, fetched: bool },
    Signing { digest: HashValue, expiration: LogicalTime, reply: bool },
    Loading { digest: HashValue, peer: PeerId },
}

/// What happened, as the store sees it.
#[derive(Debug)]
pub enum StoreEvent {
    /// A command arrived.
    Command(BatchStoreCommand),
    /// The write to disk returned; the flag says whether it succeeded.
    Saved(bool),
    /// The signature over epoch, digest and expiration is made.
    Signed(Vec<u8>),
    /// The read from disk returned, with the body if there was one.
    Loaded(Option<Data>),
}

/// What the store asks its surroundings to do.
#[derive(Debug)]
pub enum StoreAction {
    /// Write the batch to disk, durably, and say how it went.
    DbSave(PersistRequest),
    /// Delete the batch with this digest from disk.
    DbDelete(HashValue),
    /// Read the batch with this digest from disk, and hand over the body.
    DbLoad(HashValue),
    /// Sign epoch, digest and expiration with this node's key, and hand over
    /// the signature.
    Sign(u64, HashValue, LogicalTime),
    /// Send the message to every peer.
    Broadcast(ConsensusMsg),
    /// Answer the sender of the persist command with the local signature.
    Reply(SignedDigest),
    /// Send the message to one peer.
    Send(PeerId, ConsensusMsg),
    /// The body of a batch that was asked of a peer has arrived: hand it to
    /// whoever waits for it.
    Fetched(HashValue, Data),
    /// The batch with this digest has expired: those who wait for it wait in
    /// vain, and it goes from disk if the flag says that it was there.
    Expire(HashValue, bool),
}

/// Whether digest and size of the request are those of its payload, for a
/// batch of `epoch`.
pub open spec fn request_verifies(epoch: u64, request: PersistRequestView) -> bool {
    &&& request.digest == batch_digest(
        request.author,
        epoch,
        request.batch_id,
        request.payload,
    )
    &&& request.num_bytes == payload_len(request.payload)
}

/// The position of the entry for `d`.
pub open spec fn position_of(s: Seq<EntryView>, d: Seq<u8>) -> int {
    choose|i: int| 0 <= i < s.len() && (#[trigger] s[i]).digest == d
}

/// Whether this node holds the body of the batch with digest `d`.
pub open spec fn holds(s: Seq<EntryView>, d: Seq<u8>) -> bool {
    knows(s, d) && on_disk(s[position_of(s, d)])
}

/// Among entries with distinct digests the position of a digest is the
/// only one where it stands.
pub proof fn position_unique(s: Seq<EntryView>, i: int)
    requires
        distinct_digests(s),
        0 <= i < s.len(),
    ensures
        knows(s, s[i].digest),
        position_of(s, s[i].digest) == i,
{
    let k = position_of(s, s[i].digest);
    assert(0 <= k < s.len() && s[k].digest == s[i].digest);
    if k < i {
    } else if i < k {
    }
}

/// Whether `actions` are the deletions of `digests`, in their order.
pub open spec fn are_deletions(actions: Seq<StoreAction>, digests: Seq<Seq<u8>>) -> bool {
    &&& actions.len() == digests.len()
    &&& forall|i: int|
        0 <= i < actions.len() ==> (#[trigger] actions[i] matches StoreAction::DbDelete(d)
            && d@ == digests[i])
}

/// Whether every batch of `s` that is on disk hashes to its digest, for
/// batches of `epoch`.
pub open spec fn bodies_hash(s: Seq<EntryView>, epoch: u64) -> bool {
    forall|i: int|
        0 <= i < s.len() && on_disk(#[trigger] s[i]) ==> {
            let e = s[i];
            &&& e.digest == batch_digest(e.author, epoch, e.batch_id, e.body)
            &&& e.num_bytes == payload_len(e.body)
            &&& e.location == Location::Local ==> e.payload == e.body
        }
}

/// The batch store.
pub struct BatchStore {
    epoch: u64,
    my_peer_id: PeerId,
    max_execution_round_lag: Round,
    last_certified_round: Round,
    index: BatchIndex,
    phase: Phase,
}

impl BatchStore {
    pub closed spec fn spec_epoch(&self) -> u64 {
        self.epoch
    }

    pub closed spec fn spec_my_peer_id(&self) -> PeerId {
        self.my_peer_id
    }

    /// Rounds for which a batch is kept after its expiration.
    pub closed spec fn spec_lag(&self) -> Round {
        self.max_execution_round_lag
    }

    /// The highest round that the store was told consensus has committed.
    pub closed spec fn spec_certified_round(&self) -> Round {
        self.last_certified_round
    }

    pub closed spec fn spec_db_quota(&self) -> nat {
        self.index.spec_db_quota()
    }

    pub closed spec fn spec_memory_quota(&self) -> nat {
        self.index.spec_memory_quota()
    }

    /// The index of batches.
    pub closed spec fn index(&self) -> Seq<EntryView> {
        self.index@
    }

    /// What the store is busy with.
    pub closed spec fn phase(&self) -> PhaseView {
        match self.phase {
            Phase::Idle => PhaseView::Idle,
            Phase::Saving { request, reply, fetched } => PhaseView::Saving {
                request: request@,
                reply,
                fetched,
            },
            Phase::Signing { digest, expiration, reply } => PhaseView::Signing {
                digest: digest@,
                expiration,
                reply,
            },
            Phase::Loading { digest, peer } => PhaseView::Loading { digest: digest@, peer: peer@ },
        }
    }

    /// Every batch that this node holds hashes to its digest: the body that
    /// went to disk has the digest under which the index lists it and the size
    /// that the index says, and a body that is cached is that body.
    pub open spec fn bodies_match(&self) -> bool {
        bodies_hash(self.index(), self.spec_epoch())
    }

    /// The representation invariant: the index is within its quotas with
    /// room for the batch that is being written, and cached bodies hash to
    /// their digests.
    pub closed spec fn wf(&self) -> bool {
        &&& self.index.wf()
        &&& self.bodies_match()
        &&& self.phase() matches PhaseView::Saving { request, .. } ==> {
            &&& disk_bytes(self.index@) + request.num_bytes <= self.index.spec_db_quota()
            &&& request_verifies(self.epoch, request)
            &&& !holds(self.index@, request.digest)
        }
    }

    /// What stays fixed over the life of a store.
    pub open spec fn same_setup(&self, other: &BatchStore) -> bool {
        &&& self.spec_epoch() == other.spec_epoch()
        &&& self.spec_my_peer_id() == other.spec_my_peer_id()
        &&& self.spec_lag() == other.spec_lag()
        &&& self.spec_db_quota() == other.spec_db_quota()
        &&& self.spec_memory_quota() == other.spec_memory_quota()
    }

    /// What the invariant says of the index: the bytes on disk are within
    /// the disk quota, the bytes in memory within the memory quota, no digest
    /// occurs twice, and cached bodies hash to their digests.
    pub proof fn lemma_invariant(&self)
        requires
            self.wf(),
        ensures
            disk_bytes(self.index()) <= self.spec_db_quota(),
            cached_bytes(self.index()) <= self.spec_memory_quota(),
            distinct_digests(self.index()),
            self.bodies_match(),
    {
        self.index.lemma_within_quotas();
    }

    /// An idle store with an empty index.
    pub fn new(
        epoch: u64,
        last_committed_round: Round,
        my_peer_id: PeerId,
        max_execution_round_lag: Round,
        memory_quota: usize,
        db_quota: usize,
    ) -> (s: BatchStore)
        ensures
            s.wf(),
            s.spec_epoch() == epoch,
            s.spec_my_peer_id() == my_peer_id,
            s.spec_lag() == max_execution_round_lag,
            s.spec_certified_round() == last_committed_round,
            s.spec_db_quota() == db_quota,
            s.spec_memory_quota() == memory_quota,
            s.index() == Seq::<EntryView>::empty(),
            s.phase() == PhaseView::Idle,
    {
        BatchStore {
            epoch,
            my_peer_id,
            max_execution_round_lag,
            last_certified_round: last_committed_round,
            index: BatchIndex::new(memory_quota, db_quota),
            phase: Phase::Idle,
        }
    }

    /// Whether the store takes commands.
    pub fn is_idle(&self) -> (r: bool)
        ensures
            r == (self.phase() == PhaseView::Idle),
    {
        match self.phase {
            Phase::Idle => true,
            _ => false,
        }
    }

    /// The bytes on disk.
    pub fn db_used(&self) -> (n: usize)
        requires
            self.wf(),
        ensures
            n == disk_bytes(self.index()),
            n <= self.spec_db_quota(),
    {
        proof {
            self.index.lemma_within_quotas();
        }
        self.index.db_used()
    }

    /// The bytes cached in memory.
    pub fn memory_used(&self) -> (n: usize)
        requires
            self.wf(),
        ensures
            n == cached_bytes(self.index()),
            n <= self.spec_memory_quota(),
    {
        proof {
            self.index.lemma_within_quotas();
        }
        self.index.memory_used()
    }

    /// Where the body of the batch with this digest is, if the index knows
    /// the batch.
    pub fn location_of(&self, digest: &HashValue) -> (r: Option<Location>)
        requires
            self.wf(),
        ensures
            r is Some == knows(self.index(), digest@),
            r matches Some(l) ==> l == self.index()[position_of(self.index(), digest@)].location,
    {
        match self.index.find(digest) {
            Some(i) => {
                proof {
                    self.index.lemma_within_quotas();
                    position_unique(self.index@, i as int);
                }
                Some(self.index.entry(i).location)
            },
            None => None,
        }
    }
}

/// What a persist command does to an idle store.
///
/// A batch that the store holds already is not admitted again: its entry
/// gets the expiration of the request and nothing else happens. A request
/// whose digest or size is not that of its payload is refused. So is a batch
/// for which no room can be made on disk: only batches that are due for
/// collection at the committed round make room. Otherwise room is made,
/// nearest expiration first, the evicted batches are deleted from disk, and
/// the batch is written.
pub open spec fn persist_post(
    pre: &BatchStore,
    request: PersistRequestView,
    reply: bool,
    post: &BatchStore,
    out: Result<Vec<StoreAction>, StoreError>,
) -> bool {
    let s = pre.index();
    let n = request.num_bytes;
    let quota = pre.spec_db_quota();
    let round = pre.spec_certified_round();
    let lag = pre.spec_lag();
    if holds(s, request.digest) {
        let i = position_of(s, request.digest);
        &&& out matches Ok(actions)
        &&& actions@.len() == 0
        &&& post.phase() == PhaseView::Idle
        &&& post.index() == s.update(i, EntryView { expiration: request.expiration, ..s[i] })
    } else if !request_verifies(pre.spec_epoch(), request) {
        &&& out == Err::<Vec<StoreAction>, StoreError>(StoreError::VerificationFailure)
        &&& post.phase() == PhaseView::Idle
        &&& post.index() == s
    } else if !can_make_room(s, n, quota, round, lag) {
        &&& out == Err::<Vec<StoreAction>, StoreError>(StoreError::QuotaExceeded)
        &&& post.phase() == PhaseView::Idle
        &&& post.index() == s
    } else {
        &&& out matches Ok(actions)
        &&& actions@.len() >= 1
        &&& are_deletions(actions@.drop_last(), evicted_by(s, n, quota, round, lag))
        &&& actions@.last() matches StoreAction::DbSave(record)
        &&& record@ == request
        &&& post.phase() == PhaseView::Saving { request, reply, fetched: false }
        &&& post.index() == evict_until_fits(s, n, quota, round, lag)
    }
}

/// What the return of a write does to a store that waits for it.
///
/// After a write that succeeded the batch is in the index, in place of what
/// was known of it before. A batch of a peer's answer stays on disk only and
/// is handed to those who wait for it. Any other is cached in memory as well
/// if it fits the memory quota by itself, the cached bodies that expire
/// first making room for it, and its digest is given out for signing. After
/// a write that failed nothing is kept of the batch.
pub open spec fn saved_post(
    pre: &BatchStore,
    ok: bool,
    post: &BatchStore,
    actions: Seq<StoreAction>,
) -> bool {
    let s = pre.index();
    &&& pre.phase() matches PhaseView::Saving { request, reply, fetched }
    &&& if !ok {
        &&& actions.len() == 0
        &&& post.phase() == PhaseView::Idle
        &&& post.index() == s
    } else {
        let base = if knows(s, request.digest) {
            s.remove(position_of(s, request.digest))
        } else {
            s
        };
        let cached = !fetched && request.num_bytes <= pre.spec_memory_quota();
        &&& post.index() == with_room_in_memory(
            base,
            !fetched,
            request.num_bytes,
            pre.spec_memory_quota(),
        ).push(
            EntryView {
                digest: request.digest,
                author: request.author,
                batch_id: request.batch_id,
                expiration: request.expiration,
                num_bytes: request.num_bytes,
                location: if cached {
                    Location::Local
                } else {
                    Location::Persisted
                },
                payload: if cached {
                    request.payload
                } else {
                    Seq::empty()
                },
                body: request.payload,
            },
        )
        &&& actions.len() == 1
        &&& if fetched {
            &&& post.phase() == PhaseView::Idle
            &&& actions[0] matches StoreAction::Fetched(d, payload)
            &&& d@ == request.digest
            &&& payload.deep_view() == request.payload
        } else {
            &&& post.phase() == PhaseView::Signing {
                digest: request.digest,
                expiration: request.expiration,
                reply,
            }
            &&& actions[0] matches StoreAction::Sign(epoch, d, expiration)
            &&& epoch == pre.spec_epoch()
            &&& d@ == request.digest
            &&& expiration == request.expiration
        }
    }
}

/// The signed digest that this node sends out.
pub open spec fn local_signed_digest(
    pre: &BatchStore,
    digest: Seq<u8>,
    expiration: LogicalTime,
    signature: Seq<u8>,
) -> SignedDigestView {
    SignedDigestView {
        signer: pre.spec_my_peer_id()@,
        epoch: pre.spec_epoch(),
        digest,
        expiration,
        signature,
    }
}

/// What the arrival of the signature does to a store that waits for it: the
/// signed digest goes to every peer, and to the sender of the persist
/// command if it asked for it.
pub open spec fn signed_post(
    pre: &BatchStore,
    signature: Seq<u8>,
    post: &BatchStore,
    actions: Seq<StoreAction>,
) -> bool {
    &&& pre.phase() matches PhaseView::Signing { digest, expiration, reply }
    &&& post.phase() == PhaseView::Idle
    &&& post.index() == pre.index()
    &&& actions.len() == (if reply {
        2nat
    } else {
        1nat
    })
    &&& actions[0] matches StoreAction::Broadcast(ConsensusMsg::SignedDigestMsg(sent))
    &&& sent@ == local_signed_digest(pre, digest, expiration, signature)
    &&& reply ==> (actions[1] matches StoreAction::Reply(answer) && answer@ == local_signed_digest(
        pre,
        digest,
        expiration,
        signature,
    ))
}

impl BatchStore {
    /// Makes room for a verified batch for which room can be made, and has
    /// it written to disk.
    fn take_in(&mut self, request: PersistRequest, reply: bool, fetched: bool) -> (actions: Vec<
        StoreAction,
    >)
        requires
            old(self).wf(),
            old(self).phase() == PhaseView::Idle,
            !holds(old(self).index(), request@.digest),
            request_verifies(old(self).spec_epoch(), request@),
            can_make_room(
                old(self).index(),
                request@.num_bytes,
                old(self).spec_db_quota(),
                old(self).spec_certified_round(),
                old(self).spec_lag(),
            ),
        ensures
            final(self).wf(),
            final(self).same_setup(old(self)),
            final(self).spec_certified_round() == old(self).spec_certified_round(),
            actions@.len() >= 1,
            are_deletions(
                actions@.drop_last(),
                evicted_by(
                    old(self).index(),
                    request@.num_bytes,
                    old(self).spec_db_quota(),
                    old(self).spec_certified_round(),
                    old(self).spec_lag(),
                ),
            ),
            actions@.last() matches StoreAction::DbSave(record) && record@ == request@,
            final(self).phase() == (PhaseView::Saving { request: request@, reply, fetched }),
            final(self).index() == evict_until_fits(
                old(self).index(),
                request@.num_bytes,
                old(self).spec_db_quota(),
                old(self).spec_certified_round(),
                old(self).spec_lag(),
            ),
            forall|k: int|
                0 <= k < final(self).index().len() ==> old(self).index().contains(
                    #[trigger] final(self).index()[k],
                ),
    {
        let ghost s = self.index@;
        proof {
            self.index.lemma_within_quotas();
        }
        let evicted = self.index.make_room(
            request.num_bytes,
            self.last_certified_round,
            self.max_execution_round_lag,
        );
        let ghost t = self.index@;
        proof {
            self.index.lemma_within_quotas();
            assert forall|k: int| 0 <= k < t.len() implies s.contains(#[trigger] t[k]) by {
                assert(t.contains(t[k]));
                evict_until_fits_contained(
                    s,
                    request.num_bytes as nat,
                    self.index.spec_db_quota(),
                    self.last_certified_round,
                    self.max_execution_round_lag,
                    t[k],
                );
            }
            assert(self.bodies_match()) by {
                assert forall|k: int|
                    0 <= k < self.index().len() && on_disk(#[trigger] self.index()[k]) implies {
                    let e = self.index()[k];
                    &&& e.digest == batch_digest(e.author, self.spec_epoch(), e.batch_id, e.body)
                    &&& e.num_bytes == payload_len(e.body)
                    &&& e.location == Location::Local ==> e.payload == e.body
                } by {
                    assert(s.contains(t[k]));
                    let j = choose|j: int| 0 <= j < s.len() && s[j] == t[k];
                    assert(on_disk(s[j]));
                }
            }
            if holds(t, request@.digest) {
                let k = position_of(t, request@.digest);
                assert(s.contains(t[k]));
                let j = choose|j: int| 0 <= j < s.len() && s[j] == t[k];
                position_unique(s, j);
            }
        }
        let mut actions: Vec<StoreAction> = Vec::new();
        let mut i: usize = 0;
        while i < evicted.len()
            invariant
                i <= evicted@.len(),
                actions@.len() == i,
                forall|k: int|
                    0 <= k < i ==> (#[trigger] actions@[k] matches StoreAction::DbDelete(d) && d@
                        == hash_views(evicted@)[k]),
            decreases evicted@.len() - i,
        {
            actions.push(StoreAction::DbDelete(evicted[i]));
            i += 1;
        }
        let record = PersistRequest::new(
            request.author,
            request.batch_id,
            clone_data(&request.payload),
            request.digest,
            request.num_bytes,
            request.expiration,
        );
        let ghost deletions = actions@;
        actions.push(StoreAction::DbSave(record));
        assert(actions@.drop_last() =~= deletions);
        self.phase = Phase::Saving { request, reply, fetched };
        actions
    }
}

impl BatchStore {
    /// Whether digest and size of the request are those of its payload.
    pub fn verify_request(&self, request: &PersistRequest) -> (r: bool)
        ensures
            r == request_verifies(self.spec_epoch(), request@),
    {
        let digest = compute_digest(
            &request.author,
            self.epoch,
            request.batch_id,
            &request.payload,
        );
        if !digest.same(&request.digest) {
            return false;
        }
        match count_bytes(&request.payload) {
            Some(n) => n == request.num_bytes,
            None => false,
        }
    }

    /// Takes a persist command.
    pub fn handle_persist(&mut self, request: PersistRequest, reply: bool) -> (out: Result<
        Vec<StoreAction>,
        StoreError,
    >)
        requires
            old(self).wf(),
            old(self).phase() == PhaseView::Idle,
        ensures
            final(self).wf(),
            final(self).same_setup(old(self)),
            final(self).spec_certified_round() == old(self).spec_certified_round(),
            persist_post(old(self), request@, reply, final(self), out),
    {
        let ghost s = self.index@;
        proof {
            self.index.lemma_within_quotas();
        }
        match self.index.find(&request.digest) {
            Some(i) => {
                proof {
                    position_unique(s, i as int);
                }
                let held = match self.index.entry(i).location {
                    Location::Remote => false,
                    _ => true,
                };
                if held {
                    self.index.refresh(i, request.expiration);
                    assert(self.bodies_match()) by {
                        assert forall|k: int|
                            0 <= k < self.index().len() && on_disk(#[trigger] self.index()[k]) implies {
                            let e = self.index()[k];
                            &&& e.digest == batch_digest(e.author, self.spec_epoch(), e.batch_id, e.body)
                            &&& e.num_bytes == payload_len(e.body)
                            &&& e.location == Location::Local ==> e.payload == e.body
                        } by {
                            assert(on_disk(s[k]));
                        }
                    }
                    return Ok(Vec::new());
                }
            },
            None => {},
        }
        assert(!holds(s, request@.digest));
        if !self.verify_request(&request) {
            return Err(StoreError::VerificationFailure);
        }
        if !self.index.can_make_room(
            request.num_bytes,
            self.last_certified_round,
            self.max_execution_round_lag,
        ) {
            return Err(StoreError::QuotaExceeded);
        }
        Ok(self.take_in(request, reply, false))
    }
}

impl BatchStore {
    /// Takes the return of the write that the store waits for.
    pub fn handle_saved(&mut self, ok: bool) -> (actions: Vec<StoreAction>)
        requires
            old(self).wf(),
            old(self).phase() is Saving,
        ensures
            final(self).wf(),
            final(self).same_setup(old(self)),
            final(self).spec_certified_round() == old(self).spec_certified_round(),
            saved_post(old(self), ok, final(self), actions@),
    {
        let ghost s = self.index@;
        let ghost epoch = self.epoch;
        proof {
            self.index.lemma_within_quotas();
        }
        let mut phase = Phase::Idle;
        std::mem::swap(&mut phase, &mut self.phase);
        let (request, reply, fetched) = match phase {
            Phase::Saving { request, reply, fetched } => (request, reply, fetched),
            _ => {
                assert(false);
                return Vec::new();
            },
        };
        let mut actions: Vec<StoreAction> = Vec::new();
        if !ok {
            return actions;
        }
        match self.index.find(&request.digest) {
            Some(i) => {
                proof {
                    position_unique(s, i as int);
                    crate::batch_index::bytes_remove(s, i as int);
                    crate::batch_index::distinct_remove(s, i as int);
                }
                let _ = self.index.take_at(i);
            },
            None => {},
        }
        let ghost base = self.index@;
        assert(!knows(base, request@.digest));
        assert(forall|k: int| 0 <= k < base.len() ==> s.contains(#[trigger] base[k])) by {
            assert forall|k: int| 0 <= k < base.len() implies s.contains(#[trigger] base[k]) by {
                if knows(s, request@.digest) {
                    let i = position_of(s, request@.digest);
                    let k2 = if k < i { k } else { k + 1 };
                    assert(s[k2] == base[k]);
                } else {
                    assert(s[k] == base[k]);
                }
            }
        }
        let copy = if fetched {
            Some(clone_data(&request.payload))
        } else {
            None
        };
        let _ = self.index.install(
            request.digest,
            request.author,
            request.batch_id,
            request.expiration,
            request.num_bytes,
            request.payload,
            !fetched,
        );
        proof {
            assert(self.bodies_match()) by {
                assert forall|k: int|
                    0 <= k < self.index().len() && on_disk(#[trigger] self.index()[k]) implies {
                    let e = self.index()[k];
                    &&& e.digest == batch_digest(e.author, self.spec_epoch(), e.batch_id, e.body)
                    &&& e.num_bytes == payload_len(e.body)
                    &&& e.location == Location::Local ==> e.payload == e.body
                } by {
                    let roomy = with_room_in_memory(
                        base,
                        !fetched,
                        request@.num_bytes,
                        self.spec_memory_quota(),
                    );
                    crate::batch_index::uncaching_takes_nearest_first(
                        base,
                        request@.num_bytes,
                        self.spec_memory_quota(),
                    );
                    assert(roomy.len() == base.len());
                    if k < base.len() {
                        assert(self.index()[k] == roomy[k]);
                        assert(roomy[k] == base[k] || roomy[k] == crate::batch_index::demoted(
                            base[k],
                        ));
                        assert(s.contains(base[k]));
                        let j = choose|j: int| 0 <= j < s.len() && s[j] == base[k];
                        assert(on_disk(s[j]));
                    }
                }
            }
        }
        match copy {
            Some(payload) => {
                actions.push(StoreAction::Fetched(request.digest, payload));
            },
            None => {
                self.phase = Phase::Signing {
                    digest: request.digest,
                    expiration: request.expiration,
                    reply,
                };
                actions.push(StoreAction::Sign(self.epoch, request.digest, request.expiration));
            },
        }
        actions
    }

    /// Takes the signature that the store waits for.
    pub fn handle_signed(&mut self, signature: Vec<u8>) -> (actions: Vec<StoreAction>)
        requires
            old(self).wf(),
            old(self).phase() is Signing,
        ensures
            final(self).wf(),
            final(self).same_setup(old(self)),
            final(self).spec_certified_round() == old(self).spec_certified_round(),
            signed_post(old(self), signature@, final(self), actions@),
    {
        let mut phase = Phase::Idle;
        std::mem::swap(&mut phase, &mut self.phase);
        let (digest, expiration, reply) = match phase {
            Phase::Signing { digest, expiration, reply } => (digest, expiration, reply),
            _ => {
                assert(false);
                return Vec::new();
            },
        };
        let mut actions: Vec<StoreAction> = Vec::new();
        let copy = signature.clone();
        assert(copy@ == signature@);
        let sent = SignedDigest::new(self.my_peer_id, self.epoch, digest, expiration, signature);
        actions.push(StoreAction::Broadcast(ConsensusMsg::SignedDigestMsg(sent)));
        if reply {
            let answer = SignedDigest::new(self.my_peer_id, self.epoch, digest, expiration, copy);
            actions.push(StoreAction::Reply(answer));
        }
        actions
    }
}

/// Whether `actions` say of each of `gone`, in their order, that it has
/// expired and whether it was on disk.
pub open spec fn are_expiries(actions: Seq<StoreAction>, gone: Seq<EntryView>) -> bool {
    &&& actions.len() == gone.len()
    &&& forall|i: int|
        0 <= i < actions.len() ==> (#[trigger] actions[i] matches StoreAction::Expire(d, disk)
            && d@ == gone[i].digest && disk == on_disk(gone[i]))
}

/// What the commit of `round` does to an idle store: every batch whose
/// expiration lies the lag or more behind `round` leaves the index, and no
/// other does.
pub open spec fn clean_post(
    pre: &BatchStore,
    round: Round,
    post: &BatchStore,
    actions: Seq<StoreAction>,
) -> bool {
    &&& post.phase() == PhaseView::Idle
    &&& post.index() == surviving(pre.index(), round, pre.spec_lag())
    &&& are_expiries(actions, collected(pre.index(), round, pre.spec_lag()))
    &&& post.spec_certified_round() == (if round > pre.spec_certified_round() {
        round
    } else {
        pre.spec_certified_round()
    })
}

/// Whether `msg` answers a request with this batch.
pub open spec fn is_response(
    msg: ConsensusMsg,
    digest: Seq<u8>,
    batch_id: BatchId,
    payload: Seq<Seq<u8>>,
    author: Seq<u8>,
) -> bool {
    &&& msg matches ConsensusMsg::BatchResponseMsg(d, b, p, a)
    &&& d@ == digest
    &&& b == batch_id
    &&& p.deep_view() == payload
    &&& a@ == author
}

/// What a peer's request for a batch does to an idle store: a body that is
/// cached goes to the peer at once, one that is on disk only is read first,
/// and a batch that the store does not hold is not answered for.
pub open spec fn request_post(
    pre: &BatchStore,
    peer: Seq<u8>,
    digest: Seq<u8>,
    post: &BatchStore,
    actions: Seq<StoreAction>,
) -> bool {
    let s = pre.index();
    let e = s[position_of(s, digest)];
    &&& post.index() == s
    &&& if knows(s, digest) && e.location == Location::Local {
        &&& post.phase() == PhaseView::Idle
        &&& actions.len() == 1
        &&& actions[0] matches StoreAction::Send(to, msg)
        &&& to@ == peer
        &&& is_response(msg, digest, e.batch_id, e.payload, e.author)
    } else if knows(s, digest) && e.location == Location::Persisted {
        &&& post.phase() == PhaseView::Loading { digest, peer }
        &&& actions.len() == 1
        &&& actions[0] matches StoreAction::DbLoad(d)
        &&& d@ == digest
    } else {
        &&& post.phase() == PhaseView::Idle
        &&& actions.len() == 0
    }
}

/// What the return of a read does to a store that waits for it: the body
/// goes to the peer that asked if the store still holds the batch and the
/// body hashes to its digest.
pub open spec fn loaded_post(
    pre: &BatchStore,
    body: Option<Seq<Seq<u8>>>,
    post: &BatchStore,
    actions: Seq<StoreAction>,
) -> bool {
    let s = pre.index();
    &&& pre.phase() matches PhaseView::Loading { digest, peer }
    &&& post.phase() == PhaseView::Idle
    &&& post.index() == s
    &&& if body is Some && holds(s, digest) && digest == batch_digest(
        s[position_of(s, digest)].author,
        pre.spec_epoch(),
        s[position_of(s, digest)].batch_id,
        body->Some_0,
    ) {
        let e = s[position_of(s, digest)];
        &&& actions.len() == 1
        &&& actions[0] matches StoreAction::Send(to, msg)
        &&& to@ == peer
        &&& is_response(msg, digest, e.batch_id, body->Some_0, e.author)
    } else {
        actions.len() == 0
    }
}

/// The request that stands for a peer's answer.
pub open spec fn response_request(
    pre: &BatchStore,
    digest: Seq<u8>,
    batch_id: BatchId,
    payload: Seq<Seq<u8>>,
    author: Seq<u8>,
) -> PersistRequestView {
    PersistRequestView {
        author,
        batch_id,
        payload,
        digest,
        num_bytes: payload_len(payload),
        expiration: pre.index()[position_of(pre.index(), digest)].expiration,
    }
}

/// What a peer's answer to a request does to an idle store.
///
/// An answer for a batch that the index does not know is not stored: if its
/// body hashes to its digest it is handed to those who wait for it, and it
/// is refused otherwise. An answer for a batch that this node holds is
/// ignored. An answer whose author is not the one that the batch is
/// attributed to, or whose body does not hash to the digest, is refused, and
/// so is a body for which no room can be made on disk. Otherwise room is
/// made on disk and the body is written.
pub open spec fn response_post(
    pre: &BatchStore,
    digest: Seq<u8>,
    batch_id: BatchId,
    payload: Seq<Seq<u8>>,
    author: Seq<u8>,
    post: &BatchStore,
    out: Result<Vec<StoreAction>, StoreError>,
) -> bool {
    let s = pre.index();
    let e = s[position_of(s, digest)];
    let n = payload_len(payload);
    let quota = pre.spec_db_quota();
    let round = pre.spec_certified_round();
    let lag = pre.spec_lag();
    let request = response_request(pre, digest, batch_id, payload, author);
    if !knows(s, digest) {
        &&& post.phase() == PhaseView::Idle
        &&& post.index() == s
        &&& if digest == batch_digest(author, pre.spec_epoch(), batch_id, payload) {
            &&& out matches Ok(actions)
            &&& actions@.len() == 1
            &&& actions@[0] matches StoreAction::Fetched(d, body)
            &&& d@ == digest
            &&& body.deep_view() == payload
        } else {
            out == Err::<Vec<StoreAction>, StoreError>(StoreError::VerificationFailure)
        }
    } else if e.location != Location::Remote {
        &&& out matches Ok(actions)
        &&& actions@.len() == 0
        &&& post.phase() == PhaseView::Idle
        &&& post.index() == s
    } else if e.author != author || digest != batch_digest(
        author,
        pre.spec_epoch(),
        batch_id,
        payload,
    ) {
        &&& out == Err::<Vec<StoreAction>, StoreError>(StoreError::VerificationFailure)
        &&& post.phase() == PhaseView::Idle
        &&& post.index() == s
    } else if !can_make_room(s, n, quota, round, lag) {
        &&& out == Err::<Vec<StoreAction>, StoreError>(StoreError::QuotaExceeded)
        &&& post.phase() == PhaseView::Idle
        &&& post.index() == s
    } else {
        &&& out matches Ok(actions)
        &&& actions@.len() >= 1
        &&& are_deletions(actions@.drop_last(), evicted_by(s, n, quota, round, lag))
        &&& actions@.last() matches StoreAction::DbSave(record)
        &&& record@ == request
        &&& post.phase() == PhaseView::Saving { request, reply: false, fetched: true }
        &&& post.index() == evict_until_fits(s, n, quota, round, lag)
    }
}

impl BatchStore {
    /// Takes the notice that consensus has committed `round`.
    pub fn handle_clean(&mut self, round: Round) -> (actions: Vec<StoreAction>)
        requires
            old(self).wf(),
            old(self).phase() == PhaseView::Idle,
        ensures
            final(self).wf(),
            final(self).same_setup(old(self)),
            clean_post(old(self), round, final(self), actions@),
    {
        let ghost s = self.index@;
        let gone = self.index.collect(round, self.max_execution_round_lag);
        if round > self.last_certified_round {
            self.last_certified_round = round;
        }
        proof {
            crate::batch_index::collection_respects_lag(s, round, self.max_execution_round_lag);
            assert(self.bodies_match()) by {
                assert forall|k: int|
                    0 <= k < self.index().len() && on_disk(#[trigger] self.index()[k]) implies {
                    let e = self.index()[k];
                    &&& e.digest == batch_digest(e.author, self.spec_epoch(), e.batch_id, e.body)
                    &&& e.num_bytes == payload_len(e.body)
                    &&& e.location == Location::Local ==> e.payload == e.body
                } by {
                    let t = self.index();
                    assert(t.contains(t[k]));
                    assert(s.contains(t[k]));
                    let j = choose|j: int| 0 <= j < s.len() && s[j] == t[k];
                    assert(on_disk(s[j]));
                }
            }
        }
        let ghost views = crate::batch_index::entry_views(gone@);
        let mut actions: Vec<StoreAction> = Vec::new();
        let mut i: usize = 0;
        while i < gone.len()
            invariant
                i <= gone@.len(),
                actions@.len() == i,
                views == crate::batch_index::entry_views(gone@),
                forall|k: int|
                    0 <= k < i ==> (#[trigger] actions@[k] matches StoreAction::Expire(d, disk)
                        && d@ == views[k].digest && disk == on_disk(views[k])),
            decreases gone@.len() - i,
        {
            let e = &gone[i];
            assert(views[i as int] == e@);
            let disk = match e.location {
                Location::Remote => false,
                _ => true,
            };
            actions.push(StoreAction::Expire(e.digest, disk));
            i += 1;
        }
        actions
    }

    /// Takes a peer's request for a batch.
    pub fn handle_batch_request(&mut self, peer: PeerId, digest: HashValue) -> (actions: Vec<
        StoreAction,
    >)
        requires
            old(self).wf(),
            old(self).phase() == PhaseView::Idle,
        ensures
            final(self).wf(),
            final(self).same_setup(old(self)),
            final(self).spec_certified_round() == old(self).spec_certified_round(),
            request_post(old(self), peer@, digest@, final(self), actions@),
    {
        let mut actions: Vec<StoreAction> = Vec::new();
        proof {
            self.index.lemma_within_quotas();
        }
        match self.index.find(&digest) {
            Some(i) => {
                proof {
                    position_unique(self.index@, i as int);
                }
                let e = self.index.entry(i);
                match e.location {
                    Location::Local => {
                        let msg = ConsensusMsg::BatchResponseMsg(
                            digest,
                            e.batch_id,
                            clone_data(&e.payload),
                            e.author,
                        );
                        actions.push(StoreAction::Send(peer, msg));
                    },
                    Location::Persisted => {
                        actions.push(StoreAction::DbLoad(digest));
                        self.phase = Phase::Loading { digest, peer };
                    },
                    Location::Remote => {},
                }
            },
            None => {},
        }
        actions
    }

    /// Takes the return of the read that the store waits for.
    pub fn handle_loaded(&mut self, body: Option<Data>) -> (actions: Vec<StoreAction>)
        requires
            old(self).wf(),
            old(self).phase() is Loading,
        ensures
            final(self).wf(),
            final(self).same_setup(old(self)),
            final(self).spec_certified_round() == old(self).spec_certified_round(),
            loaded_post(
                old(self),
                match body {
                    Some(b) => Some(b.deep_view()),
                    None => None,
                },
                final(self),
                actions@,
            ),
    {
        let mut phase = Phase::Idle;
        std::mem::swap(&mut phase, &mut self.phase);
        let (digest, peer) = match phase {
            Phase::Loading { digest, peer } => (digest, peer),
            _ => {
                assert(false);
                return Vec::new();
            },
        };
        let mut actions: Vec<StoreAction> = Vec::new();
        proof {
            self.index.lemma_within_quotas();
        }
        let payload = match body {
            Some(payload) => payload,
            None => {
                return actions;
            },
        };
        match self.index.find(&digest) {
            Some(i) => {
                proof {
                    position_unique(self.index@, i as int);
                }
                let e = self.index.entry(i);
                let held = match e.location {
                    Location::Remote => false,
                    _ => true,
                };
                if held && compute_digest(&e.author, self.epoch, e.batch_id, &payload).same(
                    &digest,
                ) {
                    let msg = ConsensusMsg::BatchResponseMsg(digest, e.batch_id, payload, e.author);
                    actions.push(StoreAction::Send(peer, msg));
                }
            },
            None => {},
        }
        actions
    }

    /// Takes a peer's answer to a request for a batch.
    pub fn handle_batch_response(
        &mut self,
        digest: HashValue,
        batch_id: BatchId,
        payload: Data,
        author: PeerId,
    ) -> (out: Result<Vec<StoreAction>, StoreError>)
        requires
            old(self).wf(),
            old(self).phase() == PhaseView::Idle,
        ensures
            final(self).wf(),
            final(self).same_setup(old(self)),
            final(self).spec_certified_round() == old(self).spec_certified_round(),
            response_post(
                old(self),
                digest@,
                batch_id,
                payload.deep_view(),
                author@,
                final(self),
                out,
            ),
    {
        proof {
            self.index.lemma_within_quotas();
        }
        let i = match self.index.find(&digest) {
            Some(i) => i,
            None => {
                if !compute_digest(&author, self.epoch, batch_id, &payload).same(&digest) {
                    return Err(StoreError::VerificationFailure);
                }
                let mut actions: Vec<StoreAction> = Vec::new();
                actions.push(StoreAction::Fetched(digest, payload));
                return Ok(actions);
            },
        };
        proof {
            position_unique(self.index@, i as int);
        }
        let e = self.index.entry(i);
        match e.location {
            Location::Remote => {},
            _ => {
                return Ok(Vec::new());
            },
        }
        if !e.author.same(&author) {
            return Err(StoreError::VerificationFailure);
        }
        if !compute_digest(&author, self.epoch, batch_id, &payload).same(&digest) {
            return Err(StoreError::VerificationFailure);
        }
        let quota = self.index.db_quota_limit();
        proof {
            crate::batch_index::reclaimable_is_on_disk(
                self.index@,
                self.last_certified_round,
                self.max_execution_round_lag,
            );
        }
        let num_bytes = match count_bytes(&payload) {
            Some(n) => n,
            None => {
                return Err(StoreError::QuotaExceeded);
            },
        };
        if !self.index.can_make_room(
            num_bytes,
            self.last_certified_round,
            self.max_execution_round_lag,
        ) {
            return Err(StoreError::QuotaExceeded);
        }
        let request = PersistRequest::new(
            author,
            batch_id,
            payload,
            digest,
            num_bytes,
            e.expiration,
        );
        Ok(self.take_in(request, false, true))
    }
}

impl BatchStore {
    /// Notes that the batch with this digest exists and that `author` holds
    /// it. A store that knows the digest already stays as it is. Says
    /// whether the entry was added.
    pub fn register_remote(&mut self, digest: HashValue, author: PeerId, expiration: LogicalTime) -> (added:
        bool)
        requires
            old(self).wf(),
        ensures
            final(self).wf(),
            final(self).same_setup(old(self)),
            final(self).spec_certified_round() == old(self).spec_certified_round(),
            final(self).phase() == old(self).phase(),
            added == !knows(old(self).index(), digest@),
            !added ==> final(self).index() == old(self).index(),
            added ==> final(self).index() == old(self).index().push(
                EntryView {
                    digest: digest@,
                    author: author@,
                    batch_id: 0,
                    expiration,
                    num_bytes: 0,
                    location: Location::Remote,
                    payload: Seq::empty(),
                    body: Seq::empty(),
                },
            ),
    {
        let ghost s = self.index@;
        proof {
            self.index.lemma_within_quotas();
        }
        let added = self.index.register_remote(digest, author, expiration);
        proof {
            if added {
                let t = self.index@;
                crate::batch_index::bytes_push(s, t[s.len() as int]);
                assert(self.bodies_match()) by {
                    assert forall|k: int|
                        0 <= k < self.index().len() && on_disk(#[trigger] self.index()[k]) implies {
                        let e = self.index()[k];
                        &&& e.digest == batch_digest(e.author, self.spec_epoch(), e.batch_id, e.body)
                        &&& e.num_bytes == payload_len(e.body)
                        &&& e.location == Location::Local ==> e.payload == e.body
                    } by {
                        assert(t[k] == s[k]);
                    }
                }
                if let PhaseView::Saving { request, .. } = self.phase() {
                    if holds(t, request.digest) {
                        let k = position_of(t, request.digest);
                        assert(k < s.len());
                        assert(s[k] == t[k]);
                        self.index.lemma_within_quotas();
                        position_unique(s, k);
                    }
                }
            }
        }
        added
    }

    /// The events that the store can take in its present state: a command
    /// while it is idle, and otherwise the return of what it waits for.
    pub open spec fn spec_accepts(&self, event: &StoreEvent) -> bool {
        match event {
            StoreEvent::Command(_) => self.phase() == PhaseView::Idle,
            StoreEvent::Saved(_) => self.phase() is Saving,
            StoreEvent::Signed(_) => self.phase() is Signing,
            StoreEvent::Loaded(_) => self.phase() is Loading,
        }
    }

    /// Whether the store can take `event` in its present state.
    pub fn accepts(&self, event: &StoreEvent) -> (r: bool)
        ensures
            r == self.spec_accepts(event),
    {
        match event {
            StoreEvent::Command(_) => match self.phase {
                Phase::Idle => true,
                _ => false,
            },
            StoreEvent::Saved(_) => match self.phase {
                Phase::Saving { .. } => true,
                _ => false,
            },
            StoreEvent::Signed(_) => match self.phase {
                Phase::Signing { .. } => true,
                _ => false,
            },
            StoreEvent::Loaded(_) => match self.phase {
                Phase::Loading { .. } => true,
                _ => false,
            },
        }
    }

    /// One turn of the store: takes an event and says what is to be done.
    ///
    /// A batch that is refused leaves no trace and no action. A digest is
    /// given out for signing only on the return of a write that succeeded,
    /// and a signed digest goes out only on the arrival of its signature.
    pub fn step(&mut self, event: StoreEvent) -> (actions: Vec<StoreAction>)
        requires
            old(self).wf(),
            old(self).spec_accepts(&event),
        ensures
            final(self).wf(),
            final(self).same_setup(old(self)),
            match event {
                StoreEvent::Command(BatchStoreCommand::Persist(request, reply)) => {
                    ||| persist_post(old(self), request@, reply, final(self), Ok(actions))
                    ||| actions@.len() == 0 && persist_post(
                        old(self),
                        request@,
                        reply,
                        final(self),
                        Err(StoreError::VerificationFailure),
                    )
                    ||| actions@.len() == 0 && persist_post(
                        old(self),
                        request@,
                        reply,
                        final(self),
                        Err(StoreError::QuotaExceeded),
                    )
                },
                StoreEvent::Command(BatchStoreCommand::Clean(round)) => clean_post(
                    old(self),
                    round,
                    final(self),
                    actions@,
                ),
                StoreEvent::Command(BatchStoreCommand::BatchRequest(peer, digest)) => request_post(
                    old(self),
                    peer@,
                    digest@,
                    final(self),
                    actions@,
                ),
                StoreEvent::Command(
                    BatchStoreCommand::BatchResponse(digest, batch_id, payload, author),
                ) => {
                    ||| response_post(
                        old(self),
                        digest@,
                        batch_id,
                        payload.deep_view(),
                        author@,
                        final(self),
                        Ok(actions),
                    )
                    ||| actions@.len() == 0 && response_post(
                        old(self),
                        digest@,
                        batch_id,
                        payload.deep_view(),
                        author@,
                        final(self),
                        Err(StoreError::VerificationFailure),
                    )
                    ||| actions@.len() == 0 && response_post(
                        old(self),
                        digest@,
                        batch_id,
                        payload.deep_view(),
                        author@,
                        final(self),
                        Err(StoreError::QuotaExceeded),
                    )
                },
                StoreEvent::Saved(ok) => saved_post(old(self), ok, final(self), actions@),
                StoreEvent::Signed(signature) => signed_post(
                    old(self),
                    signature@,
                    final(self),
                    actions@,
                ),
                StoreEvent::Loaded(body) => loaded_post(
                    old(self),
                    match body {
                        Some(b) => Some(b.deep_view()),
                        None => None,
                    },
                    final(self),
                    actions@,
                ),
            },
            forall|i: int|
                0 <= i < actions@.len() && #[trigger] actions@[i] is Sign ==> event
                    matches StoreEvent::Saved(true),
            forall|i: int|
                0 <= i < actions@.len() && (#[trigger] actions@[i] is Reply || actions@[i]
                    is Broadcast) ==> event is Signed,
    {
        let ghost ev = event;
        let actions = match event {
            StoreEvent::Command(BatchStoreCommand::Persist(request, reply)) => {
                match self.handle_persist(request, reply) {
                    Ok(actions) => actions,
                    Err(_) => Vec::new(),
                }
            },
            StoreEvent::Command(BatchStoreCommand::Clean(round)) => self.handle_clean(round),
            StoreEvent::Command(BatchStoreCommand::BatchRequest(peer, digest)) => {
                self.handle_batch_request(peer, digest)
            },
            StoreEvent::Command(
                BatchStoreCommand::BatchResponse(digest, batch_id, payload, author),
            ) => {
                match self.handle_batch_response(digest, batch_id, payload, author) {
                    Ok(actions) => actions,
                    Err(_) => Vec::new(),
                }
            },
            StoreEvent::Saved(ok) => self.handle_saved(ok),
            StoreEvent::Signed(signature) => self.handle_signed(signature),
            StoreEvent::Loaded(body) => self.handle_loaded(body),
        };
        proof {
            assert forall|i: int| 0 <= i < actions@.len() implies (#[trigger] actions@[i] is Sign
                ==> ev matches StoreEvent::Saved(true)) && (actions@[i] is Reply || actions@[i]
                is Broadcast ==> ev is Signed) by {
                match ev {
                    StoreEvent::Command(BatchStoreCommand::Persist(_, _)) => {
                        if i < actions@.len() - 1 {
                            assert(actions@.drop_last()[i] == actions@[i]);
                        }
                    },
                    StoreEvent::Command(BatchStoreCommand::BatchResponse(_, _, _, _)) => {
                        if i < actions@.len() - 1 {
                            assert(actions@.drop_last()[i] == actions@[i]);
                        }
                    },
                    _ => {},
                }
            }
        }
        actions
    }
}

/// Persisting a batch that the store holds already changes nothing but the
/// expiration in its entry: nothing is written, deleted or signed, no entry
/// comes or goes, and the bytes on disk and in memory stay what they were.
pub proof fn persist_again_only_refreshes(
    pre: &BatchStore,
    request: PersistRequestView,
    reply: bool,
    post: &BatchStore,
    out: Result<Vec<StoreAction>, StoreError>,
)
    requires
        pre.wf(),
        holds(pre.index(), request.digest),
        persist_post(pre, request, reply, post, out),
    ensures
        out matches Ok(actions) && actions@.len() == 0,
        post.phase() == PhaseView::Idle,
        post.index().len() == pre.index().len(),
        forall|k: int|
            0 <= k < pre.index().len() ==> #[trigger] post.index()[k] == (if k == position_of(
                pre.index(),
                request.digest,
            ) {
                EntryView { expiration: request.expiration, ..pre.index()[k] }
            } else {
                pre.index()[k]
            }),
        disk_bytes(post.index()) == disk_bytes(pre.index()),
        cached_bytes(post.index()) == cached_bytes(pre.index()),
{
    let s = pre.index();
    let i = position_of(s, request.digest);
    crate::batch_index::bytes_update(s, i, EntryView { expiration: request.expiration, ..s[i] });
}

impl BatchStore {
    /// The entry of the batch with this digest, if the index knows the
    /// batch.
    pub fn entry_of(&self, digest: &HashValue) -> (r: Option<&crate::batch_index::IndexEntry>)
        requires
            self.wf(),
        ensures
            r is Some == knows(self.index(), digest@),
            r matches Some(e) ==> e@ == self.index()[position_of(self.index(), digest@)],
    {
        match self.index.find(digest) {
            Some(i) => {
                proof {
                    self.index.lemma_within_quotas();
                    position_unique(self.index@, i as int);
                }
                Some(self.index.entry(i))
            },
            None => None,
        }
    }

    /// The epoch that the store serves.
    pub fn epoch(&self) -> (e: u64)
        ensures
            e == self.spec_epoch(),
    {
        self.epoch
    }
}

/// A persist command deletes no batch whose expiration lies less than the
/// lag behind the committed round: whatever is not due for collection stays
/// in the index, but for the entry of the batch itself, which is brought up
/// to date.
pub proof fn persist_deletes_only_what_is_due(
    pre: &BatchStore,
    request: PersistRequestView,
    reply: bool,
    post: &BatchStore,
    out: Result<Vec<StoreAction>, StoreError>,
)
    requires
        pre.wf(),
        persist_post(pre, request, reply, post, out),
    ensures
        forall|g: EntryView| #[trigger]
            pre.index().contains(g) && !expired(g, pre.spec_certified_round(), pre.spec_lag())
                && g.digest != request.digest ==> post.index().contains(g),
{
    let s = pre.index();
    let t = post.index();
    pre.lemma_invariant();
    crate::batch_index::eviction_takes_only_what_is_due(
        s,
        request.num_bytes,
        pre.spec_db_quota(),
        pre.spec_certified_round(),
        pre.spec_lag(),
    );
    assert forall|g: EntryView| #[trigger]
        s.contains(g) && !expired(g, pre.spec_certified_round(), pre.spec_lag()) && g.digest
            != request.digest implies t.contains(g) by {
        if holds(s, request.digest) {
            let i = position_of(s, request.digest);
            let k = choose|k: int| 0 <= k < s.len() && s[k] == g;
            assert(k != i);
            assert(t[k] == g);
        }
    }
}

} // verus!
