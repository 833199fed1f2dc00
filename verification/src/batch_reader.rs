//! The read side of the quorum store.
//!
//! Consensus asks the reader for the body of a batch by its digest. A body
//! that this node holds is handed over at once or read from disk. Any other
//! is asked of the peers, a few at a time and the author first, until one
//! of them answers or there is no one left to ask.

use crate::batch_index::{knows, Location};
use crate::batch_store::{position_of, BatchStore};
use crate::digest::{batch_digest, compute_digest};
use crate::digest_map::DigestMap;
use crate::messages::peer_views;
use crate::proof_builder::deadline_after;
use crate::types::{clone_data, Data, HashValue, PeerId};
use vstd::prelude::*;

verus! {

/// Handle of a party that waits for the body of a batch.
pub type WaiterId = u64;

/// Why a body is not to be had.
#[derive(Clone, Copy, Debug, PartialEq, Eq, Structural)]
pub enum FetchError {
    /// No one who was asked has the batch.
    NotFound,
    /// The batch has expired.
    Expired,
}

/// What the reader asks its surroundings to do.
#[derive(Debug)]
pub enum ReaderAction {
    /// Give the waiter its answer.
    Resolve(WaiterId, Result<Data, FetchError>),
    /// Ask the peer for the batch with this digest.
    Request(PeerId, HashValue),
    /// Read the batch with this digest from disk, and hand over the body.
    ReadFromDisk(HashValue),
    /// Say when the time has come: the digest, and the time in milliseconds.
    ArmTimer(HashValue, u64),
}

/// A fetch that is under way, as mathematical values.
pub ghost struct FetchView {
    /// Who waits, in the order of arrival.
    pub waiters: Seq<WaiterId>,
    /// Whether the body is being read from disk.
    pub from_disk: bool,
    /// The peer that the batch is attributed to, if any.
    pub author: Option<Seq<u8>>,
    /// How many of the candidates were asked.
    pub next: nat,
    /// When the peers that were asked last are given up on.
    pub deadline: u64,
}

/// A fetch that is under way.
pub struct FetchState {
    waiters: Vec<WaiterId>,
    from_disk: bool,
    author: Option<PeerId>,
    next: usize,
    deadline: u64,
}

impl View for FetchState {
    type V = FetchView;

    closed spec fn view(&self) -> FetchView {
        FetchView {
            waiters: self.waiters@,
            from_disk: self.from_disk,
            author: match self.author {
                Some(a) => Some(a@),
                None => None,
            },
            next: self.next as nat,
            deadline: self.deadline,
        }
    }
}

/// The peers but `a`, in their order.
pub open spec fn without(peers: Seq<Seq<u8>>, a: Seq<u8>) -> Seq<Seq<u8>>
    decreases peers.len(),
{
    if peers.len() == 0 {
        Seq::empty()
    } else if peers.last() == a {
        without(peers.drop_last(), a)
    } else {
        without(peers.drop_last(), a).push(peers.last())
    }
}

/// The peers that can be asked for a batch, in the order in which they are
/// asked: the author first, then every other peer. No one is listed twice
/// on account of being the author.
pub open spec fn candidates(author: Option<Seq<u8>>, peers: Seq<Seq<u8>>) -> Seq<Seq<u8>> {
    match author {
        Some(a) => seq![a] + without(peers, a),
        None => peers,
    }
}

/// The identity of an author, if there is one, as a sequence of bytes.
pub open spec fn author_view(author: Option<PeerId>) -> Option<Seq<u8>> {
    match author {
        Some(a) => Some(a@),
        None => None,
    }
}

/// How many candidates are asked next, `asked` of `total` having been
/// asked: up to `num_peers`, as far as there are candidates left.
pub open spec fn batch_size(total: nat, asked: nat, num_peers: usize) -> nat {
    if asked >= total {
        0
    } else if total - asked < num_peers {
        (total - asked) as nat
    } else {
        num_peers as nat
    }
}

/// The candidates that are asked next, `asked` of them having been asked.
pub open spec fn next_targets(cands: Seq<Seq<u8>>, asked: nat, num_peers: usize) -> Seq<Seq<u8>> {
    if asked >= cands.len() {
        Seq::empty()
    } else {
        cands.subrange(asked as int, (asked + batch_size(cands.len(), asked, num_peers)) as int)
    }
}

/// Whether `actions` ask each of `targets` for `digest`, in their order.
pub open spec fn are_requests(
    actions: Seq<ReaderAction>,
    targets: Seq<Seq<u8>>,
    digest: Seq<u8>,
) -> bool {
    &&& actions.len() == targets.len()
    &&& forall|i: int|
        0 <= i < actions.len() ==> (#[trigger] actions[i] matches ReaderAction::Request(to, d)
            && to@ == targets[i] && d@ == digest)
}

/// Whether `actions` give each of `waiters` the body, in their order.
pub open spec fn are_deliveries(
    actions: Seq<ReaderAction>,
    waiters: Seq<WaiterId>,
    body: Seq<Seq<u8>>,
) -> bool {
    &&& actions.len() == waiters.len()
    &&& forall|i: int|
        0 <= i < actions.len() ==> (#[trigger] actions[i] matches ReaderAction::Resolve(
            w,
            Ok(payload),
        ) && w == waiters[i] && payload.deep_view() == body)
}

/// Whether `actions` tell each of `waiters` of the failure, in their order.
pub open spec fn are_failures(
    actions: Seq<ReaderAction>,
    waiters: Seq<WaiterId>,
    error: FetchError,
) -> bool {
    &&& actions.len() == waiters.len()
    &&& forall|i: int|
        0 <= i < actions.len() ==> (#[trigger] actions[i] matches ReaderAction::Resolve(
            w,
            Err(e),
        ) && w == waiters[i] && e == error)
}

/// The reader.
pub struct BatchReader {
    peers: Vec<PeerId>,
    batch_request_num_peers: usize,
    batch_request_timeout_ms: usize,
    pending: DigestMap<FetchState>,
}

impl BatchReader {
    /// The peers of this node.
    pub closed spec fn spec_peers(&self) -> Seq<Seq<u8>> {
        peer_views(self.peers@)
    }

    pub closed spec fn spec_num_peers(&self) -> usize {
        self.batch_request_num_peers
    }

    pub closed spec fn spec_timeout_ms(&self) -> usize {
        self.batch_request_timeout_ms
    }

    /// The fetches that are under way, by digest.
    pub closed spec fn pending(&self) -> Map<Seq<u8>, FetchView> {
        self.pending@.map_values(|f: FetchState| f@)
    }

    /// The representation invariant.
    pub closed spec fn wf(&self) -> bool {
        self.pending.wf()
    }

    /// What stays fixed over the life of a reader.
    pub open spec fn same_setup(&self, other: &BatchReader) -> bool {
        &&& self.spec_peers() == other.spec_peers()
        &&& self.spec_num_peers() == other.spec_num_peers()
        &&& self.spec_timeout_ms() == other.spec_timeout_ms()
    }

    /// A reader with no fetch under way.
    pub fn new(
        peers: Vec<PeerId>,
        batch_request_num_peers: usize,
        batch_request_timeout_ms: usize,
    ) -> (r: BatchReader)
        ensures
            r.wf(),
            r.spec_peers() == peer_views(peers@),
            r.spec_num_peers() == batch_request_num_peers,
            r.spec_timeout_ms() == batch_request_timeout_ms,
            r.pending() == Map::<Seq<u8>, FetchView>::empty(),
    {
        let r = BatchReader {
            peers,
            batch_request_num_peers,
            batch_request_timeout_ms,
            pending: DigestMap::new(),
        };
        assert(r.pending() =~= Map::<Seq<u8>, FetchView>::empty());
        r
    }

    /// Whether a fetch is under way for `digest`.
    pub fn is_pending(&self, digest: &HashValue) -> (r: bool)
        requires
            self.wf(),
        ensures
            r == self.pending().contains_key(digest@),
    {
        self.pending.contains(digest)
    }

    /// The deadline of requests that go out at `now_ms`.
    fn deadline(&self, now_ms: u64) -> (d: u64)
        ensures
            d == deadline_after(now_ms, self.spec_timeout_ms()),
    {
        let timeout = self.batch_request_timeout_ms as u64;
        if now_ms > u64::MAX - timeout {
            u64::MAX
        } else {
            now_ms + timeout
        }
    }

    /// The peers that can be asked for a batch that is attributed to
    /// `author`, in the order in which they are asked.
    fn candidate_list(&self, author: &Option<PeerId>) -> (out: Vec<PeerId>)
        requires
            self.wf(),
        ensures
            peer_views(out@) == candidates(author_view(*author), self.spec_peers()),
    {
        let ghost views = self.spec_peers();
        let mut out: Vec<PeerId> = Vec::new();
        assert(peer_views(out@) =~= Seq::<Seq<u8>>::empty());
        assert(views.subrange(0, 0) =~= Seq::<Seq<u8>>::empty());
        match author {
            Some(a) => {
                out.push(*a);
                assert(peer_views(out@) =~= seq![a@] + without(views.subrange(0, 0), a@));
                let mut i: usize = 0;
                while i < self.peers.len()
                    invariant
                        i <= self.peers@.len(),
                        views == peer_views(self.peers@),
                        peer_views(out@) == seq![a@] + without(views.subrange(0, i as int), a@),
                    decreases self.peers@.len() - i,
                {
                    let ghost done = views.subrange(0, i as int);
                    let ghost next = views.subrange(0, i + 1 as int);
                    let ghost before = peer_views(out@);
                    assert(next.drop_last() =~= done);
                    assert(next.last() == self.peers@[i as int]@);
                    if !self.peers[i].same(a) {
                        out.push(self.peers[i]);
                        assert(peer_views(out@) =~= before.push(self.peers@[i as int]@));
                        assert(before.push(next.last()) =~= seq![a@] + without(done, a@).push(
                            next.last(),
                        ));
                    }
                    i += 1;
                }
                assert(views.subrange(0, views.len() as int) =~= views);
            },
            None => {
                let mut i: usize = 0;
                while i < self.peers.len()
                    invariant
                        i <= self.peers@.len(),
                        views == peer_views(self.peers@),
                        peer_views(out@) == views.subrange(0, i as int),
                    decreases self.peers@.len() - i,
                {
                    let ghost before = peer_views(out@);
                    out.push(self.peers[i]);
                    assert(peer_views(out@) =~= before.push(self.peers@[i as int]@));
                    assert(views.subrange(0, i + 1 as int) =~= views.subrange(0, i as int).push(
                        views[i as int],
                    ));
                    i += 1;
                }
                assert(views.subrange(0, views.len() as int) =~= views);
            },
        }
        out
    }

    /// Asks the next of `cands` for `digest`: those from position `asked`
    /// on, as many as are asked at a time. Says how many were asked.
    fn ask_next(
        &self,
        cands: &Vec<PeerId>,
        asked: usize,
        digest: HashValue,
        actions: &mut Vec<ReaderAction>,
    ) -> (count: usize)
        ensures
            count == batch_size(cands@.len(), asked as nat, self.spec_num_peers()),
            asked + count <= cands@.len() || count == 0,
            final(actions)@.len() == old(actions)@.len() + count,
            final(actions)@.subrange(0, old(actions)@.len() as int) == old(actions)@,
            are_requests(
                final(actions)@.subrange(old(actions)@.len() as int, final(actions)@.len() as int),
                next_targets(peer_views(cands@), asked as nat, self.spec_num_peers()),
                digest@,
            ),
    {
        let ghost views = peer_views(cands@);
        let ghost start = actions@;
        let total = cands.len();
        if asked >= total {
            assert(actions@.subrange(0, start.len() as int) =~= start);
            assert(actions@.subrange(start.len() as int, actions@.len() as int)
                =~= Seq::<ReaderAction>::empty());
            return 0;
        }
        let k: usize = if total - asked < self.batch_request_num_peers {
            total - asked
        } else {
            self.batch_request_num_peers
        };
        let mut i: usize = 0;
        assert(actions@.subrange(0, start.len() as int) =~= start);
        while i < k
            invariant
                i <= k,
                asked + k <= total,
                total == cands@.len(),
                views == peer_views(cands@),
                actions@.len() == start.len() + i,
                actions@.subrange(0, start.len() as int) == start,
                forall|j: int|
                    0 <= j < i ==> (#[trigger] actions@[start.len() + j] matches ReaderAction::Request(
                        to,
                        d,
                    ) && to@ == views[asked + j] && d@ == digest@),
            decreases k - i,
        {
            let who: PeerId = cands[asked + i];
            assert(who@ == views[asked + i]);
            let ghost prev = actions@;
            actions.push(ReaderAction::Request(who, digest));
            assert(actions@.subrange(0, start.len() as int) =~= prev.subrange(
                0,
                start.len() as int,
            ));
            assert forall|j: int| 0 <= j < i + 1 implies (#[trigger] actions@[start.len()
                + j] matches ReaderAction::Request(to, d) && to@ == views[asked + j] && d@
                == digest@) by {
                if j < i {
                    assert(actions@[start.len() + j] == prev[start.len() + j]);
                }
            }
            i += 1;
        }
        proof {
            let tail = actions@.subrange(start.len() as int, actions@.len() as int);
            let targets = views.subrange(asked as int, asked + k);
            assert forall|j: int| 0 <= j < tail.len() implies (#[trigger] tail[j] matches ReaderAction::Request(
                to,
                d,
            ) && to@ == targets[j] && d@ == digest@) by {
                assert(tail[j] == actions@[start.len() + j]);
            }
        }
        k
    }
}

/// The peer that a batch is attributed to in the index, if the index knows
/// the batch.
pub open spec fn attributed(store: &BatchStore, digest: Seq<u8>) -> Option<Seq<u8>> {
    if knows(store.index(), digest) {
        Some(store.index()[position_of(store.index(), digest)].author)
    } else {
        None
    }
}

/// Whether `actions` ask the next candidates and set the timer for them.
pub open spec fn asks_and_arms(
    actions: Seq<ReaderAction>,
    targets: Seq<Seq<u8>>,
    digest: Seq<u8>,
    deadline: u64,
) -> bool {
    &&& actions.len() == targets.len() + 1
    &&& are_requests(actions.drop_last(), targets, digest)
    &&& actions.last() matches ReaderAction::ArmTimer(d, t)
    &&& d@ == digest
    &&& t == deadline
}

/// What asking for a body does.
///
/// Where a fetch is under way for the digest the waiter joins it. A body
/// that is cached is handed over at once, and one that is on disk only is
/// read from there. Any other is asked of the first candidates, the author
/// first, up to the number of peers that are asked at a time; where no one
/// is asked the waiter is told that the batch was not found.
pub open spec fn get_post(
    pre: &BatchReader,
    store: &BatchStore,
    digest: Seq<u8>,
    waiter: WaiterId,
    now_ms: u64,
    post: &BatchReader,
    actions: Seq<ReaderAction>,
) -> bool {
    let s = store.index();
    let p = pre.pending();
    let e = s[position_of(s, digest)];
    if p.contains_key(digest) {
        &&& actions.len() == 0
        &&& post.pending() == p.insert(
            digest,
            FetchView { waiters: p[digest].waiters.push(waiter), ..p[digest] },
        )
    } else if knows(s, digest) && e.location == Location::Local {
        &&& post.pending() == p
        &&& are_deliveries(actions, seq![waiter], e.payload)
    } else if knows(s, digest) && e.location == Location::Persisted {
        &&& actions.len() == 1
        &&& actions[0] matches ReaderAction::ReadFromDisk(d)
        &&& d@ == digest
        &&& post.pending() == p.insert(
            digest,
            FetchView {
                waiters: seq![waiter],
                from_disk: true,
                author: Some(e.author),
                next: 0,
                deadline: 0,
            },
        )
    } else {
        let author = attributed(store, digest);
        let cands = candidates(author, pre.spec_peers());
        let deadline = deadline_after(now_ms, pre.spec_timeout_ms());
        let targets = next_targets(cands, 0, pre.spec_num_peers());
        if targets.len() == 0 {
            &&& post.pending() == p
            &&& are_failures(actions, seq![waiter], FetchError::NotFound)
        } else {
            &&& asks_and_arms(actions, targets, digest, deadline)
            &&& post.pending() == p.insert(
                digest,
                FetchView {
                    waiters: seq![waiter],
                    from_disk: false,
                    author,
                    next: targets.len(),
                    deadline,
                },
            )
        }
    }
}

/// What giving up on the peers that were asked last does to the fetch for
/// `digest`: the next candidates are asked, and where none is left everyone
/// who waits is told that the batch was not found.
pub open spec fn escalate_post(
    pre: &BatchReader,
    digest: Seq<u8>,
    now_ms: u64,
    post: &BatchReader,
    actions: Seq<ReaderAction>,
) -> bool {
    let p = pre.pending();
    let f = p[digest];
    let cands = candidates(f.author, pre.spec_peers());
    let deadline = deadline_after(now_ms, pre.spec_timeout_ms());
    let targets = next_targets(cands, f.next, pre.spec_num_peers());
    if targets.len() == 0 {
        &&& are_failures(actions, f.waiters, FetchError::NotFound)
        &&& post.pending() == p.remove(digest)
    } else {
        &&& asks_and_arms(actions, targets, digest, deadline)
        &&& post.pending() == p.insert(
            digest,
            FetchView { next: f.next + targets.len(), deadline, ..f },
        )
    }
}

impl BatchReader {
    /// Tells every one of `waiters` of the failure.
    fn fail_all(waiters: &Vec<WaiterId>, error: FetchError) -> (actions: Vec<ReaderAction>)
        ensures
            are_failures(actions@, waiters@, error),
    {
        let mut actions: Vec<ReaderAction> = Vec::new();
        let mut i: usize = 0;
        while i < waiters.len()
            invariant
                i <= waiters@.len(),
                actions@.len() == i,
                forall|j: int|
                    0 <= j < i ==> (#[trigger] actions@[j] matches ReaderAction::Resolve(w, Err(e))
                        && w == waiters@[j] && e == error),
            decreases waiters@.len() - i,
        {
            actions.push(ReaderAction::Resolve(waiters[i], Err(error)));
            i += 1;
        }
        actions
    }

    /// Gives every one of `waiters` the body.
    fn deliver_all(waiters: &Vec<WaiterId>, body: &Data) -> (actions: Vec<ReaderAction>)
        ensures
            are_deliveries(actions@, waiters@, body.deep_view()),
    {
        let mut actions: Vec<ReaderAction> = Vec::new();
        let mut i: usize = 0;
        while i < waiters.len()
            invariant
                i <= waiters@.len(),
                actions@.len() == i,
                forall|j: int|
                    0 <= j < i ==> (#[trigger] actions@[j] matches ReaderAction::Resolve(
                        w,
                        Ok(payload),
                    ) && w == waiters@[j] && payload.deep_view() == body.deep_view()),
            decreases waiters@.len() - i,
        {
            actions.push(ReaderAction::Resolve(waiters[i], Ok(clone_data(body))));
            i += 1;
        }
        actions
    }

    /// Takes a request of consensus for the body of a batch.
    pub fn get(&mut self, store: &BatchStore, digest: HashValue, waiter: WaiterId, now_ms: u64) -> (actions:
        Vec<ReaderAction>)
        requires
            old(self).wf(),
            store.wf(),
        ensures
            final(self).wf(),
            final(self).same_setup(old(self)),
            get_post(old(self), store, digest@, waiter, now_ms, final(self), actions@),
    {
        let ghost p = self.pending@;
        let ghost views = self.pending();
        match self.pending.remove(&digest) {
            Some(mut fetch) => {
                let ghost prior = fetch@;
                fetch.waiters.push(waiter);
                self.pending.insert(digest, fetch);
                assert(self.pending() =~= views.insert(
                    digest@,
                    FetchView { waiters: prior.waiters.push(waiter), ..prior },
                ));
                return Vec::new();
            },
            None => {
                assert(self.pending() =~= views);
            },
        }
        let mut waiters: Vec<WaiterId> = Vec::new();
        waiters.push(waiter);
        assert(waiters@ =~= seq![waiter]);
        let author: Option<PeerId> = match store.entry_of(&digest) {
            Some(e) => {
                match e.location {
                    Location::Local => {
                        return Self::deliver_all(&waiters, &e.payload);
                    },
                    Location::Persisted => {
                        let mut actions: Vec<ReaderAction> = Vec::new();
                        actions.push(ReaderAction::ReadFromDisk(digest));
                        let fetch = FetchState {
                            waiters,
                            from_disk: true,
                            author: Some(e.author),
                            next: 0,
                            deadline: 0,
                        };
                        self.pending.insert(digest, fetch);
                        assert(self.pending() =~= views.insert(digest@, fetch@));
                        return actions;
                    },
                    Location::Remote => Some(e.author),
                }
            },
            None => None,
        };
        let cands = self.candidate_list(&author);
        let mut actions: Vec<ReaderAction> = Vec::new();
        let count = self.ask_next(&cands, 0, digest, &mut actions);
        if count == 0 {
            return Self::fail_all(&waiters, FetchError::NotFound);
        }
        let deadline = self.deadline(now_ms);
        let ghost requests = actions@;
        assert(requests.subrange(0, requests.len() as int) =~= requests);
        actions.push(ReaderAction::ArmTimer(digest, deadline));
        assert(actions@.drop_last() =~= requests);
        let fetch = FetchState { waiters, from_disk: false, author, next: count, deadline };
        self.pending.insert(digest, fetch);
        assert(self.pending() =~= views.insert(digest@, fetch@));
        actions
    }

    /// Gives up on the peers that were asked last for `digest`.
    fn escalate(&mut self, digest: HashValue, now_ms: u64) -> (actions: Vec<ReaderAction>)
        requires
            old(self).wf(),
            old(self).pending().contains_key(digest@),
        ensures
            final(self).wf(),
            final(self).same_setup(old(self)),
            escalate_post(old(self), digest@, now_ms, final(self), actions@),
    {
        let ghost views = self.pending();
        let gone = self.pending.remove(&digest);
        assert(self.pending() =~= views.remove(digest@));
        let mut fetch = gone.unwrap();
        let ghost prior = fetch@;
        let cands = self.candidate_list(&fetch.author);
        let mut actions: Vec<ReaderAction> = Vec::new();
        let count = self.ask_next(&cands, fetch.next, digest, &mut actions);
        if count == 0 {
            return Self::fail_all(&fetch.waiters, FetchError::NotFound);
        }
        assert(fetch.next + count <= cands@.len() && cands@.len() == cands.len());
        let deadline = self.deadline(now_ms);
        let ghost requests = actions@;
        assert(requests.subrange(0, requests.len() as int) =~= requests);
        actions.push(ReaderAction::ArmTimer(digest, deadline));
        assert(actions@.drop_last() =~= requests);
        fetch.next = fetch.next + count;
        fetch.deadline = deadline;
        self.pending.insert(digest, fetch);
        assert(self.pending() =~= views.insert(
            digest@,
            FetchView { next: prior.next + count as nat, deadline, ..prior },
        ));
        actions
    }

    /// Takes the notice that the time set for `digest` has come. The notice
    /// counts if a fetch from peers is under way for the digest and its
    /// deadline has come; the next candidates are then asked.
    pub fn on_timeout(&mut self, digest: HashValue, now_ms: u64) -> (actions: Vec<ReaderAction>)
        requires
            old(self).wf(),
        ensures
            final(self).wf(),
            final(self).same_setup(old(self)),
            ({
                let p = old(self).pending();
                if p.contains_key(digest@) && !p[digest@].from_disk && p[digest@].deadline
                    <= now_ms {
                    escalate_post(old(self), digest@, now_ms, final(self), actions@)
                } else {
                    final(self).pending() == p && actions@.len() == 0
                }
            }),
    {
        let due = match self.pending.get(&digest) {
            Some(f) => !f.from_disk && f.deadline <= now_ms,
            None => false,
        };
        if due {
            self.escalate(digest, now_ms)
        } else {
            Vec::new()
        }
    }

    /// Takes the notice that a peer's answer for `digest` was refused. Where
    /// a fetch from peers is under way for the digest the next candidates are
    /// asked.
    pub fn on_failed(&mut self, digest: HashValue, now_ms: u64) -> (actions: Vec<ReaderAction>)
        requires
            old(self).wf(),
        ensures
            final(self).wf(),
            final(self).same_setup(old(self)),
            ({
                let p = old(self).pending();
                if p.contains_key(digest@) && !p[digest@].from_disk {
                    escalate_post(old(self), digest@, now_ms, final(self), actions@)
                } else {
                    final(self).pending() == p && actions@.len() == 0
                }
            }),
    {
        let due = match self.pending.get(&digest) {
            Some(f) => !f.from_disk,
            None => false,
        };
        if due {
            self.escalate(digest, now_ms)
        } else {
            Vec::new()
        }
    }

    /// Takes the body of a batch that a peer sent and the store took in:
    /// everyone who waits for it gets it, and the fetch is over.
    pub fn on_fetched(&mut self, digest: HashValue, payload: Data) -> (actions: Vec<ReaderAction>)
        requires
            old(self).wf(),
        ensures
            final(self).wf(),
            final(self).same_setup(old(self)),
            final(self).pending() == old(self).pending().remove(digest@),
            ({
                let p = old(self).pending();
                if p.contains_key(digest@) {
                    are_deliveries(actions@, p[digest@].waiters, payload.deep_view())
                } else {
                    actions@.len() == 0
                }
            }),
    {
        let ghost views = self.pending();
        let gone = self.pending.remove(&digest);
        assert(self.pending() =~= views.remove(digest@));
        match gone {
            Some(fetch) => Self::deliver_all(&fetch.waiters, &payload),
            None => Vec::new(),
        }
    }

    /// Takes the notice that the batch has expired: everyone who waits for
    /// it is told so, and the fetch is over.
    pub fn on_expired(&mut self, digest: HashValue) -> (actions: Vec<ReaderAction>)
        requires
            old(self).wf(),
        ensures
            final(self).wf(),
            final(self).same_setup(old(self)),
            final(self).pending() == old(self).pending().remove(digest@),
            ({
                let p = old(self).pending();
                if p.contains_key(digest@) {
                    are_failures(actions@, p[digest@].waiters, FetchError::Expired)
                } else {
                    actions@.len() == 0
                }
            }),
    {
        let ghost views = self.pending();
        let gone = self.pending.remove(&digest);
        assert(self.pending() =~= views.remove(digest@));
        match gone {
            Some(fetch) => Self::fail_all(&fetch.waiters, FetchError::Expired),
            None => Vec::new(),
        }
    }

    /// Takes the return of a read from disk. Where a read is under way for
    /// the digest, everyone who waits gets the body if the store holds the
    /// batch and the body hashes to the digest, and is told that the batch
    /// was not found otherwise.
    pub fn on_loaded(&mut self, store: &BatchStore, digest: HashValue, body: Option<Data>) -> (actions:
        Vec<ReaderAction>)
        requires
            old(self).wf(),
            store.wf(),
        ensures
            final(self).wf(),
            final(self).same_setup(old(self)),
            ({
                let p = old(self).pending();
                let s = store.index();
                let e = s[position_of(s, digest@)];
                if p.contains_key(digest@) && p[digest@].from_disk {
                    &&& final(self).pending() == p.remove(digest@)
                    &&& if body matches Some(b) && knows(s, digest@) && e.location
                        != Location::Remote && digest@ == batch_digest(
                        e.author,
                        store.spec_epoch(),
                        e.batch_id,
                        b.deep_view(),
                    ) {
                        are_deliveries(actions@, p[digest@].waiters, body->Some_0.deep_view())
                    } else {
                        are_failures(actions@, p[digest@].waiters, FetchError::NotFound)
                    }
                } else {
                    final(self).pending() == p && actions@.len() == 0
                }
            }),
    {
        let ghost views = self.pending();
        let reading = match self.pending.get(&digest) {
            Some(f) => f.from_disk,
            None => false,
        };
        if !reading {
            return Vec::new();
        }
        let gone = self.pending.remove(&digest);
        assert(self.pending() =~= views.remove(digest@));
        let fetch = gone.unwrap();
        let payload = match body {
            Some(payload) => payload,
            None => {
                return Self::fail_all(&fetch.waiters, FetchError::NotFound);
            },
        };
        match store.entry_of(&digest) {
            Some(e) => {
                let held = match e.location {
                    Location::Remote => false,
                    _ => true,
                };
                if held && compute_digest(&e.author, store.epoch(), e.batch_id, &payload).same(
                    &digest,
                ) {
                    Self::deliver_all(&fetch.waiters, &payload)
                } else {
                    Self::fail_all(&fetch.waiters, FetchError::NotFound)
                }
            },
            None => Self::fail_all(&fetch.waiters, FetchError::NotFound),
        }
    }
}

/// Whether `action` tells the waiter `w` that the batch was not found.
pub open spec fn is_cancelled(action: ReaderAction, w: WaiterId) -> bool {
    action matches ReaderAction::Resolve(x, Err(e)) && x == w && e == FetchError::NotFound
}

/// Whether `action` is for a waiter of one of the fetches in `pending`.
pub open spec fn cancels_in(pending: Map<Seq<u8>, FetchView>, action: ReaderAction) -> bool {
    exists|d: Seq<u8>, j: int| #[trigger]
        pending.contains_key(d) && 0 <= j < pending[d].waiters.len() && is_cancelled(
            action,
            #[trigger] pending[d].waiters[j],
        )
}

/// Whether one of `actions` is for the waiter `w`.
pub open spec fn cancelled(actions: Seq<ReaderAction>, w: WaiterId) -> bool {
    exists|i: int| 0 <= i < actions.len() && is_cancelled(#[trigger] actions[i], w)
}

impl BatchReader {
    /// Ends the epoch for the reader: no fetch stays under way, and everyone
    /// who waits for a body is told that the batch was not found.
    pub fn teardown(&mut self) -> (actions: Vec<ReaderAction>)
        requires
            old(self).wf(),
        ensures
            final(self).wf(),
            final(self).same_setup(old(self)),
            final(self).pending() == Map::<Seq<u8>, FetchView>::empty(),
            forall|i: int|
                0 <= i < actions@.len() ==> cancels_in(old(self).pending(), #[trigger] actions@[i]),
            forall|d: Seq<u8>, j: int|
                #![trigger old(self).pending()[d].waiters[j]]
                old(self).pending().contains_key(d) && 0 <= j < old(
                    self,
                ).pending()[d].waiters.len() ==> cancelled(
                    actions@,
                    old(self).pending()[d].waiters[j],
                ),
    {
        let ghost before = self.pending@;
        let ghost views = self.pending();
        let mut actions: Vec<ReaderAction> = Vec::new();
        loop
            invariant
                self.wf(),
                self.same_setup(old(self)),
                views == before.map_values(|f: FetchState| f@),
                forall|d: Seq<u8>| #[trigger]
                    self.pending@.contains_key(d) ==> before.contains_key(d) && self.pending@[d]
                        == before[d],
                forall|d: Seq<u8>, j: int|
                    #![trigger before[d]@.waiters[j]]
                    before.contains_key(d) && 0 <= j < before[d]@.waiters.len()
                        ==> self.pending@.contains_key(d) || cancelled(
                        actions@,
                        before[d]@.waiters[j],
                    ),
                forall|i: int| 0 <= i < actions@.len() ==> cancels_in(views, #[trigger] actions@[i]),
            ensures
                self.pending.spec_len() == 0,
            decreases self.pending.spec_len(),
        {
            let entry = match self.pending.pop_last() {
                None => {
                    break ;
                },
                Some(entry) => entry,
            };
            let ghost d0 = entry.key@;
            let ghost waiters = entry.value@.waiters;
            assert(before.contains_key(d0) && before[d0] == entry.value);
            assert(views.contains_key(d0) && views[d0] == entry.value@);
            let ghost start = actions@;
            let mut j: usize = 0;
            while j < entry.value.waiters.len()
                invariant
                    j <= entry.value.waiters@.len(),
                    waiters == entry.value.waiters@,
                    views.contains_key(d0),
                    views[d0].waiters == waiters,
                    actions@.len() == start.len() + j,
                    forall|i: int| 0 <= i < start.len() ==> actions@[i] == start[i],
                    forall|k: int|
                        0 <= k < j ==> is_cancelled(#[trigger] actions@[start.len() + k], waiters[k]),
                    forall|i: int|
                        0 <= i < actions@.len() ==> cancels_in(views, #[trigger] actions@[i]),
                decreases entry.value.waiters@.len() - j,
            {
                let ghost prev = actions@;
                actions.push(
                    ReaderAction::Resolve(entry.value.waiters[j], Err(FetchError::NotFound)),
                );
                proof {
                    let n = prev.len() as int;
                    assert(is_cancelled(actions@[n], views[d0].waiters[j as int]));
                    assert(cancels_in(views, actions@[n]));
                    assert forall|i: int| 0 <= i < actions@.len() implies cancels_in(
                        views,
                        #[trigger] actions@[i],
                    ) by {
                        if i < n {
                            assert(actions@[i] == prev[i]);
                        }
                    }
                    assert forall|k: int| 0 <= k < j + 1 implies is_cancelled(
                        #[trigger] actions@[start.len() + k],
                        waiters[k],
                    ) by {
                        if k < j {
                            assert(actions@[start.len() + k] == prev[start.len() + k]);
                        }
                    }
                }
                j += 1;
            }
            proof {
                assert forall|w: WaiterId| cancelled(start, w) implies cancelled(actions@, w) by {
                    let i = choose|i: int| 0 <= i < start.len() && is_cancelled(
                        #[trigger] start[i],
                        w,
                    );
                    assert(actions@[i] == start[i]);
                }
                assert forall|d: Seq<u8>, k: int|
                    #![trigger before[d]@.waiters[k]]
                    before.contains_key(d) && 0 <= k < before[d]@.waiters.len()
                        implies self.pending@.contains_key(d) || cancelled(
                    actions@,
                    before[d]@.waiters[k],
                ) by {
                    if d == d0 {
                        assert(is_cancelled(actions@[start.len() + k], waiters[k]));
                    }
                }
            }
        }
        proof {
            self.pending.lemma_empty();
            assert(self.pending() =~= Map::<Seq<u8>, FetchView>::empty());
            assert forall|d: Seq<u8>, j: int|
                #![trigger views[d].waiters[j]]
                views.contains_key(d) && 0 <= j < views[d].waiters.len() implies cancelled(
                actions@,
                views[d].waiters[j],
            ) by {
                assert(before.contains_key(d));
                assert(before[d]@.waiters[j] == views[d].waiters[j]);
            }
        }
        actions
    }
}

} // verus!
