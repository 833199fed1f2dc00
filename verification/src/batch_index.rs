//! The index of batches: where the body of each known batch is, when it
//! expires, and how many bytes it takes of the two budgets.
//!
//! A batch that this node holds is on disk; it may be cached in memory as
//! well. A batch that is only known to exist is attributed to the peer that
//! holds it. The bytes on disk stay within the disk quota and the bytes in
//! memory within the memory quota.

use crate::types::{BatchId, Data, HashValue, LogicalTime, PeerId, Round};
use vstd::prelude::*;

verus! {

/// Where the body of a batch is.
#[derive(Clone, Copy, Debug, PartialEq, Eq, Structural)]
pub enum Location {
    /// On disk and cached in memory.
    Local,
    /// On disk only.
    Persisted,
    /// With its author; this node does not hold it.
    Remote,
}

/// An entry of the index, as mathematical values.
pub ghost struct EntryView {
    pub digest: Seq<u8>,
    pub author: Seq<u8>,
    pub batch_id: BatchId,
    pub expiration: LogicalTime,
    pub num_bytes: nat,
    pub location: Location,
    /// The cached body; empty unless the location is `Local`.
    pub payload: Seq<Seq<u8>>,
    /// The body that went to disk; empty for a batch that this node does not
    /// hold.
    pub body: Seq<Seq<u8>>,
}

/// An entry of the index.
pub struct IndexEntry {
    pub digest: HashValue,
    pub author: PeerId,
    pub batch_id: BatchId,
    pub expiration: LogicalTime,
    pub num_bytes: usize,
    pub location: Location,
    pub payload: Data,
    /// The body that went to disk.
    pub body: Ghost<Seq<Seq<u8>>>,
}

impl View for IndexEntry {
    type V = EntryView;

    open spec fn view(&self) -> EntryView {
        EntryView {
            digest: self.digest@,
            author: self.author@,
            batch_id: self.batch_id,
            expiration: self.expiration,
            num_bytes: self.num_bytes as nat,
            location: self.location,
            payload: self.payload.deep_view(),
            body: self.body@,
        }
    }
}

/// The entries of a vector, as mathematical values.
pub open spec fn entry_views(entries: Seq<IndexEntry>) -> Seq<EntryView> {
    entries.map_values(|e: IndexEntry| e@)
}

/// Whether the body of the entry is on this node's disk.
pub open spec fn on_disk(e: EntryView) -> bool {
    e.location != Location::Remote
}

/// Bytes that the entry takes on disk.
pub open spec fn disk_cost(e: EntryView) -> nat {
    if on_disk(e) {
        e.num_bytes
    } else {
        0
    }
}

/// Bytes that the entry takes in memory.
pub open spec fn memory_cost(e: EntryView) -> nat {
    if e.location == Location::Local {
        e.num_bytes
    } else {
        0
    }
}

/// Bytes on disk.
pub open spec fn disk_bytes(s: Seq<EntryView>) -> nat
    decreases s.len(),
{
    if s.len() == 0 {
        0
    } else {
        disk_bytes(s.drop_last()) + disk_cost(s.last())
    }
}

/// Bytes cached in memory.
pub open spec fn cached_bytes(s: Seq<EntryView>) -> nat
    decreases s.len(),
{
    if s.len() == 0 {
        0
    } else {
        cached_bytes(s.drop_last()) + memory_cost(s.last())
    }
}

/// Whether the index knows the digest.
pub open spec fn knows(s: Seq<EntryView>, d: Seq<u8>) -> bool {
    exists|i: int| 0 <= i < s.len() && (#[trigger] s[i]).digest == d
}

/// No digest occurs twice.
pub open spec fn distinct_digests(s: Seq<EntryView>) -> bool {
    forall|i: int, j: int| 0 <= i < j < s.len() ==> s[i].digest != s[j].digest
}

/// Whether the entry is due for collection once consensus has committed
/// `round`: its expiration lies `lag` rounds or more behind.
pub open spec fn expired(e: EntryView, round: Round, lag: Round) -> bool {
    e.expiration.round + lag <= round
}

/// The entries that outlive the commit of `round`, in their order.
pub open spec fn surviving(s: Seq<EntryView>, round: Round, lag: Round) -> Seq<EntryView>
    decreases s.len(),
{
    if s.len() == 0 {
        Seq::empty()
    } else if expired(s.last(), round, lag) {
        surviving(s.drop_last(), round, lag)
    } else {
        surviving(s.drop_last(), round, lag).push(s.last())
    }
}

/// Adding an entry adds its costs.
pub proof fn bytes_push(s: Seq<EntryView>, e: EntryView)
    ensures
        disk_bytes(s.push(e)) == disk_bytes(s) + disk_cost(e),
        cached_bytes(s.push(e)) == cached_bytes(s) + memory_cost(e),
{
    assert(s.push(e).drop_last() =~= s);
}

/// Removing an entry takes its costs off.
pub proof fn bytes_remove(s: Seq<EntryView>, i: int)
    requires
        0 <= i < s.len(),
    ensures
        disk_bytes(s.remove(i)) + disk_cost(s[i]) == disk_bytes(s),
        cached_bytes(s.remove(i)) + memory_cost(s[i]) == cached_bytes(s),
    decreases s.len(),
{
    if i == s.len() - 1 {
        assert(s.remove(i) =~= s.drop_last());
    } else {
        bytes_remove(s.drop_last(), i);
        assert(s.remove(i).drop_last() =~= s.drop_last().remove(i));
        assert(s.remove(i).last() == s.last());
    }
}

/// Replacing an entry replaces its costs.
pub proof fn bytes_update(s: Seq<EntryView>, i: int, e: EntryView)
    requires
        0 <= i < s.len(),
    ensures
        disk_bytes(s.update(i, e)) + disk_cost(s[i]) == disk_bytes(s) + disk_cost(e),
        cached_bytes(s.update(i, e)) + memory_cost(s[i]) == cached_bytes(s) + memory_cost(e),
    decreases s.len(),
{
    if i == s.len() - 1 {
        assert(s.update(i, e).drop_last() =~= s.drop_last());
    } else {
        bytes_update(s.drop_last(), i, e);
        assert(s.update(i, e).drop_last() =~= s.drop_last().update(i, e));
        assert(s.update(i, e).last() == s.last());
    }
}

/// The budget in which room is made.
#[derive(Clone, Copy, Debug, PartialEq, Eq, Structural)]
pub enum Budget {
    /// The disk, once consensus has committed the round given first, with the
    /// lag given second: only a batch that is due for collection makes room.
    Disk(Round, Round),
    /// The memory: any cached body makes room.
    Memory,
}

/// Whether the entry can make room in the budget.
pub open spec fn candidate(e: EntryView, budget: Budget) -> bool {
    match budget {
        Budget::Disk(round, lag) => on_disk(e) && expired(e, round, lag),
        Budget::Memory => e.location == Location::Local,
    }
}

/// The position, among the first `n` entries, of the candidate that expires
/// first; of several that expire together, the first. It is `-1` where none
/// of them is a candidate.
pub open spec fn nearest_upto(s: Seq<EntryView>, n: int, budget: Budget) -> int
    decreases n,
{
    if n <= 0 {
        -1
    } else {
        let best = nearest_upto(s, n - 1, budget);
        let c = n - 1;
        if !candidate(s[c], budget) {
            best
        } else if best < 0 || s[c].expiration.spec_lt(s[best].expiration) {
            c
        } else {
            best
        }
    }
}

/// The position of the candidate that expires first, or `-1`.
pub open spec fn nearest(s: Seq<EntryView>, budget: Budget) -> int {
    nearest_upto(s, s.len() as int, budget)
}

/// The entry that `nearest_upto` picks is a candidate, and no candidate
/// among those it looked at expires before it.
pub proof fn nearest_is_least(s: Seq<EntryView>, n: int, budget: Budget)
    requires
        0 <= n <= s.len(),
    ensures
        -1 <= nearest_upto(s, n, budget) < n,
        nearest_upto(s, n, budget) >= 0 ==> candidate(s[nearest_upto(s, n, budget)], budget),
        nearest_upto(s, n, budget) >= 0 ==> forall|j: int|
            0 <= j < n && candidate(#[trigger] s[j], budget) ==> !s[j].expiration.spec_lt(
                s[nearest_upto(s, n, budget)].expiration,
            ),
        nearest_upto(s, n, budget) < 0 ==> forall|j: int|
            0 <= j < n ==> !candidate(#[trigger] s[j], budget),
    decreases n,
{
    if n > 0 {
        nearest_is_least(s, n - 1, budget);
    }
}

/// Bytes that the entry gives back to the disk if it is collected at the
/// commit of `round`.
pub open spec fn reclaim_cost(e: EntryView, round: Round, lag: Round) -> nat {
    if expired(e, round, lag) {
        disk_cost(e)
    } else {
        0
    }
}

/// Bytes on disk of batches that are due for collection.
pub open spec fn reclaimable(s: Seq<EntryView>, round: Round, lag: Round) -> nat
    decreases s.len(),
{
    if s.len() == 0 {
        0
    } else {
        reclaimable(s.drop_last(), round, lag) + reclaim_cost(s.last(), round, lag)
    }
}

/// Whether room can be made on disk for `n` more bytes: the bytes of the
/// batches that are not due for collection, and the `n` new ones, are within
/// the quota.
pub open spec fn can_make_room(
    s: Seq<EntryView>,
    n: nat,
    quota: nat,
    round: Round,
    lag: Round,
) -> bool {
    disk_bytes(s) - reclaimable(s, round, lag) + n <= quota
}

/// What is due for collection is part of what is on disk.
pub proof fn reclaimable_is_on_disk(s: Seq<EntryView>, round: Round, lag: Round)
    ensures
        reclaimable(s, round, lag) <= disk_bytes(s),
    decreases s.len(),
{
    if s.len() > 0 {
        reclaimable_is_on_disk(s.drop_last(), round, lag);
    }
}

/// Removing an entry takes off what it would give back.
pub proof fn reclaimable_remove(s: Seq<EntryView>, i: int, round: Round, lag: Round)
    requires
        0 <= i < s.len(),
    ensures
        reclaimable(s.remove(i), round, lag) + reclaim_cost(s[i], round, lag) == reclaimable(
            s,
            round,
            lag,
        ),
    decreases s.len(),
{
    if i == s.len() - 1 {
        assert(s.remove(i) =~= s.drop_last());
    } else {
        reclaimable_remove(s.drop_last(), i, round, lag);
        assert(s.remove(i).drop_last() =~= s.drop_last().remove(i));
        assert(s.remove(i).last() == s.last());
    }
}

/// Where no batch on disk is due for collection, no byte is to be had.
pub proof fn nothing_reclaimable(s: Seq<EntryView>, round: Round, lag: Round)
    requires
        forall|j: int| 0 <= j < s.len() ==> !candidate(#[trigger] s[j], Budget::Disk(round, lag)),
    ensures
        reclaimable(s, round, lag) == 0,
    decreases s.len(),
{
    if s.len() > 0 {
        assert(!candidate(s[s.len() - 1], Budget::Disk(round, lag)));
        assert forall|j: int| 0 <= j < s.drop_last().len() implies !candidate(
            #[trigger] s.drop_last()[j],
            Budget::Disk(round, lag),
        ) by {
            assert(s.drop_last()[j] == s[j]);
        }
        nothing_reclaimable(s.drop_last(), round, lag);
    }
}

/// The index after room was made on disk for `n` more bytes: as long as
/// the bytes do not fit, the batch that expires first among those due for
/// collection is evicted.
pub open spec fn evict_until_fits(
    s: Seq<EntryView>,
    n: nat,
    quota: nat,
    round: Round,
    lag: Round,
) -> Seq<EntryView>
    decreases s.len(),
{
    let i = nearest(s, Budget::Disk(round, lag));
    if disk_bytes(s) + n <= quota || i < 0 || i >= s.len() {
        s
    } else {
        evict_until_fits(s.remove(i), n, quota, round, lag)
    }
}

/// The digests that are evicted to make room for `n` more bytes, in the
/// order of their eviction.
pub open spec fn evicted_by(
    s: Seq<EntryView>,
    n: nat,
    quota: nat,
    round: Round,
    lag: Round,
) -> Seq<Seq<u8>>
    decreases s.len(),
{
    let i = nearest(s, Budget::Disk(round, lag));
    if disk_bytes(s) + n <= quota || i < 0 || i >= s.len() {
        Seq::empty()
    } else {
        seq![s[i].digest] + evicted_by(s.remove(i), n, quota, round, lag)
    }
}

/// Where room can be made it is made: afterwards the bytes on disk and the
/// `n` new ones are within the quota.
pub proof fn evict_until_fits_makes_room(
    s: Seq<EntryView>,
    n: nat,
    quota: nat,
    round: Round,
    lag: Round,
)
    requires
        can_make_room(s, n, quota, round, lag),
    ensures
        disk_bytes(evict_until_fits(s, n, quota, round, lag)) + n <= quota,
    decreases s.len(),
{
    let budget = Budget::Disk(round, lag);
    nearest_is_least(s, s.len() as int, budget);
    reclaimable_is_on_disk(s, round, lag);
    let i = nearest(s, budget);
    if disk_bytes(s) + n <= quota {
    } else if i < 0 {
        nothing_reclaimable(s, round, lag);
    } else {
        bytes_remove(s, i);
        reclaimable_remove(s, i, round, lag);
        evict_until_fits_makes_room(s.remove(i), n, quota, round, lag);
    }
}

/// Making room deletes no batch whose expiration lies less than the lag
/// behind the committed round: only batches on disk that are due for
/// collection are evicted. Among them the nearest expiration goes first: one
/// that stays does not expire before one that was evicted.
pub proof fn eviction_takes_only_what_is_due(
    s: Seq<EntryView>,
    n: nat,
    quota: nat,
    round: Round,
    lag: Round,
)
    ensures
        forall|g: EntryView| #[trigger]
            s.contains(g) && !evict_until_fits(s, n, quota, round, lag).contains(g) ==> on_disk(g)
                && expired(g, round, lag),
        forall|e: EntryView, g: EntryView|
            #[trigger] s.contains(g) && !evict_until_fits(s, n, quota, round, lag).contains(g)
                && candidate(e, Budget::Disk(round, lag)) && #[trigger] evict_until_fits(
                s,
                n,
                quota,
                round,
                lag,
            ).contains(e) ==> !e.expiration.spec_lt(g.expiration),
    decreases s.len(),
{
    let budget = Budget::Disk(round, lag);
    nearest_is_least(s, s.len() as int, budget);
    let i = nearest(s, budget);
    if disk_bytes(s) + n <= quota || i < 0 {
    } else {
        let t = s.remove(i);
        let r = evict_until_fits(s, n, quota, round, lag);
        eviction_takes_only_what_is_due(t, n, quota, round, lag);
        assert(r == evict_until_fits(t, n, quota, round, lag));
        assert forall|g: EntryView| #[trigger] s.contains(g) && !r.contains(g) implies on_disk(g)
            && expired(g, round, lag) by {
            if !t.contains(g) {
                let k = choose|k: int| 0 <= k < s.len() && s[k] == g;
                if k != i {
                    let k2 = if k < i { k } else { k - 1 };
                    assert(t[k2] == g);
                    assert(t.contains(g));
                }
                assert(g == s[i]);
            }
        }
        assert forall|e: EntryView, g: EntryView|
            #[trigger] s.contains(g) && !r.contains(g) && candidate(e, budget)
                && #[trigger] r.contains(e) implies !e.expiration.spec_lt(g.expiration) by {
            if t.contains(g) {
                assert(evict_until_fits(t, n, quota, round, lag).contains(e));
                assert(!evict_until_fits(t, n, quota, round, lag).contains(g));
            } else {
                let k = choose|k: int| 0 <= k < s.len() && s[k] == g;
                if k != i {
                    let k2 = if k < i { k } else { k - 1 };
                    assert(t[k2] == g);
                    assert(t.contains(g));
                }
                assert(g == s[i]);
                evict_until_fits_contained(t, n, quota, round, lag, e);
                let ke = choose|k: int| 0 <= k < t.len() && t[k] == e;
                let ke2 = if ke < i { ke } else { ke + 1 };
                assert(s[ke2] == e);
                assert(candidate(s[ke2], budget));
            }
        }
    }
}

/// What stays after room was made was there before.
pub proof fn evict_until_fits_contained(
    s: Seq<EntryView>,
    n: nat,
    quota: nat,
    round: Round,
    lag: Round,
    e: EntryView,
)
    requires
        evict_until_fits(s, n, quota, round, lag).contains(e),
    ensures
        s.contains(e),
    decreases s.len(),
{
    let i = nearest(s, Budget::Disk(round, lag));
    if disk_bytes(s) + n <= quota || i < 0 || i >= s.len() {
    } else {
        let t = s.remove(i);
        evict_until_fits_contained(t, n, quota, round, lag, e);
        let k = choose|k: int| 0 <= k < t.len() && t[k] == e;
        if k < i {
            assert(s[k] == e);
        } else {
            assert(s[k + 1] == e);
        }
    }
}

/// The index.
pub struct BatchIndex {
    entries: Vec<IndexEntry>,
    memory_quota: usize,
    db_quota: usize,
    memory_used: usize,
    db_used: usize,
}

impl View for BatchIndex {
    type V = Seq<EntryView>;

    closed spec fn view(&self) -> Seq<EntryView> {
        entry_views(self.entries@)
    }
}

impl BatchIndex {
    pub closed spec fn spec_memory_quota(&self) -> nat {
        self.memory_quota as nat
    }

    pub closed spec fn spec_db_quota(&self) -> nat {
        self.db_quota as nat
    }

    /// The representation invariant: no digest occurs twice, and the bytes
    /// on disk and in memory are accounted for and within their quotas.
    pub closed spec fn wf(&self) -> bool {
        &&& distinct_digests(self@)
        &&& self.db_used == disk_bytes(self@)
        &&& self.memory_used == cached_bytes(self@)
        &&& self.db_used <= self.db_quota
        &&& self.memory_used <= self.memory_quota
    }

    /// What stays fixed over the life of an index.
    pub open spec fn same_quotas(&self, other: &BatchIndex) -> bool {
        &&& self.spec_memory_quota() == other.spec_memory_quota()
        &&& self.spec_db_quota() == other.spec_db_quota()
    }

    /// The bytes on disk never exceed the disk quota, and the bytes cached in
    /// memory never exceed the memory quota.
    pub proof fn lemma_within_quotas(&self)
        requires
            self.wf(),
        ensures
            disk_bytes(self@) <= self.spec_db_quota(),
            cached_bytes(self@) <= self.spec_memory_quota(),
            distinct_digests(self@),
    {
    }

    /// An empty index with the given budgets.
    pub fn new(memory_quota: usize, db_quota: usize) -> (x: BatchIndex)
        ensures
            x.wf(),
            x@ == Seq::<EntryView>::empty(),
            x.spec_memory_quota() == memory_quota,
            x.spec_db_quota() == db_quota,
    {
        let x = BatchIndex {
            entries: Vec::new(),
            memory_quota,
            db_quota,
            memory_used: 0,
            db_used: 0,
        };
        assert(x@ =~= Seq::<EntryView>::empty());
        x
    }

    /// The disk quota.
    pub fn db_quota_limit(&self) -> (n: usize)
        ensures
            n == self.spec_db_quota(),
    {
        self.db_quota
    }

    /// The memory quota.
    pub fn memory_quota_limit(&self) -> (n: usize)
        ensures
            n == self.spec_memory_quota(),
    {
        self.memory_quota
    }

    /// Number of entries.
    pub fn len(&self) -> (n: usize)
        ensures
            n == self@.len(),
    {
        self.entries.len()
    }

    /// Bytes on disk.
    pub fn db_used(&self) -> (n: usize)
        requires
            self.wf(),
        ensures
            n == disk_bytes(self@),
    {
        self.db_used
    }

    /// Bytes cached in memory.
    pub fn memory_used(&self) -> (n: usize)
        requires
            self.wf(),
        ensures
            n == cached_bytes(self@),
    {
        self.memory_used
    }

    /// The position of the entry for `d`, if the index knows it.
    pub fn find(&self, d: &HashValue) -> (r: Option<usize>)
        ensures
            r is Some == knows(self@, d@),
            r matches Some(i) ==> i < self@.len() && self@[i as int].digest == d@,
    {
        let mut i: usize = 0;
        while i < self.entries.len()
            invariant
                i <= self.entries@.len(),
                forall|j: int| 0 <= j < i ==> (#[trigger] self@[j]).digest != d@,
            decreases self.entries@.len() - i,
        {
            if self.entries[i].digest.same(d) {
                assert(self@[i as int].digest == d@);
                return Some(i);
            }
            i += 1;
        }
        None
    }

    /// The entry at position `i`.
    pub fn entry(&self, i: usize) -> (e: &IndexEntry)
        requires
            i < self@.len(),
        ensures
            e@ == self@[i as int],
    {
        &self.entries[i]
    }

    /// The entry for `d`, if the index knows it.
    pub fn get(&self, d: &HashValue) -> (r: Option<&IndexEntry>)
        ensures
            r is Some == knows(self@, d@),
            r matches Some(e) ==> e@.digest == d@ && self@.contains(e@),
    {
        match self.find(d) {
            Some(i) => {
                assert(self@[i as int] == self.entries@[i as int]@);
                Some(&self.entries[i])
            },
            None => None,
        }
    }
}

/// The entry once its body is dropped from memory.
pub open spec fn demoted(e: EntryView) -> EntryView {
    EntryView { location: Location::Persisted, payload: Seq::empty(), ..e }
}

/// Number of entries that are cached in memory.
pub open spec fn cached_count(s: Seq<EntryView>) -> nat
    decreases s.len(),
{
    if s.len() == 0 {
        0
    } else {
        cached_count(s.drop_last()) + (if s.last().location == Location::Local {
            1nat
        } else {
            0nat
        })
    }
}

/// Dropping a cached body leaves one entry less in memory.
pub proof fn cached_count_demote(s: Seq<EntryView>, i: int)
    requires
        0 <= i < s.len(),
        s[i].location == Location::Local,
    ensures
        cached_count(s.update(i, demoted(s[i]))) + 1 == cached_count(s),
    decreases s.len(),
{
    let t = s.update(i, demoted(s[i]));
    if i == s.len() - 1 {
        assert(t.drop_last() =~= s.drop_last());
    } else {
        cached_count_demote(s.drop_last(), i);
        assert(t.drop_last() =~= s.drop_last().update(i, demoted(s[i])));
        assert(t.last() == s.last());
    }
}

/// Where nothing is cached, no byte is in memory.
pub proof fn nothing_cached(s: Seq<EntryView>)
    requires
        forall|j: int| 0 <= j < s.len() ==> (#[trigger] s[j]).location != Location::Local,
    ensures
        cached_bytes(s) == 0,
    decreases s.len(),
{
    if s.len() > 0 {
        assert(s[s.len() - 1].location != Location::Local);
        assert forall|j: int| 0 <= j < s.drop_last().len() implies (#[trigger] s.drop_last()[j]).location
            != Location::Local by {
            assert(s.drop_last()[j] == s[j]);
        }
        nothing_cached(s.drop_last());
    }
}

/// The index after room was made in memory for `n` more bytes: as long as
/// the bytes do not fit, the cached body that expires first is dropped from
/// memory. Its batch stays on disk.
pub open spec fn uncache_until_fits(s: Seq<EntryView>, n: nat, quota: nat) -> Seq<EntryView>
    decreases cached_count(s),
{
    let i = nearest(s, Budget::Memory);
    if cached_bytes(s) + n <= quota || i < 0 || i >= s.len() || s[i].location
        != Location::Local {
        s
    } else {
        proof {
            cached_count_demote(s, i);
        }
        uncache_until_fits(s.update(i, demoted(s[i])), n, quota)
    }
}

/// The index with room in memory for a batch of `n` bytes that is to be
/// cached: room is made only for a batch that is to be cached and fits the
/// quota by itself.
pub open spec fn with_room_in_memory(
    s: Seq<EntryView>,
    cache: bool,
    n: nat,
    quota: nat,
) -> Seq<EntryView> {
    if cache && n <= quota {
        uncache_until_fits(s, n, quota)
    } else {
        s
    }
}

/// Making room in memory succeeds for whatever fits the quota by itself:
/// afterwards the bytes in memory and the `n` new ones are within the quota.
/// Every entry stays in its place, unchanged or without its cached body, and
/// the bytes on disk stay what they were.
pub proof fn uncache_until_fits_makes_room(s: Seq<EntryView>, n: nat, quota: nat)
    requires
        n <= quota,
    ensures
        cached_bytes(uncache_until_fits(s, n, quota)) + n <= quota,
        disk_bytes(uncache_until_fits(s, n, quota)) == disk_bytes(s),
        uncache_until_fits(s, n, quota).len() == s.len(),
        forall|k: int|
            0 <= k < s.len() ==> #[trigger] uncache_until_fits(s, n, quota)[k] == s[k] || (
            s[k].location == Location::Local && uncache_until_fits(s, n, quota)[k] == demoted(
                s[k],
            )),
    decreases cached_count(s),
{
    nearest_is_least(s, s.len() as int, Budget::Memory);
    let i = nearest(s, Budget::Memory);
    if cached_bytes(s) + n <= quota {
    } else if i < 0 {
        nothing_cached(s);
    } else {
        let t = s.update(i, demoted(s[i]));
        cached_count_demote(s, i);
        bytes_update(s, i, demoted(s[i]));
        uncache_until_fits_makes_room(t, n, quota);
        let r = uncache_until_fits(s, n, quota);
        assert(r == uncache_until_fits(t, n, quota));
        assert forall|k: int| 0 <= k < s.len() implies #[trigger] r[k] == s[k] || (s[k].location
            == Location::Local && r[k] == demoted(s[k])) by {
            if k == i {
                assert(t[k] == demoted(s[k]));
                assert(demoted(demoted(s[k])) == demoted(s[k]));
            } else {
                assert(t[k] == s[k]);
            }
        }
    }
}

/// Nearest expiration first, in memory too: a body that stays cached after
/// room was made does not expire before one that was dropped.
pub proof fn uncaching_takes_nearest_first(s: Seq<EntryView>, n: nat, quota: nat)
    ensures
        forall|a: int, b: int|
            #![trigger uncache_until_fits(s, n, quota)[a], uncache_until_fits(s, n, quota)[b]]
            0 <= a < s.len() && 0 <= b < s.len() && uncache_until_fits(s, n, quota)[a].location
                == Location::Local && s[b].location == Location::Local && uncache_until_fits(
                s,
                n,
                quota,
            )[b].location != Location::Local ==> !s[a].expiration.spec_lt(s[b].expiration),
        uncache_until_fits(s, n, quota).len() == s.len(),
        forall|k: int|
            0 <= k < s.len() ==> #[trigger] uncache_until_fits(s, n, quota)[k] == s[k] || (
            s[k].location == Location::Local && uncache_until_fits(s, n, quota)[k] == demoted(
                s[k],
            )),
    decreases cached_count(s),
{
    nearest_is_least(s, s.len() as int, Budget::Memory);
    let i = nearest(s, Budget::Memory);
    let r = uncache_until_fits(s, n, quota);
    if cached_bytes(s) + n <= quota || i < 0 {
    } else {
        let t = s.update(i, demoted(s[i]));
        cached_count_demote(s, i);
        uncaching_takes_nearest_first(t, n, quota);
        assert(r == uncache_until_fits(t, n, quota));
        assert forall|k: int| 0 <= k < s.len() implies #[trigger] r[k] == s[k] || (s[k].location
            == Location::Local && r[k] == demoted(s[k])) by {
            if k == i {
                assert(t[k] == demoted(s[k]));
                assert(demoted(demoted(s[k])) == demoted(s[k]));
            } else {
                assert(t[k] == s[k]);
            }
        }
        assert forall|a: int, b: int|
            #![trigger r[a], r[b]]
            0 <= a < s.len() && 0 <= b < s.len() && r[a].location == Location::Local
                && s[b].location == Location::Local && r[b].location
                != Location::Local implies !s[a].expiration.spec_lt(s[b].expiration) by {
            assert(r[a] == s[a] || r[a] == demoted(s[a]));
            assert(s[a].location == Location::Local);
            assert(a != i) by {
                assert(t[i] == demoted(s[i]));
                assert(r[i] == t[i] || r[i] == demoted(t[i]));
            }
            assert(t[a] == s[a]);
            if b == i {
            } else {
                assert(t[b] == s[b]);
                assert(uncache_until_fits(t, n, quota)[a].location == Location::Local);
            }
        }
    }
}

/// Whether the entry can make room in the budget.
pub fn is_candidate(e: &IndexEntry, budget: Budget) -> (r: bool)
    ensures
        r == candidate(e@, budget),
{
    match budget {
        Budget::Memory => match e.location {
            Location::Local => true,
            _ => false,
        },
        Budget::Disk(round, lag) => {
            let held = match e.location {
                Location::Remote => false,
                _ => true,
            };
            let due = match e.expiration.round.checked_add(lag) {
                Some(limit) => limit <= round,
                None => false,
            };
            held && due
        },
    }
}

/// The first entries of an index take no more of the disk than all of
/// them.
pub proof fn disk_bytes_of_prefix(s: Seq<EntryView>, i: int)
    requires
        0 <= i <= s.len(),
    ensures
        disk_bytes(s.subrange(0, i)) <= disk_bytes(s),
    decreases s.len(),
{
    if i == s.len() {
        assert(s.subrange(0, i) =~= s);
    } else {
        assert(s.subrange(0, i) =~= s.drop_last().subrange(0, i));
        disk_bytes_of_prefix(s.drop_last(), i);
    }
}

/// The digests of a vector, each as a sequence of bytes.
pub open spec fn hash_views(digests: Seq<HashValue>) -> Seq<Seq<u8>> {
    digests.map_values(|d: HashValue| d@)
}

/// Removing an entry keeps the digests distinct.
pub proof fn distinct_remove(s: Seq<EntryView>, i: int)
    requires
        distinct_digests(s),
        0 <= i < s.len(),
    ensures
        distinct_digests(s.remove(i)),
        forall|d: Seq<u8>| knows(s.remove(i), d) == (knows(s, d) && d != s[i].digest),
{
    let t = s.remove(i);
    assert forall|a: int, b: int| 0 <= a < b < t.len() implies t[a].digest != t[b].digest by {
        let a2 = if a < i { a } else { a + 1 };
        let b2 = if b < i { b } else { b + 1 };
        assert(t[a] == s[a2] && t[b] == s[b2]);
    }
    assert forall|d: Seq<u8>| knows(t, d) == (knows(s, d) && d != s[i].digest) by {
        if knows(t, d) {
            let k = choose|k: int| 0 <= k < t.len() && (#[trigger] t[k]).digest == d;
            let k2 = if k < i { k } else { k + 1 };
            assert(s[k2].digest == d);
        }
        if knows(s, d) && d != s[i].digest {
            let k = choose|k: int| 0 <= k < s.len() && (#[trigger] s[k]).digest == d;
            let k2 = if k < i { k } else { k - 1 };
            assert(t[k2].digest == d);
        }
    }
}

impl BatchIndex {
    /// The position of the entry that expires first among those that can
    /// make room in the budget; of several that expire together, the first.
    pub fn nearest_index(&self, budget: Budget) -> (r: Option<usize>)
        ensures
            match r {
                Some(i) => i == nearest(self@, budget) && i < self@.len(),
                None => nearest(self@, budget) < 0,
            },
    {
        let mut best: Option<usize> = None;
        let mut c: usize = 0;
        while c < self.entries.len()
            invariant
                c <= self.entries@.len(),
                match best {
                    Some(i) => i == nearest_upto(self@, c as int, budget) && i < c,
                    None => nearest_upto(self@, c as int, budget) < 0,
                },
            decreases self.entries@.len() - c,
        {
            let e = &self.entries[c];
            assert(e@ == self@[c as int]);
            if is_candidate(e, budget) {
                match best {
                    Some(i) => {
                        assert(self.entries@[i as int]@ == self@[i as int]);
                        if e.expiration.is_before(&self.entries[i].expiration) {
                            best = Some(c);
                        }
                    },
                    None => {
                        best = Some(c);
                    },
                }
            }
            c += 1;
        }
        best
    }

    /// Bytes on disk of batches that are due for collection once consensus
    /// has committed `round`.
    pub fn reclaimable_bytes(&self, round: Round, lag: Round) -> (n: usize)
        requires
            self.wf(),
        ensures
            n == reclaimable(self@, round, lag),
            n <= disk_bytes(self@),
    {
        let mut total: usize = 0;
        let mut i: usize = 0;
        assert(self@.subrange(0, 0) =~= Seq::<EntryView>::empty());
        while i < self.entries.len()
            invariant
                self.wf(),
                i <= self.entries@.len(),
                total == reclaimable(self@.subrange(0, i as int), round, lag),
            decreases self.entries@.len() - i,
        {
            let ghost next = self@.subrange(0, i + 1 as int);
            proof {
                assert(next.drop_last() =~= self@.subrange(0, i as int));
                assert(next.last() == self@[i as int]);
                reclaimable_is_on_disk(next, round, lag);
                disk_bytes_of_prefix(self@, i + 1 as int);
            }
            let e = &self.entries[i];
            assert(e@ == self@[i as int]);
            if is_candidate(e, Budget::Disk(round, lag)) {
                total = total + e.num_bytes;
            }
            i += 1;
        }
        proof {
            assert(self@.subrange(0, self@.len() as int) =~= self@);
            reclaimable_is_on_disk(self@, round, lag);
        }
        total
    }

    /// Whether room can be made on disk for `num_bytes` more once consensus
    /// has committed `round`.
    pub fn can_make_room(&self, num_bytes: usize, round: Round, lag: Round) -> (r: bool)
        requires
            self.wf(),
        ensures
            r == can_make_room(self@, num_bytes as nat, self.spec_db_quota(), round, lag),
    {
        let kept = self.db_used - self.reclaimable_bytes(round, lag);
        num_bytes <= self.db_quota && kept <= self.db_quota - num_bytes
    }

    /// Removes the entry at position `i`, and hands it back.
    pub fn take_at(&mut self, i: usize) -> (e: IndexEntry)
        requires
            old(self).wf(),
            i < old(self)@.len(),
        ensures
            final(self).wf(),
            final(self).same_quotas(old(self)),
            final(self)@ == old(self)@.remove(i as int),
            e@ == old(self)@[i as int],
    {
        let ghost before = self@;
        proof {
            bytes_remove(before, i as int);
            distinct_remove(before, i as int);
        }
        let e = self.entries.remove(i);
        assert(self@ =~= before.remove(i as int));
        assert(e@ == before[i as int]);
        match e.location {
            Location::Local => {
                self.db_used = self.db_used - e.num_bytes;
                self.memory_used = self.memory_used - e.num_bytes;
            },
            Location::Persisted => {
                self.db_used = self.db_used - e.num_bytes;
            },
            Location::Remote => {},
        }
        e
    }

    /// Makes room on disk for `num_bytes` more, once consensus has committed
    /// `round`: as long as they do not fit, the batch that expires first among
    /// those due for collection is evicted. Hands back the digests of the
    /// evicted batches, in the order of their eviction.
    pub fn make_room(&mut self, num_bytes: usize, round: Round, lag: Round) -> (evicted: Vec<
        HashValue,
    >)
        requires
            old(self).wf(),
        ensures
            final(self).wf(),
            final(self).same_quotas(old(self)),
            final(self)@ == evict_until_fits(
                old(self)@,
                num_bytes as nat,
                old(self).spec_db_quota(),
                round,
                lag,
            ),
            hash_views(evicted@) == evicted_by(
                old(self)@,
                num_bytes as nat,
                old(self).spec_db_quota(),
                round,
                lag,
            ),
            can_make_room(old(self)@, num_bytes as nat, old(self).spec_db_quota(), round, lag)
                ==> disk_bytes(final(self)@) + num_bytes <= old(self).spec_db_quota(),
    {
        let ghost n = num_bytes as nat;
        let ghost quota = self.spec_db_quota();
        let ghost start = self@;
        let mut evicted: Vec<HashValue> = Vec::new();
        assert(hash_views(evicted@) =~= Seq::<Seq<u8>>::empty());
        proof {
            if can_make_room(start, n, quota, round, lag) {
                evict_until_fits_makes_room(start, n, quota, round, lag);
            }
        }
        loop
            invariant
                self.wf(),
                self.same_quotas(old(self)),
                quota == self.spec_db_quota(),
                n == num_bytes,
                evict_until_fits(self@, n, quota, round, lag) == evict_until_fits(
                    start,
                    n,
                    quota,
                    round,
                    lag,
                ),
                hash_views(evicted@) + evicted_by(self@, n, quota, round, lag) == evicted_by(
                    start,
                    n,
                    quota,
                    round,
                    lag,
                ),
            ensures
                self@ == evict_until_fits(start, n, quota, round, lag),
                hash_views(evicted@) == evicted_by(start, n, quota, round, lag),
            decreases self@.len(),
        {
            let fits = num_bytes <= self.db_quota && self.db_used <= self.db_quota - num_bytes;
            if fits {
                assert(hash_views(evicted@) + Seq::<Seq<u8>>::empty() =~= hash_views(evicted@));
                break ;
            }
            match self.nearest_index(Budget::Disk(round, lag)) {
                None => {
                    assert(hash_views(evicted@) + Seq::<Seq<u8>>::empty() =~= hash_views(
                        evicted@,
                    ));
                    break ;
                },
                Some(i) => {
                    let ghost before = self@;
                    let ghost done = hash_views(evicted@);
                    let e = self.take_at(i);
                    evicted.push(e.digest);
                    proof {
                        assert(hash_views(evicted@) =~= done.push(before[i as int].digest));
                        assert(done.push(before[i as int].digest) + evicted_by(
                            self@,
                            n,
                            quota,
                            round,
                            lag,
                        ) =~= done + (seq![before[i as int].digest] + evicted_by(
                            self@,
                            n,
                            quota,
                            round,
                            lag,
                        )));
                    }
                },
            }
        }
        evicted
    }
}

/// The entries that are collected at the commit of `round`, in their
/// order.
pub open spec fn collected(s: Seq<EntryView>, round: Round, lag: Round) -> Seq<EntryView>
    decreases s.len(),
{
    if s.len() == 0 {
        Seq::empty()
    } else if expired(s.last(), round, lag) {
        collected(s.drop_last(), round, lag).push(s.last())
    } else {
        collected(s.drop_last(), round, lag)
    }
}

/// The collection at the commit of `round` deletes no batch whose expiration
/// lies less than `lag` rounds behind: what survives is exactly what is not
/// due, and what is collected is exactly what is due.
pub proof fn collection_respects_lag(s: Seq<EntryView>, round: Round, lag: Round)
    ensures
        forall|e: EntryView| #[trigger]
            surviving(s, round, lag).contains(e) <==> s.contains(e) && !expired(e, round, lag),
        forall|e: EntryView| #[trigger]
            collected(s, round, lag).contains(e) <==> s.contains(e) && expired(e, round, lag),
        surviving(s, round, lag).len() + collected(s, round, lag).len() == s.len(),
        distinct_digests(s) ==> distinct_digests(surviving(s, round, lag)),
        disk_bytes(surviving(s, round, lag)) <= disk_bytes(s),
        cached_bytes(surviving(s, round, lag)) <= cached_bytes(s),
    decreases s.len(),
{
    if s.len() > 0 {
        let init = s.drop_last();
        let last = s.last();
        collection_respects_lag(init, round, lag);
        let sv = surviving(s, round, lag);
        let cl = collected(s, round, lag);
        assert forall|e: EntryView| s.contains(e) <==> init.contains(e) || e == last by {
            if s.contains(e) {
                let k = choose|k: int| 0 <= k < s.len() && s[k] == e;
                if k < init.len() {
                    assert(init[k] == e);
                }
            }
            if init.contains(e) {
                let k = choose|k: int| 0 <= k < init.len() && init[k] == e;
                assert(s[k] == e);
            }
            if e == last {
                assert(s[s.len() - 1] == e);
            }
        }
        assert forall|e: EntryView| #[trigger]
            sv.contains(e) <==> s.contains(e) && !expired(e, round, lag) by {
            let p = surviving(init, round, lag);
            if !expired(last, round, lag) {
                if sv.contains(e) {
                    let k = choose|k: int| 0 <= k < sv.len() && sv[k] == e;
                    if k < p.len() {
                        assert(p[k] == e);
                    }
                }
                if p.contains(e) {
                    let k = choose|k: int| 0 <= k < p.len() && p[k] == e;
                    assert(sv[k] == e);
                }
                assert(sv[sv.len() - 1] == last);
            }
        }
        assert forall|e: EntryView| #[trigger]
            cl.contains(e) <==> s.contains(e) && expired(e, round, lag) by {
            let p = collected(init, round, lag);
            if expired(last, round, lag) {
                if cl.contains(e) {
                    let k = choose|k: int| 0 <= k < cl.len() && cl[k] == e;
                    if k < p.len() {
                        assert(p[k] == e);
                    }
                }
                if p.contains(e) {
                    let k = choose|k: int| 0 <= k < p.len() && p[k] == e;
                    assert(cl[k] == e);
                }
                assert(cl[cl.len() - 1] == last);
            }
        }
        if !expired(last, round, lag) {
            bytes_push(surviving(init, round, lag), last);
        }
        if distinct_digests(s) {
            assert(distinct_digests(init)) by {
                assert forall|a: int, b: int| 0 <= a < b < init.len() implies init[a].digest
                    != init[b].digest by {
                    assert(init[a] == s[a] && init[b] == s[b]);
                }
            }
            if !expired(last, round, lag) {
                let p = surviving(init, round, lag);
                assert forall|a: int, b: int| 0 <= a < b < sv.len() implies sv[a].digest
                    != sv[b].digest by {
                    if b == p.len() {
                        assert(p.contains(p[a]));
                        assert(init.contains(p[a]));
                        let k = choose|k: int| 0 <= k < init.len() && init[k] == p[a];
                        assert(s[k].digest != s[s.len() - 1].digest);
                    } else {
                        assert(p[a].digest != p[b].digest);
                    }
                }
            }
        }
    }
}

impl BatchIndex {
    /// Installs the batch as held by this node: on disk, and cached in
    /// memory as well if that is asked for and the batch fits the memory
    /// quota by itself. To cache it, the cached bodies that expire first are
    /// dropped from memory as far as needed. Says where the body is.
    pub fn install(
        &mut self,
        digest: HashValue,
        author: PeerId,
        batch_id: BatchId,
        expiration: LogicalTime,
        num_bytes: usize,
        payload: Data,
        cache: bool,
    ) -> (location: Location)
        requires
            old(self).wf(),
            !knows(old(self)@, digest@),
            disk_bytes(old(self)@) + num_bytes <= old(self).spec_db_quota(),
        ensures
            final(self).wf(),
            final(self).same_quotas(old(self)),
            location == (if cache && num_bytes <= old(self).spec_memory_quota() {
                Location::Local
            } else {
                Location::Persisted
            }),
            final(self)@ == with_room_in_memory(
                old(self)@,
                cache,
                num_bytes as nat,
                old(self).spec_memory_quota(),
            ).push(
                EntryView {
                    digest: digest@,
                    author: author@,
                    batch_id,
                    expiration,
                    num_bytes: num_bytes as nat,
                    location,
                    payload: if location == Location::Local {
                        payload.deep_view()
                    } else {
                        Seq::empty()
                    },
                    body: payload.deep_view(),
                },
            ),
    {
        let ghost first = self@;
        let ghost body = payload.deep_view();
        let cache = cache && num_bytes <= self.memory_quota;
        if cache {
            proof {
                uncache_until_fits_makes_room(
                    first,
                    num_bytes as nat,
                    self.spec_memory_quota(),
                );
            }
            self.make_room_in_memory(num_bytes);
        }
        let ghost before = self@;
        proof {
            assert(before.len() == first.len());
            assert forall|k: int| 0 <= k < before.len() implies (#[trigger] before[k]).digest
                == first[k].digest by {
                assert(before[k] == first[k] || before[k] == demoted(first[k]));
            }
            if knows(before, digest@) {
                let k = choose|k: int| 0 <= k < before.len() && (#[trigger] before[k]).digest
                    == digest@;
                assert(first[k].digest == digest@);
            }
        }
        let entry = if cache {
            IndexEntry {
                digest,
                author,
                batch_id,
                expiration,
                num_bytes,
                location: Location::Local,
                payload,
                body: Ghost(body),
            }
        } else {
            let empty: Data = Vec::new();
            assert(empty.deep_view() =~= Seq::<Seq<u8>>::empty());
            IndexEntry {
                digest,
                author,
                batch_id,
                expiration,
                num_bytes,
                location: Location::Persisted,
                payload: empty,
                body: Ghost(body),
            }
        };
        let location = entry.location;
        proof {
            bytes_push(before, entry@);
        }
        self.entries.push(entry);
        assert(self@ =~= before.push(entry@));
        self.db_used = self.db_used + num_bytes;
        if cache {
            self.memory_used = self.memory_used + num_bytes;
        }
        assert(distinct_digests(self@)) by {
            assert forall|a: int, b: int| 0 <= a < b < self@.len() implies self@[a].digest
                != self@[b].digest by {
                if b == before.len() {
                    assert(self@[a] == before[a]);
                } else {
                    assert(self@[a] == before[a] && self@[b] == before[b]);
                }
            }
        }
        location
    }

    /// Notes that the batch with this digest exists and that `author` holds
    /// it. An index that knows the digest already stays as it is. Says
    /// whether the entry was added.
    pub fn register_remote(&mut self, digest: HashValue, author: PeerId, expiration: LogicalTime) -> (added:
        bool)
        requires
            old(self).wf(),
        ensures
            final(self).wf(),
            final(self).same_quotas(old(self)),
            added == !knows(old(self)@, digest@),
            !added ==> final(self)@ == old(self)@,
            added ==> final(self)@ == old(self)@.push(
                EntryView {
                    digest: digest@,
                    author: author@,
                    batch_id: 0,
                    expiration,
                    num_bytes: 0,
                    location: Location::Remote,
                    payload: Seq::empty(),
                    body: Seq::empty(),
                },
            ),
    {
        if self.find(&digest).is_some() {
            return false;
        }
        let ghost before = self@;
        let empty: Data = Vec::new();
        assert(empty.deep_view() =~= Seq::<Seq<u8>>::empty());
        let entry = IndexEntry {
            digest,
            author,
            batch_id: 0,
            expiration,
            num_bytes: 0,
            location: Location::Remote,
            payload: empty,
            body: Ghost(Seq::empty()),
        };
        proof {
            bytes_push(before, entry@);
        }
        self.entries.push(entry);
        assert(self@ =~= before.push(entry@));
        assert(distinct_digests(self@)) by {
            assert forall|a: int, b: int| 0 <= a < b < self@.len() implies self@[a].digest
                != self@[b].digest by {
                if b == before.len() {
                    assert(self@[a] == before[a]);
                } else {
                    assert(self@[a] == before[a] && self@[b] == before[b]);
                }
            }
        }
        true
    }

    /// Gives the entry at position `i` a new expiration.
    pub fn refresh(&mut self, i: usize, expiration: LogicalTime)
        requires
            old(self).wf(),
            i < old(self)@.len(),
        ensures
            final(self).wf(),
            final(self).same_quotas(old(self)),
            final(self)@ == old(self)@.update(
                i as int,
                EntryView { expiration, ..old(self)@[i as int] },
            ),
    {
        let ghost before = self@;
        let mut e = self.entries.remove(i);
        assert(e@ == before[i as int]);
        e.expiration = expiration;
        proof {
            bytes_update(before, i as int, e@);
        }
        self.entries.insert(i, e);
        assert(self@ =~= before.update(i as int, e@));
        assert(distinct_digests(self@)) by {
            assert forall|a: int, b: int| 0 <= a < b < self@.len() implies self@[a].digest
                != self@[b].digest by {
                assert(self@[a].digest == before[a].digest);
                assert(self@[b].digest == before[b].digest);
            }
        }
    }

    /// Collects the entries that are due once consensus has committed
    /// `round`: those whose expiration lies `lag` rounds or more behind.
    /// Hands them back in their order; the others stay, in their order.
    pub fn collect(&mut self, round: Round, lag: Round) -> (gone: Vec<IndexEntry>)
        requires
            old(self).wf(),
        ensures
            final(self).wf(),
            final(self).same_quotas(old(self)),
            final(self)@ == surviving(old(self)@, round, lag),
            entry_views(gone@) == collected(old(self)@, round, lag),
    {
        let ghost start = self@;
        let mut gone: Vec<IndexEntry> = Vec::new();
        let mut i: usize = 0;
        let ghost mut k: int = 0;
        assert(entry_views(gone@) =~= Seq::<EntryView>::empty());
        assert(self@ =~= Seq::<EntryView>::empty() + start.subrange(0, start.len() as int));
        assert(start.subrange(0, 0) =~= Seq::<EntryView>::empty());
        while i < self.entries.len()
            invariant
                self.wf(),
                self.same_quotas(old(self)),
                0 <= k <= start.len(),
                i == surviving(start.subrange(0, k), round, lag).len(),
                self@ == surviving(start.subrange(0, k), round, lag) + start.subrange(
                    k,
                    start.len() as int,
                ),
                entry_views(gone@) == collected(start.subrange(0, k), round, lag),
            decreases start.len() - k,
        {
            let ghost kept = surviving(start.subrange(0, k), round, lag);
            let ghost rest = start.subrange(k, start.len() as int);
            let ghost taken = entry_views(gone@);
            assert(k < start.len());
            assert(self@[i as int] == rest[0]);
            assert(rest[0] == start[k]);
            assert(start.subrange(0, k + 1).drop_last() =~= start.subrange(0, k));
            assert(start.subrange(0, k + 1).last() == start[k]);
            let e = &self.entries[i];
            assert(e@ == self@[i as int]);
            let due = match e.expiration.round.checked_add(lag) {
                Some(limit) => limit <= round,
                None => false,
            };
            assert(due == expired(start[k], round, lag));
            if due {
                let e = self.take_at(i);
                gone.push(e);
                assert(entry_views(gone@) =~= taken.push(start[k]));
                assert(self@ =~= kept + start.subrange(k + 1, start.len() as int));
            } else {
                assert(self@ =~= kept.push(start[k]) + start.subrange(k + 1, start.len() as int));
                i += 1;
            }
            proof {
                k = k + 1;
            }
        }
        proof {
            assert(k == start.len()) by {
                if k < start.len() {
                    assert(self@.len() == i + (start.len() - k));
                }
            }
            assert(start.subrange(0, start.len() as int) =~= start);
            assert(self@ =~= surviving(start, round, lag));
        }
        gone
    }
}

impl BatchIndex {
    /// Makes room in memory for `num_bytes` more: as long as they do not fit,
    /// the cached body that expires first is dropped from memory. Its batch
    /// stays on disk.
    pub fn make_room_in_memory(&mut self, num_bytes: usize)
        requires
            old(self).wf(),
        ensures
            final(self).wf(),
            final(self).same_quotas(old(self)),
            final(self)@ == uncache_until_fits(
                old(self)@,
                num_bytes as nat,
                old(self).spec_memory_quota(),
            ),
            num_bytes <= old(self).spec_memory_quota() ==> cached_bytes(final(self)@) + num_bytes
                <= old(self).spec_memory_quota(),
    {
        let ghost n = num_bytes as nat;
        let ghost quota = self.spec_memory_quota();
        let ghost start = self@;
        proof {
            if n <= quota {
                uncache_until_fits_makes_room(start, n, quota);
            }
        }
        loop
            invariant
                self.wf(),
                self.same_quotas(old(self)),
                quota == self.spec_memory_quota(),
                n == num_bytes,
                uncache_until_fits(self@, n, quota) == uncache_until_fits(start, n, quota),
            ensures
                self@ == uncache_until_fits(start, n, quota),
            decreases cached_count(self@),
        {
            let fits = num_bytes <= self.memory_quota && self.memory_used <= self.memory_quota
                - num_bytes;
            if fits {
                break ;
            }
            let i = match self.nearest_index(Budget::Memory) {
                None => {
                    break ;
                },
                Some(i) => i,
            };
            let ghost before = self@;
            proof {
                nearest_is_least(before, before.len() as int, Budget::Memory);
                cached_count_demote(before, i as int);
                bytes_update(before, i as int, demoted(before[i as int]));
            }
            let mut e = self.entries.remove(i);
            assert(e@ == before[i as int]);
            e.location = Location::Persisted;
            e.payload = Vec::new();
            assert(e.payload.deep_view() =~= Seq::<Seq<u8>>::empty());
            assert(e@ == demoted(before[i as int]));
            self.memory_used = self.memory_used - e.num_bytes;
            self.entries.insert(i, e);
            assert(self@ =~= before.update(i as int, demoted(before[i as int])));
            assert(distinct_digests(self@)) by {
                assert forall|a: int, b: int| 0 <= a < b < self@.len() implies self@[a].digest
                    != self@[b].digest by {
                    assert(self@[a].digest == before[a].digest);
                    assert(self@[b].digest == before[b].digest);
                }
            }
        }
    }
}

} // verus!
