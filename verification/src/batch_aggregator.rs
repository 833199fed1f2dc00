//! Assembly of one batch at a time from its fragments.
//!
//! An aggregator accepts the fragments of a batch in order, `0, 1, 2, …`,
//! keeps the payload received so far, bounds its size, and on the last
//! fragment hands out the whole payload with its digest.

use crate::digest::{batch_digest, compute_digest, count_bytes, payload_len};
use crate::types::{concat, BatchId, Data, HashValue, PeerId};
use vstd::prelude::*;
use vstd::seq_lib::lemma_flatten_concat;

verus! {

/// What an aggregator does with a fragment that arrives out of order.
#[derive(Clone, Copy, Debug, PartialEq, Eq, Structural)]
pub enum AggregationMode {
    /// The fragments come from this node's own producer: a fragment out of
    /// order is a programming error, and callers must not submit one.
    AssertWrongOrder,
    /// The fragments come from a peer: a fragment out of order is dropped
    /// and the batch in flight is abandoned.
    IgnoreWrongOrder,
}

/// The abstract state of an aggregator.
pub ghost struct AggregatorState {
    /// Whether a batch is in flight.
    pub open: bool,
    /// The batch in flight; meaningful only while `open`.
    pub batch_id: BatchId,
    /// How many fragments of the batch in flight were accepted.
    pub count: nat,
    /// The payload accepted so far, blob by blob.
    pub payload: Seq<Seq<u8>>,
}

impl AggregatorState {
    /// The state in which no batch is in flight.
    pub open spec fn idle() -> AggregatorState {
        AggregatorState { open: false, batch_id: 0, count: 0, payload: Seq::empty() }
    }

    /// The fragment is the next one of the batch in flight.
    pub open spec fn continues(self, batch_id: BatchId, fragment_id: nat) -> bool {
        self.open && batch_id == self.batch_id && fragment_id == self.count
    }

    /// The fragment opens a batch while none is in flight.
    pub open spec fn starts(self, fragment_id: nat) -> bool {
        !self.open && fragment_id == 0
    }

    /// The fragment arrives in order.
    pub open spec fn in_order(self, batch_id: BatchId, fragment_id: nat) -> bool {
        self.continues(batch_id, fragment_id) || self.starts(fragment_id)
    }

    /// The payload of the batch once `more` is added to it.
    pub open spec fn extended(self, more: Seq<Seq<u8>>) -> Seq<Seq<u8>> {
        self.payload + more
    }

    /// The fragment arrives in order and the batch stays within `max` bytes.
    pub open spec fn admits(
        self,
        batch_id: BatchId,
        fragment_id: nat,
        more: Seq<Seq<u8>>,
        max: nat,
    ) -> bool {
        self.in_order(batch_id, fragment_id) && payload_len(self.extended(more)) <= max
    }

    /// The state after a fragment that does not end the batch.
    pub open spec fn after_append(
        self,
        batch_id: BatchId,
        fragment_id: nat,
        more: Seq<Seq<u8>>,
        max: nat,
    ) -> AggregatorState {
        if self.admits(batch_id, fragment_id, more, max) {
            AggregatorState {
                open: true,
                batch_id,
                count: fragment_id + 1,
                payload: self.extended(more),
            }
        } else {
            AggregatorState::idle()
        }
    }

    /// Well-formedness: an idle aggregator holds nothing.
    pub open spec fn wf(self) -> bool {
        !self.open ==> self.count == 0 && self.payload =~= Seq::empty()
    }
}

/// A batch as it leaves the aggregator.
pub struct AssembledBatch {
    pub num_bytes: usize,
    pub payload: Data,
    pub digest: HashValue,
}

/// Assembles the batches of one author, one at a time.
pub struct BatchAggregator {
    author: PeerId,
    epoch: u64,
    max_batch_size: usize,
    mode: AggregationMode,
    open: bool,
    batch_id: BatchId,
    last_fragment_id: usize,
    payload: Data,
    num_bytes: usize,
}

/// The blobs of two payloads laid one after the other are the blobs of the
/// first followed by the blobs of the second, and the lengths add up.
pub proof fn payload_len_additive(a: Seq<Seq<u8>>, b: Seq<Seq<u8>>)
    ensures
        concat(a + b) == concat(a) + concat(b),
        payload_len(a + b) == payload_len(a) + payload_len(b),
{
    lemma_flatten_concat(a, b);
}

impl BatchAggregator {
    /// The abstract state.
    pub closed spec fn state(&self) -> AggregatorState {
        AggregatorState {
            open: self.open,
            batch_id: self.batch_id,
            count: if self.open {
                (self.last_fragment_id + 1) as nat
            } else {
                0
            },
            payload: self.payload.deep_view(),
        }
    }

    pub closed spec fn spec_author(&self) -> PeerId {
        self.author
    }

    pub closed spec fn spec_epoch(&self) -> u64 {
        self.epoch
    }

    pub closed spec fn spec_max_batch_size(&self) -> usize {
        self.max_batch_size
    }

    pub closed spec fn spec_mode(&self) -> AggregationMode {
        self.mode
    }

    /// The representation invariant.
    pub closed spec fn wf(&self) -> bool {
        &&& self.state().wf()
        &&& self.num_bytes == payload_len(self.payload.deep_view())
        &&& self.num_bytes <= self.max_batch_size
    }

    /// What stays fixed over the life of an aggregator.
    pub open spec fn same_setup(&self, other: &BatchAggregator) -> bool {
        &&& self.spec_author() == other.spec_author()
        &&& self.spec_epoch() == other.spec_epoch()
        &&& self.spec_max_batch_size() == other.spec_max_batch_size()
        &&& self.spec_mode() == other.spec_mode()
    }

    /// An idle aggregator for the batches of `author` in `epoch`.
    pub fn new(author: PeerId, epoch: u64, max_batch_size: usize, mode: AggregationMode) -> (a:
        BatchAggregator)
        ensures
            a.wf(),
            a.state() == AggregatorState::idle(),
            a.spec_author() == author,
            a.spec_epoch() == epoch,
            a.spec_max_batch_size() == max_batch_size,
            a.spec_mode() == mode,
    {
        let a = BatchAggregator {
            author,
            epoch,
            max_batch_size,
            mode,
            open: false,
            batch_id: 0,
            last_fragment_id: 0,
            payload: Vec::new(),
            num_bytes: 0,
        };
        assert(a.payload.deep_view() =~= Seq::<Seq<u8>>::empty());
        assert(concat(Seq::<Seq<u8>>::empty()) =~= Seq::<u8>::empty());
        a
    }

    /// Whether the fragment `(batch_id, fragment_id)` would arrive in order.
    pub fn in_order(&self, batch_id: BatchId, fragment_id: usize) -> (r: bool)
        ensures
            r == self.state().in_order(batch_id, fragment_id as nat),
    {
        if self.open {
            batch_id == self.batch_id && fragment_id > 0 && fragment_id - 1
                == self.last_fragment_id
        } else {
            fragment_id == 0
        }
    }

    /// Drops the batch in flight, if any.
    fn reset(&mut self)
        ensures
            final(self).wf(),
            final(self).state() == AggregatorState::idle(),
            final(self).same_setup(old(self)),
    {
        self.open = false;
        self.batch_id = 0;
        self.last_fragment_id = 0;
        self.payload = Vec::new();
        self.num_bytes = 0;
        assert(self.payload.deep_view() =~= Seq::<Seq<u8>>::empty());
        assert(concat(Seq::<Seq<u8>>::empty()) =~= Seq::<u8>::empty());
    }

    /// Takes the fragment in if it arrives in order and fits; says whether it
    /// did. On `false` the batch in flight is dropped.
    fn take(&mut self, batch_id: BatchId, fragment_id: usize, transactions: Data) -> (accepted:
        bool)
        requires
            old(self).wf(),
        ensures
            final(self).wf(),
            final(self).same_setup(old(self)),
            accepted == old(self).state().admits(
                batch_id,
                fragment_id as nat,
                transactions.deep_view(),
                old(self).spec_max_batch_size() as nat,
            ),
            final(self).state() == old(self).state().after_append(
                batch_id,
                fragment_id as nat,
                transactions.deep_view(),
                old(self).spec_max_batch_size() as nat,
            ),
    {
        let ghost more = transactions.deep_view();
        let ghost before = self.payload.deep_view();
        proof {
            payload_len_additive(before, more);
        }
        if !self.in_order(batch_id, fragment_id) {
            self.reset();
            return false;
        }
        let added = count_bytes(&transactions);
        let total = match added {
            Some(n) => self.num_bytes.checked_add(n),
            None => None,
        };
        let fits = match total {
            Some(t) => t <= self.max_batch_size,
            None => false,
        };
        if !fits {
            self.reset();
            return false;
        }
        let mut transactions = transactions;
        self.payload.append(&mut transactions);
        assert(self.payload.deep_view() =~= before + more);
        self.num_bytes = total.unwrap();
        self.open = true;
        self.batch_id = batch_id;
        self.last_fragment_id = fragment_id;
        true
    }

    /// Adds a fragment that does not end its batch.
    ///
    /// The fragment is accepted if and only if it arrives in order and the
    /// batch stays within the size bound. A fragment that is not accepted
    /// ends the batch in flight: the aggregator is idle afterwards.
    pub fn append_transactions(
        &mut self,
        batch_id: BatchId,
        fragment_id: usize,
        transactions: Data,
    ) -> (accepted: bool)
        requires
            old(self).wf(),
            old(self).spec_mode() == AggregationMode::AssertWrongOrder ==> old(self).state().in_order(batch_id, fragment_id as nat),
        ensures
            final(self).wf(),
            final(self).same_setup(old(self)),
            accepted == old(self).state().admits(
                batch_id,
                fragment_id as nat,
                transactions.deep_view(),
                old(self).spec_max_batch_size() as nat,
            ),
            final(self).state() == old(self).state().after_append(
                batch_id,
                fragment_id as nat,
                transactions.deep_view(),
                old(self).spec_max_batch_size() as nat,
            ),
    {
        self.take(batch_id, fragment_id, transactions)
    }

    /// Adds the last fragment of a batch and hands the batch out.
    ///
    /// The batch is returned if and only if the fragment arrives in order and
    /// the batch stays within the size bound. Either way the aggregator is
    /// idle afterwards.
    pub fn end_batch(&mut self, batch_id: BatchId, fragment_id: usize, transactions: Data) -> (out:
        Option<AssembledBatch>)
        requires
            old(self).wf(),
            old(self).spec_mode() == AggregationMode::AssertWrongOrder ==> old(self).state().in_order(batch_id, fragment_id as nat),
        ensures
            final(self).wf(),
            final(self).same_setup(old(self)),
            final(self).state() == AggregatorState::idle(),
            out is Some == old(self).state().admits(
                batch_id,
                fragment_id as nat,
                transactions.deep_view(),
                old(self).spec_max_batch_size() as nat,
            ),
            out matches Some(b) ==> {
                &&& b.payload.deep_view() == old(self).state().extended(transactions.deep_view())
                &&& b.num_bytes == payload_len(b.payload.deep_view())
                &&& b.num_bytes <= old(self).spec_max_batch_size()
                &&& b.digest@ == batch_digest(
                    old(self).spec_author()@,
                    old(self).spec_epoch(),
                    batch_id,
                    b.payload.deep_view(),
                )
            },
    {
        if !self.take(batch_id, fragment_id, transactions) {
            return None;
        }
        let mut payload: Data = Vec::new();
        std::mem::swap(&mut payload, &mut self.payload);
        let num_bytes = self.num_bytes;
        let digest = compute_digest(&self.author, self.epoch, batch_id, &payload);
        self.reset();
        Some(AssembledBatch { num_bytes, payload, digest })
    }
}

/// One fragment as it is handed to an aggregator.
pub ghost struct Step {
    pub batch_id: BatchId,
    pub fragment_id: nat,
    pub payload: Seq<Seq<u8>>,
}

/// The state of an aggregator that started idle and was handed `steps` in
/// turn, none of them ending a batch.
pub open spec fn run(steps: Seq<Step>, max: nat) -> AggregatorState
    decreases steps.len(),
{
    if steps.len() == 0 {
        AggregatorState::idle()
    } else {
        let last = steps.last();
        run(steps.drop_last(), max).after_append(
            last.batch_id,
            last.fragment_id,
            last.payload,
            max,
        )
    }
}

/// Every one of `steps` was accepted when it was handed in.
pub open spec fn all_accepted(steps: Seq<Step>, max: nat) -> bool
    decreases steps.len(),
{
    steps.len() == 0 || {
        let last = steps.last();
        &&& all_accepted(steps.drop_last(), max)
        &&& run(steps.drop_last(), max).admits(
            last.batch_id,
            last.fragment_id,
            last.payload,
            max,
        )
    }
}

/// The payloads of `steps`, one after the other.
pub open spec fn all_payloads(steps: Seq<Step>) -> Seq<Seq<u8>>
    decreases steps.len(),
{
    if steps.len() == 0 {
        Seq::empty()
    } else {
        all_payloads(steps.drop_last()) + steps.last().payload
    }
}

/// The bytes of the payloads of `steps`, one after the other.
pub open spec fn all_bytes(steps: Seq<Step>) -> Seq<u8>
    decreases steps.len(),
{
    if steps.len() == 0 {
        Seq::empty()
    } else {
        all_bytes(steps.drop_last()) + concat(steps.last().payload)
    }
}

/// An aggregator accepts a fragment only under the number that counts the
/// fragments it has accepted for the batch in flight; the count then grows by
/// one. A fragment that is not accepted leaves the aggregator idle.
pub proof fn accepted_fragment_is_next(
    s: AggregatorState,
    batch_id: BatchId,
    fragment_id: nat,
    more: Seq<Seq<u8>>,
    max: nat,
)
    requires
        s.wf(),
    ensures
        s.admits(batch_id, fragment_id, more, max) ==> fragment_id == s.count,
        s.admits(batch_id, fragment_id, more, max) ==> s.after_append(
            batch_id,
            fragment_id,
            more,
            max,
        ).count == s.count + 1,
        !s.admits(batch_id, fragment_id, more, max) ==> s.after_append(
            batch_id,
            fragment_id,
            more,
            max,
        ) == AggregatorState::idle(),
        s.after_append(batch_id, fragment_id, more, max).wf(),
{
}

/// Fragment ordering: where an idle aggregator accepted every one of a run
/// of fragments, their numbers are `0, 1, …, k` in this order, they belong to
/// one batch, and the aggregator holds their payloads one after the other.
pub proof fn accepted_fragments_are_contiguous(steps: Seq<Step>, max: nat)
    requires
        all_accepted(steps, max),
    ensures
        run(steps, max).wf(),
        run(steps, max).count == steps.len(),
        run(steps, max).payload == all_payloads(steps),
        payload_len(all_payloads(steps)) <= max,
        steps.len() > 0 ==> run(steps, max).open,
        forall|i: int| 0 <= i < steps.len() ==> (#[trigger] steps[i]).fragment_id == i,
        forall|i: int|
            0 <= i < steps.len() ==> (#[trigger] steps[i]).batch_id == run(steps, max).batch_id,
    decreases steps.len(),
{
    if steps.len() == 0 {
        assert(concat(Seq::<Seq<u8>>::empty()) =~= Seq::<u8>::empty());
    } else {
        let init = steps.drop_last();
        accepted_fragments_are_contiguous(init, max);
        assert forall|i: int| 0 <= i < steps.len() implies (#[trigger] steps[i]).fragment_id
            == i by {
            if i < init.len() {
                assert(steps[i] == init[i]);
            }
        }
        assert forall|i: int| 0 <= i < steps.len() implies (#[trigger] steps[i]).batch_id == run(
            steps,
            max,
        ).batch_id by {
            if i < init.len() {
                assert(steps[i] == init[i]);
            }
        }
    }
}

/// The bytes of the payloads laid end to end are the bytes of each payload
/// laid end to end, payload after payload.
pub proof fn all_payloads_concat(steps: Seq<Step>)
    ensures
        concat(all_payloads(steps)) == all_bytes(steps),
    decreases steps.len(),
{
    if steps.len() == 0 {
        assert(concat(Seq::<Seq<u8>>::empty()) =~= Seq::<u8>::empty());
    } else {
        all_payloads_concat(steps.drop_last());
        payload_len_additive(all_payloads(steps.drop_last()), steps.last().payload);
    }
}

/// Appending `p0, …, pk-1` and ending with `pk` yields a batch whose payload
/// is `p0, …, pk` one after the other: where an idle aggregator accepted
/// `steps` and then admits `end` as the last fragment, the payload handed out
/// is that of all the fragments, and its bytes are theirs end to end.
pub proof fn assembled_payload_is_concatenation(steps: Seq<Step>, end: Step, max: nat)
    requires
        all_accepted(steps, max),
        run(steps, max).admits(end.batch_id, end.fragment_id, end.payload, max),
    ensures
        run(steps, max).extended(end.payload) == all_payloads(steps.push(end)),
        concat(run(steps, max).extended(end.payload)) == all_bytes(steps.push(end)),
        end.fragment_id == steps.len(),
{
    accepted_fragments_are_contiguous(steps, max);
    assert(steps.push(end).drop_last() =~= steps);
    all_payloads_concat(steps.push(end));
}

} // verus!
