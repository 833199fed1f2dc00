//! The demultiplexer of inbound messages.
//!
//! The listener takes the messages of the peers, checks what can be checked
//! on arrival, assembles the batches of each author from their fragments,
//! and says to which stage each message goes.

use crate::batch_aggregator::{AggregationMode, AggregatorState, BatchAggregator};
use crate::digest::{batch_digest, compute_digest, count_bytes, payload_len};
use crate::digest_map::DigestMap;
use crate::messages::{
    BatchStoreCommand, ConsensusMsg, Fragment, FragmentView, PersistRequest, PersistRequestView,
    ProofBuilderCommand,
};
use crate::types::{HashValue, LogicalTime, PeerId};
use crate::validator_verifier::ValidatorVerifier;
use vstd::prelude::*;

verus! {

/// Where an inbound message goes.
#[derive(Debug)]
pub enum ListenerAction {
    /// To the batch store.
    ToBatchStore(BatchStoreCommand),
    /// To the proof builder.
    ToProofBuilder(ProofBuilderCommand),
    /// To the index of batches: the batch with this digest exists, this peer
    /// holds it, and it expires then.
    Register(HashValue, PeerId, LogicalTime),
}

/// The listener.
pub struct NetworkListener {
    epoch: u64,
    max_batch_size: usize,
    aggregators: DigestMap<BatchAggregator>,
}

/// The key under which the aggregator of an author is kept.
pub fn author_key(author: &PeerId) -> (k: HashValue)
    ensures
        k@ == author@,
{
    HashValue { bytes: author.bytes }
}

impl NetworkListener {
    pub closed spec fn spec_epoch(&self) -> u64 {
        self.epoch
    }

    pub closed spec fn spec_max_batch_size(&self) -> usize {
        self.max_batch_size
    }

    /// The state of the aggregator of `author`: idle for an author of whom
    /// no fragment has come.
    pub closed spec fn aggregator(&self, author: Seq<u8>) -> AggregatorState {
        if self.aggregators@.contains_key(author) {
            self.aggregators@[author].state()
        } else {
            AggregatorState::idle()
        }
    }

    /// The representation invariant: the aggregator of each author is set up
    /// for that author, this epoch and the size bound, and drops what comes
    /// out of order.
    pub closed spec fn wf(&self) -> bool {
        &&& self.aggregators.wf()
        &&& forall|a: Seq<u8>| #[trigger]
            self.aggregators@.contains_key(a) ==> {
                let g = self.aggregators@[a];
                &&& g.wf()
                &&& g.spec_author()@ == a
                &&& g.spec_epoch() == self.epoch
                &&& g.spec_max_batch_size() == self.max_batch_size
                &&& g.spec_mode() == AggregationMode::IgnoreWrongOrder
            }
    }

    /// What stays fixed over the life of a listener.
    pub open spec fn same_setup(&self, other: &NetworkListener) -> bool {
        &&& self.spec_epoch() == other.spec_epoch()
        &&& self.spec_max_batch_size() == other.spec_max_batch_size()
    }

    /// A listener for `epoch` that has seen no fragment.
    pub fn new(epoch: u64, max_batch_size: usize) -> (l: NetworkListener)
        ensures
            l.wf(),
            l.spec_epoch() == epoch,
            l.spec_max_batch_size() == max_batch_size,
            forall|a: Seq<u8>| l.aggregator(a) == AggregatorState::idle(),
    {
        NetworkListener { epoch, max_batch_size, aggregators: DigestMap::new() }
    }

    /// Whether a fragment passes the checks on arrival: it is of this epoch
    /// and its payload is within the size bound.
    pub open spec fn fragment_passes(&self, epoch: u64, payload: Seq<Seq<u8>>) -> bool {
        epoch == self.spec_epoch() && payload_len(payload) <= self.spec_max_batch_size()
    }

    /// Takes a fragment of a peer's batch.
    ///
    /// A fragment of another epoch is dropped and changes nothing. A fragment
    /// whose payload is larger than a batch may be is dropped, and the batch of
    /// its author that is in flight is dropped with it. Any other goes to the
    /// aggregator of its author. The fragment that ends a batch yields the
    /// command that has the batch persisted, without an answer to the sender,
    /// if the aggregator accepts it; no other fragment yields anything.
    pub fn handle_fragment(&mut self, fragment: Fragment) -> (out: Option<BatchStoreCommand>)
        requires
            old(self).wf(),
        ensures
            final(self).wf(),
            final(self).same_setup(old(self)),
            fragment_post(old(self), fragment@, final(self), out),
    {
        let ghost before_map = self.aggregators@;
        let within = match count_bytes(&fragment.payload) {
            Some(n) => n <= self.max_batch_size,
            None => false,
        };
        if fragment.epoch != self.epoch {
            return None;
        }
        let key = author_key(&fragment.author);
        if !within {
            let _ = self.aggregators.remove(&key);
            proof {
                assert forall|a: Seq<u8>| a != fragment@.author implies self.aggregator(a) == old(
                    self,
                ).aggregator(a) by {
                    assert(self.aggregators@.contains_key(a) == before_map.contains_key(a));
                }
            }
            return None;
        }
        let mut aggregator = match self.aggregators.remove(&key) {
            Some(a) => a,
            None => BatchAggregator::new(
                fragment.author,
                self.epoch,
                self.max_batch_size,
                AggregationMode::IgnoreWrongOrder,
            ),
        };
        let out = match fragment.maybe_expiration {
            None => {
                let _ = aggregator.append_transactions(
                    fragment.batch_id,
                    fragment.fragment_id,
                    fragment.payload,
                );
                None
            },
            Some(expiration) => {
                match aggregator.end_batch(
                    fragment.batch_id,
                    fragment.fragment_id,
                    fragment.payload,
                ) {
                    Some(batch) => {
                        let request = PersistRequest::new(
                            fragment.author,
                            fragment.batch_id,
                            batch.payload,
                            batch.digest,
                            batch.num_bytes,
                            expiration,
                        );
                        Some(BatchStoreCommand::Persist(request, false))
                    },
                    None => None,
                }
            },
        };
        self.aggregators.insert(key, aggregator);
        proof {
            assert forall|a: Seq<u8>| a != fragment@.author implies self.aggregator(a) == old(
                self,
            ).aggregator(a) by {
                assert(self.aggregators@.contains_key(a) == before_map.contains_key(a));
            }
        }
        out
    }
}

/// What a fragment of a peer's batch does to the listener.
///
/// A fragment of another epoch is dropped and changes nothing. A fragment
/// whose payload is larger than a batch may be is dropped, and the batch of
/// its author that is in flight is dropped with it: the aggregator of the
/// author is idle afterwards. Any other goes to the aggregator of its author. The
/// fragment that ends a batch yields the command that has the batch
/// persisted, without an answer to the sender, if the aggregator accepts it;
/// no other fragment yields anything.
pub open spec fn fragment_post(
    pre: &NetworkListener,
    f: FragmentView,
    post: &NetworkListener,
    out: Option<BatchStoreCommand>,
) -> bool {
    let before = pre.aggregator(f.author);
    let max = pre.spec_max_batch_size() as nat;
    &&& forall|a: Seq<u8>| a != f.author ==> post.aggregator(a) == pre.aggregator(a)
    &&& if f.epoch != pre.spec_epoch() {
        &&& out is None
        &&& post.aggregator(f.author) == before
    } else if !pre.fragment_passes(f.epoch, f.payload) {
        &&& out is None
        &&& post.aggregator(f.author) == AggregatorState::idle()
    } else if f.maybe_expiration is None {
        &&& out is None
        &&& post.aggregator(f.author) == before.after_append(
            f.batch_id,
            f.fragment_id,
            f.payload,
            max,
        )
    } else {
        let whole = before.extended(f.payload);
        &&& post.aggregator(f.author) == AggregatorState::idle()
        &&& out is Some == before.admits(f.batch_id, f.fragment_id, f.payload, max)
        &&& out is Some ==> out->Some_0 is Persist
        &&& out matches Some(BatchStoreCommand::Persist(request, reply)) ==> {
            &&& !reply
            &&& request@ == (PersistRequestView {
                author: f.author,
                batch_id: f.batch_id,
                payload: whole,
                digest: batch_digest(f.author, f.epoch, f.batch_id, whole),
                num_bytes: payload_len(whole),
                expiration: f.maybe_expiration->Some_0,
            })
        }
    }
}

impl NetworkListener {
    /// Takes a message of the peer `sender` and says where it goes.
    ///
    /// A fragment feeds the aggregator of its author. A signed digest goes to
    /// the proof builder if its signer is in the committee. A request for a
    /// batch goes to the batch store, and so does an answer to one if its body
    /// hashes to its digest. A proof of store is noted in the index, with the
    /// sender as the holder of the batch, if its signers make a quorum and
    /// `signatures_valid` says that their signatures verify. Whatever fails
    /// its check is dropped.
    pub fn handle(
        &mut self,
        sender: PeerId,
        msg: ConsensusMsg,
        verifier: &ValidatorVerifier,
        signatures_valid: bool,
    ) -> (actions: Vec<ListenerAction>)
        requires
            old(self).wf(),
        ensures
            final(self).wf(),
            final(self).same_setup(old(self)),
            match msg {
                ConsensusMsg::FragmentMsg(fragment) => {
                    ||| actions@.len() == 0 && fragment_post(
                        old(self),
                        fragment@,
                        final(self),
                        None,
                    )
                    ||| actions@.len() == 1 && (actions@[0] matches ListenerAction::ToBatchStore(
                        command,
                    ) && fragment_post(old(self), fragment@, final(self), Some(command)))
                },
                ConsensusMsg::SignedDigestMsg(signed) => {
                    &&& forall|a: Seq<u8>| final(self).aggregator(a) == old(self).aggregator(a)
                    &&& if verifier.spec_is_member(signed@.signer) {
                        &&& actions@.len() == 1
                        &&& actions@[0] matches ListenerAction::ToProofBuilder(
                            ProofBuilderCommand::AppendSignature(s),
                        )
                        &&& s == signed
                    } else {
                        actions@.len() == 0
                    }
                },
                ConsensusMsg::ProofOfStoreMsg(proof) => {
                    &&& forall|a: Seq<u8>| final(self).aggregator(a) == old(self).aggregator(a)
                    &&& if signatures_valid && verifier.spec_is_quorum(proof@.signers) {
                        &&& actions@.len() == 1
                        &&& actions@[0] matches ListenerAction::Register(d, holder, expiration)
                        &&& d@ == proof@.digest
                        &&& holder@ == sender@
                        &&& expiration == proof@.expiration
                    } else {
                        actions@.len() == 0
                    }
                },
                ConsensusMsg::BatchRequestMsg(digest) => {
                    &&& forall|a: Seq<u8>| final(self).aggregator(a) == old(self).aggregator(a)
                    &&& actions@.len() == 1
                    &&& actions@[0] matches ListenerAction::ToBatchStore(
                        BatchStoreCommand::BatchRequest(from, d),
                    )
                    &&& from@ == sender@
                    &&& d@ == digest@
                },
                ConsensusMsg::BatchResponseMsg(digest, batch_id, payload, author) => {
                    &&& forall|a: Seq<u8>| final(self).aggregator(a) == old(self).aggregator(a)
                    &&& if digest@ == batch_digest(
                        author@,
                        old(self).spec_epoch(),
                        batch_id,
                        payload.deep_view(),
                    ) {
                        &&& actions@.len() == 1
                        &&& actions@[0] matches ListenerAction::ToBatchStore(
                            BatchStoreCommand::BatchResponse(d, b, p, a),
                        )
                        &&& d@ == digest@
                        &&& b == batch_id
                        &&& p.deep_view() == payload.deep_view()
                        &&& a@ == author@
                    } else {
                        actions@.len() == 0
                    }
                },
            },
    {
        let mut actions: Vec<ListenerAction> = Vec::new();
        match msg {
            ConsensusMsg::FragmentMsg(fragment) => {
                match self.handle_fragment(fragment) {
                    Some(command) => {
                        actions.push(ListenerAction::ToBatchStore(command));
                    },
                    None => {},
                }
            },
            ConsensusMsg::SignedDigestMsg(signed) => {
                if verifier.get_voting_power(&signed.signer).is_some() {
                    actions.push(
                        ListenerAction::ToProofBuilder(ProofBuilderCommand::AppendSignature(signed)),
                    );
                }
            },
            ConsensusMsg::ProofOfStoreMsg(proof) => {
                if signatures_valid && verifier.check_voting_power(&proof.signers).is_ok() {
                    actions.push(ListenerAction::Register(proof.digest, sender, proof.expiration));
                }
            },
            ConsensusMsg::BatchRequestMsg(digest) => {
                actions.push(
                    ListenerAction::ToBatchStore(BatchStoreCommand::BatchRequest(sender, digest)),
                );
            },
            ConsensusMsg::BatchResponseMsg(digest, batch_id, payload, author) => {
                if compute_digest(&author, self.epoch, batch_id, &payload).same(&digest) {
                    actions.push(
                        ListenerAction::ToBatchStore(
                            BatchStoreCommand::BatchResponse(digest, batch_id, payload, author),
                        ),
                    );
                }
            },
        }
        actions
    }
}

} // verus!
