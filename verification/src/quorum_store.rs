//! The front door of the quorum store.
//!
//! The driver takes the producer's commands, feeds its own aggregator,
//! decides which fragments go out to the peers and when, hands closed
//! batches to the batch store, and opens the proof for a batch once the
//! batch store has persisted and signed it.

use crate::batch_aggregator::{AggregationMode, AggregatorState, BatchAggregator};
use crate::digest::{batch_digest, payload_len};
use crate::digest_map::DigestMap;
use crate::messages::{
    BatchStoreCommand, ConsensusMsg, Fragment, FragmentView, PersistRequest, PersistRequestView,
    ProofBuilderCommand, ProofReturnChannel, SignedDigest,
};
use crate::batch_index::EntryView;
use crate::batch_reader::{BatchReader, FetchView};
use crate::batch_store::{BatchStore, PhaseView};
use crate::network_listener::NetworkListener;
use crate::proof_builder::{ProofBuilder, ProofStateView};
use crate::types::{clone_data, BatchId, Data, HashValue, LogicalTime, PeerId, Round};
use crate::validator_verifier::{others, ValidatorVerifier};
use vstd::prelude::*;

verus! {

/// A command of the producer.
#[derive(Debug)]
pub enum QuorumStoreCommand {
    /// Add these transactions to the batch.
    AppendToBatch(Data, BatchId),
    /// Add these transactions, close the batch, and return its proof of
    /// store on the channel.
    EndBatch(Data, BatchId, LogicalTime, ProofReturnChannel),
}

/// Why no proof of store came back.
#[derive(Debug, Clone, Copy, PartialEq, Eq, Structural)]
pub enum QuorumStoreError {
    /// No quorum signed the batch in time, or the batch was not persisted.
    Timeout(BatchId),
}

/// The options of the quorum store.
#[derive(Clone, Copy, Debug)]
pub struct QuorumStoreConfig {
    pub channel_size: usize,
    pub proof_timeout_ms: usize,
    pub batch_request_num_peers: usize,
    pub batch_request_timeout_ms: usize,
    /// Batches are kept for this many rounds after they expire, so that peers
    /// that lag behind can still fetch them.
    pub max_execution_round_lag: Round,
    pub max_batch_size: usize,
    pub memory_quota: usize,
    pub db_quota: usize,
}

/// What the driver keeps for a batch of its own that is being persisted.
pub struct PendingEnd {
    /// The last fragment of the batch, not yet sent to the peers.
    pub fragment: Fragment,
    /// Where the producer awaits the proof.
    pub proof_tx: ProofReturnChannel,
}

/// What happened, as the driver sees it.
#[derive(Debug)]
pub enum DriverEvent {
    /// The producer sent a command.
    Command(QuorumStoreCommand),
    /// The batch store persisted a batch of this node and signed its digest.
    Persisted(SignedDigest),
    /// The batch store gave no answer for the batch with this digest: the
    /// batch was not persisted.
    PersistFailed(HashValue),
}

/// What the driver asks its surroundings to do.
#[derive(Debug)]
pub enum DriverAction {
    /// Send the message to every peer but this node.
    Broadcast(ConsensusMsg),
    /// Send the command to the batch store and await its reply.
    ToBatchStore(BatchStoreCommand),
    /// Send the command to the proof builder.
    ToProofBuilder(ProofBuilderCommand),
    /// Answer the producer on this channel with the failure.
    Return(ProofReturnChannel, QuorumStoreError),
}

/// The driver.
pub struct QuorumStore {
    epoch: u64,
    my_peer_id: PeerId,
    fragment_id: usize,
    batch_aggregator: BatchAggregator,
    digest_end_batch: DigestMap<PendingEnd>,
}

/// The stages that the driver works with.
pub struct QuorumStoreParts {
    pub network_listener: NetworkListener,
    pub proof_builder: ProofBuilder,
    pub batch_store: BatchStore,
    pub batch_reader: BatchReader,
}

/// The terminator and the return channel of a pending batch.
pub open spec fn pending_view(p: PendingEnd) -> (FragmentView, ProofReturnChannel) {
    (p.fragment@, p.proof_tx)
}

impl QuorumStore {
    pub closed spec fn spec_epoch(&self) -> u64 {
        self.epoch
    }

    pub closed spec fn spec_my_peer_id(&self) -> PeerId {
        self.my_peer_id
    }

    /// The number that the next fragment of this node gets.
    pub closed spec fn spec_fragment_id(&self) -> nat {
        self.fragment_id as nat
    }

    /// The state of the driver's aggregator.
    pub closed spec fn aggregator(&self) -> AggregatorState {
        self.batch_aggregator.state()
    }

    /// The bound on the bytes of a batch.
    pub closed spec fn spec_max_batch_size(&self) -> nat {
        self.batch_aggregator.spec_max_batch_size() as nat
    }

    /// The batches of this node that are being persisted: for each digest the
    /// terminator that is held back and the producer's return channel.
    pub closed spec fn pending(&self) -> Map<Seq<u8>, (FragmentView, ProofReturnChannel)> {
        self.digest_end_batch@.map_values(|p: PendingEnd| pending_view(p))
    }

    /// The representation invariant.
    pub closed spec fn wf(&self) -> bool {
        &&& self.batch_aggregator.wf()
        &&& self.batch_aggregator.spec_mode() == AggregationMode::AssertWrongOrder
        &&& self.batch_aggregator.spec_author() == self.my_peer_id
        &&& self.batch_aggregator.spec_epoch() == self.epoch
        &&& self.digest_end_batch.wf()
        &&& forall|d: Seq<u8>| #[trigger]
            self.digest_end_batch@.contains_key(d) ==> self.is_own_terminator(
                self.digest_end_batch@[d].fragment@,
            )
    }

    /// Whether the fragment ends a batch of this node in this epoch.
    pub open spec fn is_own_terminator(&self, f: FragmentView) -> bool {
        &&& f.maybe_expiration is Some
        &&& f.author == self.spec_my_peer_id()@
        &&& f.epoch == self.spec_epoch()
    }

    /// Every fragment that is held back ends a batch of this node: it
    /// carries the expiration of its batch.
    pub proof fn lemma_pending_are_terminators(&self, d: Seq<u8>)
        requires
            self.wf(),
            self.pending().contains_key(d),
        ensures
            self.is_own_terminator(self.pending()[d].0),
    {
        assert(self.digest_end_batch@.contains_key(d));
    }

    /// What stays fixed over the life of a driver.
    pub open spec fn same_setup(&self, other: &QuorumStore) -> bool {
        &&& self.spec_epoch() == other.spec_epoch()
        &&& self.spec_my_peer_id() == other.spec_my_peer_id()
        &&& self.spec_max_batch_size() == other.spec_max_batch_size()
    }

    /// The next fragment of batch `batch_id` would reach the aggregator in
    /// order.
    pub open spec fn spec_in_order(&self, batch_id: BatchId) -> bool {
        self.aggregator().in_order(batch_id, self.spec_fragment_id())
    }

    /// The aggregator takes the next fragment of batch `batch_id` with this
    /// payload.
    pub open spec fn spec_admits(&self, batch_id: BatchId, payload: Seq<Seq<u8>>) -> bool {
        self.aggregator().admits(
            batch_id,
            self.spec_fragment_id(),
            payload,
            self.spec_max_batch_size(),
        )
    }

    /// Sets up the quorum store of `my_peer_id` for `epoch`: the driver, with
    /// no batch in flight and none pending, and beside it the stages that it
    /// works with, each in its first state and with its share of the options.
    /// The reader's peers are the members of the committee but this node.
    pub fn new(
        epoch: u64,
        last_committed_round: Round,
        my_peer_id: PeerId,
        config: QuorumStoreConfig,
        validator_verifier: &ValidatorVerifier,
    ) -> (out: (QuorumStore, QuorumStoreParts))
        ensures
            out.0.wf(),
            out.0.spec_epoch() == epoch,
            out.0.spec_my_peer_id() == my_peer_id,
            out.0.spec_fragment_id() == 0,
            out.0.spec_max_batch_size() == config.max_batch_size,
            out.0.aggregator() == AggregatorState::idle(),
            out.0.pending() == Map::<Seq<u8>, (FragmentView, ProofReturnChannel)>::empty(),
            out.1.network_listener.wf(),
            out.1.network_listener.spec_epoch() == epoch,
            out.1.network_listener.spec_max_batch_size() == config.max_batch_size,
            forall|a: Seq<u8>| out.1.network_listener.aggregator(a) == AggregatorState::idle(),
            out.1.proof_builder.wf(validator_verifier),
            out.1.proof_builder.spec_timeout_ms() == config.proof_timeout_ms,
            out.1.proof_builder.open_proofs() == Map::<Seq<u8>, ProofStateView>::empty(),
            out.1.batch_store.wf(),
            out.1.batch_store.spec_epoch() == epoch,
            out.1.batch_store.spec_my_peer_id() == my_peer_id,
            out.1.batch_store.spec_lag() == config.max_execution_round_lag,
            out.1.batch_store.spec_certified_round() == last_committed_round,
            out.1.batch_store.spec_db_quota() == config.db_quota,
            out.1.batch_store.spec_memory_quota() == config.memory_quota,
            out.1.batch_store.index() == Seq::<EntryView>::empty(),
            out.1.batch_store.phase() == PhaseView::Idle,
            out.1.batch_reader.wf(),
            out.1.batch_reader.spec_peers() == others(validator_verifier.committee(), my_peer_id@),
            out.1.batch_reader.spec_num_peers() == config.batch_request_num_peers,
            out.1.batch_reader.spec_timeout_ms() == config.batch_request_timeout_ms,
            out.1.batch_reader.pending() == Map::<Seq<u8>, FetchView>::empty(),
    {
        let network_listener = NetworkListener::new(epoch, config.max_batch_size);
        let proof_builder = ProofBuilder::new(config.proof_timeout_ms);
        let batch_store = BatchStore::new(
            epoch,
            last_committed_round,
            my_peer_id,
            config.max_execution_round_lag,
            config.memory_quota,
            config.db_quota,
        );
        let batch_reader = BatchReader::new(
            validator_verifier.addresses_except(&my_peer_id),
            config.batch_request_num_peers,
            config.batch_request_timeout_ms,
        );
        let q = QuorumStore {
            epoch,
            my_peer_id,
            fragment_id: 0,
            batch_aggregator: BatchAggregator::new(
                my_peer_id,
                epoch,
                config.max_batch_size,
                AggregationMode::AssertWrongOrder,
            ),
            digest_end_batch: DigestMap::new(),
        };
        assert(q.pending() =~= Map::<Seq<u8>, (FragmentView, ProofReturnChannel)>::empty());
        (q, QuorumStoreParts { network_listener, proof_builder, batch_store, batch_reader })
    }

    /// Whether the next fragment of batch `batch_id` would reach the
    /// aggregator in order.
    pub fn in_order(&self, batch_id: BatchId) -> (r: bool)
        ensures
            r == self.spec_in_order(batch_id),
    {
        self.batch_aggregator.in_order(batch_id, self.fragment_id)
    }

    /// Feeds the aggregator with a fragment that does not end the batch, and
    /// builds the message that carries the fragment to the peers.
    ///
    /// The message is built if and only if the aggregator accepts the
    /// fragment. The fragment carries no expiration.
    pub fn handle_append_to_batch(&mut self, fragment_payload: Data, batch_id: BatchId) -> (msg:
        Option<ConsensusMsg>)
        requires
            old(self).wf(),
            old(self).spec_in_order(batch_id),
        ensures
            final(self).wf(),
            final(self).same_setup(old(self)),
            final(self).spec_fragment_id() == old(self).spec_fragment_id(),
            final(self).pending() == old(self).pending(),
            final(self).aggregator() == old(self).aggregator().after_append(
                batch_id,
                old(self).spec_fragment_id(),
                fragment_payload.deep_view(),
                old(self).spec_max_batch_size(),
            ),
            msg is Some == old(self).spec_admits(batch_id, fragment_payload.deep_view()),
            msg is Some ==> msg->Some_0 is FragmentMsg,
            msg matches Some(ConsensusMsg::FragmentMsg(f)) ==> f@ == (FragmentView {
                epoch: old(self).spec_epoch(),
                batch_id,
                fragment_id: old(self).spec_fragment_id(),
                payload: fragment_payload.deep_view(),
                maybe_expiration: None,
                author: old(self).spec_my_peer_id()@,
            }),
    {
        let copy = clone_data(&fragment_payload);
        if self.batch_aggregator.append_transactions(batch_id, self.fragment_id, copy) {
            let fragment = Fragment::new(
                self.epoch,
                batch_id,
                self.fragment_id,
                fragment_payload,
                None,
                self.my_peer_id,
            );
            Some(ConsensusMsg::FragmentMsg(fragment))
        } else {
            None
        }
    }

    /// Feeds the aggregator with the last fragment of a batch, keeps that
    /// fragment and the return channel until the batch is persisted, and
    /// builds the command that has the batch store persist the batch.
    ///
    /// The command is built if and only if the aggregator accepts the
    /// fragment. Either way the aggregator is idle afterwards.
    pub fn handle_end_batch(
        &mut self,
        fragment_payload: Data,
        batch_id: BatchId,
        expiration: LogicalTime,
        proof_tx: ProofReturnChannel,
    ) -> (cmd: Option<BatchStoreCommand>)
        requires
            old(self).wf(),
            old(self).spec_in_order(batch_id),
        ensures
            final(self).wf(),
            final(self).same_setup(old(self)),
            final(self).spec_fragment_id() == old(self).spec_fragment_id(),
            final(self).aggregator() == AggregatorState::idle(),
            cmd is Some == old(self).spec_admits(batch_id, fragment_payload.deep_view()),
            cmd is None ==> final(self).pending() == old(self).pending(),
            cmd is Some ==> cmd->Some_0 is Persist,
            cmd matches Some(BatchStoreCommand::Persist(request, reply)) ==> {
                let payload = old(self).aggregator().extended(fragment_payload.deep_view());
                let digest = batch_digest(
                    old(self).spec_my_peer_id()@,
                    old(self).spec_epoch(),
                    batch_id,
                    payload,
                );
                &&& reply
                &&& request@ == (PersistRequestView {
                    author: old(self).spec_my_peer_id()@,
                    batch_id,
                    payload,
                    digest,
                    num_bytes: payload_len(payload),
                    expiration,
                })
                &&& final(self).pending() == old(self).pending().insert(
                    digest,
                    (
                        FragmentView {
                            epoch: old(self).spec_epoch(),
                            batch_id,
                            fragment_id: old(self).spec_fragment_id(),
                            payload: fragment_payload.deep_view(),
                            maybe_expiration: Some(expiration),
                            author: old(self).spec_my_peer_id()@,
                        },
                        proof_tx,
                    ),
                )
            },
    {
        let copy = clone_data(&fragment_payload);
        match self.batch_aggregator.end_batch(batch_id, self.fragment_id, copy) {
            Some(batch) => {
                let fragment = Fragment::new(
                    self.epoch,
                    batch_id,
                    self.fragment_id,
                    fragment_payload,
                    Some(expiration),
                    self.my_peer_id,
                );
                let ghost before = self.digest_end_batch@;
                let entry = PendingEnd { fragment, proof_tx };
                self.digest_end_batch.insert(batch.digest, entry);
                assert(self.pending() =~= before.map_values(|p: PendingEnd| pending_view(p)).insert(
                    batch.digest@,
                    pending_view(entry),
                ));
                let request = PersistRequest::new(
                    self.my_peer_id,
                    batch_id,
                    batch.payload,
                    batch.digest,
                    batch.num_bytes,
                    expiration,
                );
                Some(BatchStoreCommand::Persist(request, true))
            },
            None => None,
        }
    }
}

impl QuorumStore {
    /// The fragment that this node would send next for batch `batch_id`.
    pub open spec fn next_fragment(
        &self,
        batch_id: BatchId,
        payload: Seq<Seq<u8>>,
        maybe_expiration: Option<LogicalTime>,
    ) -> FragmentView {
        FragmentView {
            epoch: self.spec_epoch(),
            batch_id,
            fragment_id: self.spec_fragment_id(),
            payload,
            maybe_expiration,
            author: self.spec_my_peer_id()@,
        }
    }

    /// The events that the driver can take in its present state. A command
    /// of the producer must continue the batch in flight or open one while
    /// none is in flight; a signed digest of the batch store must be for a
    /// batch that is pending.
    pub open spec fn spec_accepts(&self, event: &DriverEvent) -> bool {
        match event {
            DriverEvent::Command(QuorumStoreCommand::AppendToBatch(_, batch_id)) => {
                self.spec_in_order(*batch_id) && self.spec_fragment_id() < usize::MAX
            },
            DriverEvent::Command(QuorumStoreCommand::EndBatch(_, batch_id, _, _)) => {
                self.spec_in_order(*batch_id)
            },
            DriverEvent::Persisted(signed_digest) => self.pending().contains_key(
                signed_digest.digest@,
            ),
            DriverEvent::PersistFailed(_) => true,
        }
    }

    /// Whether the driver can take `event` in its present state.
    pub fn accepts(&self, event: &DriverEvent) -> (r: bool)
        requires
            self.wf(),
        ensures
            r == self.spec_accepts(event),
    {
        match event {
            DriverEvent::Command(QuorumStoreCommand::AppendToBatch(_, batch_id)) => {
                self.in_order(*batch_id) && self.fragment_id < usize::MAX
            },
            DriverEvent::Command(QuorumStoreCommand::EndBatch(_, batch_id, _, _)) => {
                self.in_order(*batch_id)
            },
            DriverEvent::Persisted(signed_digest) => {
                self.digest_end_batch.contains(&signed_digest.digest)
            },
            DriverEvent::PersistFailed(_) => true,
        }
    }

    /// Takes the batch store's answer for a batch of this node: the batch is
    /// no longer pending, the proof builder opens its proof with the local
    /// signature, and the terminator that was held back goes to the peers.
    pub fn handle_persisted(&mut self, signed_digest: SignedDigest) -> (out: (
        ProofBuilderCommand,
        ConsensusMsg,
    ))
        requires
            old(self).wf(),
            old(self).pending().contains_key(signed_digest.digest@),
        ensures
            final(self).wf(),
            final(self).same_setup(old(self)),
            final(self).spec_fragment_id() == old(self).spec_fragment_id(),
            final(self).aggregator() == old(self).aggregator(),
            final(self).pending() == old(self).pending().remove(signed_digest.digest@),
            out.0 is InitProof,
            out.0 matches ProofBuilderCommand::InitProof(signed, batch_id, proof_tx) ==> {
                &&& signed == signed_digest
                &&& batch_id == old(self).pending()[signed_digest.digest@].0.batch_id
                &&& proof_tx == old(self).pending()[signed_digest.digest@].1
            },
            out.1 is FragmentMsg,
            out.1 matches ConsensusMsg::FragmentMsg(f) ==> f@ == old(self).pending()[signed_digest.digest@].0,
    {
        let ghost before = self.digest_end_batch@;
        let gone = self.digest_end_batch.remove(&signed_digest.digest);
        assert(self.pending() =~= before.map_values(|p: PendingEnd| pending_view(p)).remove(
            signed_digest.digest@,
        ));
        let entry = gone.unwrap();
        let batch_id = entry.fragment.batch_id();
        (
            ProofBuilderCommand::InitProof(signed_digest, batch_id, entry.proof_tx),
            ConsensusMsg::FragmentMsg(entry.fragment),
        )
    }

    /// One turn of the driver: takes an event and says what is to be done.
    ///
    /// A fragment that does not end its batch goes to the peers at once, if
    /// the aggregator accepts it; the fragment counter advances either way. A
    /// closed batch goes to the batch store, and the counter starts again at
    /// zero. The proof of a batch is opened, and its terminator sent, only
    /// when the batch store has answered for it. Where the batch store has
    /// not persisted a batch, the producer is told that no proof will come.
    pub fn step(&mut self, event: DriverEvent) -> (actions: Vec<DriverAction>)
        requires
            old(self).wf(),
            old(self).spec_accepts(&event),
        ensures
            final(self).wf(),
            final(self).same_setup(old(self)),
            match event {
                DriverEvent::Command(QuorumStoreCommand::AppendToBatch(payload, batch_id)) => {
                    &&& final(self).spec_fragment_id() == old(self).spec_fragment_id() + 1
                    &&& final(self).pending() == old(self).pending()
                    &&& final(self).aggregator() == old(self).aggregator().after_append(
                        batch_id,
                        old(self).spec_fragment_id(),
                        payload.deep_view(),
                        old(self).spec_max_batch_size(),
                    )
                    &&& if old(self).spec_admits(batch_id, payload.deep_view()) {
                        &&& actions@.len() == 1
                        &&& actions@[0] matches DriverAction::Broadcast(
                            ConsensusMsg::FragmentMsg(f),
                        )
                        &&& f@ == old(self).next_fragment(batch_id, payload.deep_view(), None)
                    } else {
                        actions@.len() == 0
                    }
                },
                DriverEvent::Command(
                    QuorumStoreCommand::EndBatch(payload, batch_id, expiration, proof_tx),
                ) => {
                    let whole = old(self).aggregator().extended(payload.deep_view());
                    let digest = batch_digest(
                        old(self).spec_my_peer_id()@,
                        old(self).spec_epoch(),
                        batch_id,
                        whole,
                    );
                    &&& final(self).spec_fragment_id() == 0
                    &&& final(self).aggregator() == AggregatorState::idle()
                    &&& if old(self).spec_admits(batch_id, payload.deep_view()) {
                        &&& actions@.len() == 1
                        &&& actions@[0] matches DriverAction::ToBatchStore(
                            BatchStoreCommand::Persist(request, reply),
                        )
                        &&& reply
                        &&& request@ == (PersistRequestView {
                            author: old(self).spec_my_peer_id()@,
                            batch_id,
                            payload: whole,
                            digest,
                            num_bytes: payload_len(whole),
                            expiration,
                        })
                        &&& final(self).pending() == old(self).pending().insert(
                            digest,
                            (
                                old(self).next_fragment(
                                    batch_id,
                                    payload.deep_view(),
                                    Some(expiration),
                                ),
                                proof_tx,
                            ),
                        )
                    } else {
                        &&& actions@.len() == 0
                        &&& final(self).pending() == old(self).pending()
                    }
                },
                DriverEvent::Persisted(signed_digest) => {
                    let kept = old(self).pending()[signed_digest.digest@];
                    &&& final(self).spec_fragment_id() == old(self).spec_fragment_id()
                    &&& final(self).aggregator() == old(self).aggregator()
                    &&& final(self).pending() == old(self).pending().remove(signed_digest.digest@)
                    &&& actions@.len() == 2
                    &&& actions@[0] matches DriverAction::ToProofBuilder(
                        ProofBuilderCommand::InitProof(signed, batch_id, proof_tx),
                    )
                    &&& signed == signed_digest
                    &&& batch_id == kept.0.batch_id
                    &&& proof_tx == kept.1
                    &&& actions@[1] matches DriverAction::Broadcast(ConsensusMsg::FragmentMsg(f))
                    &&& f@ == kept.0
                },
                DriverEvent::PersistFailed(digest) => {
                    let kept = old(self).pending()[digest@];
                    &&& final(self).spec_fragment_id() == old(self).spec_fragment_id()
                    &&& final(self).aggregator() == old(self).aggregator()
                    &&& final(self).pending() == old(self).pending().remove(digest@)
                    &&& if old(self).pending().contains_key(digest@) {
                        &&& actions@.len() == 1
                        &&& actions@[0] matches DriverAction::Return(channel, error)
                        &&& channel == kept.1
                        &&& error == QuorumStoreError::Timeout(kept.0.batch_id)
                    } else {
                        actions@.len() == 0
                    }
                },
            },
            forall|i: int|
                0 <= i < actions@.len() && #[trigger] actions@[i] is ToProofBuilder ==> event
                    is Persisted,
            forall|i: int|
                0 <= i < actions@.len() ==> (#[trigger] actions@[i] matches DriverAction::Broadcast(
                    ConsensusMsg::FragmentMsg(f),
                ) ==> (f@.maybe_expiration is Some <==> event is Persisted)),
    {
        let mut actions: Vec<DriverAction> = Vec::new();
        match event {
            DriverEvent::Command(QuorumStoreCommand::AppendToBatch(payload, batch_id)) => {
                match self.handle_append_to_batch(payload, batch_id) {
                    Some(msg) => {
                        actions.push(DriverAction::Broadcast(msg));
                    },
                    None => {},
                }
                self.fragment_id = self.fragment_id + 1;
            },
            DriverEvent::Command(
                QuorumStoreCommand::EndBatch(payload, batch_id, expiration, proof_tx),
            ) => {
                match self.handle_end_batch(payload, batch_id, expiration, proof_tx) {
                    Some(command) => {
                        actions.push(DriverAction::ToBatchStore(command));
                    },
                    None => {},
                }
                self.fragment_id = 0;
            },
            DriverEvent::Persisted(signed_digest) => {
                let (command, msg) = self.handle_persisted(signed_digest);
                actions.push(DriverAction::ToProofBuilder(command));
                actions.push(DriverAction::Broadcast(msg));
            },
            DriverEvent::PersistFailed(digest) => {
                let ghost before = self.digest_end_batch@;
                let gone = self.digest_end_batch.remove(&digest);
                assert(self.pending() =~= before.map_values(|p: PendingEnd| pending_view(p)).remove(
                    digest@,
                ));
                match gone {
                    Some(entry) => {
                        actions.push(
                            DriverAction::Return(
                                entry.proof_tx,
                                QuorumStoreError::Timeout(entry.fragment.batch_id()),
                            ),
                        );
                    },
                    None => {},
                }
            },
        }
        actions
    }
}

/// Whether `reply` tells the producer behind a pending batch that no proof
/// will come.
pub open spec fn is_drained(
    reply: (ProofReturnChannel, QuorumStoreError),
    kept: (FragmentView, ProofReturnChannel),
) -> bool {
    reply.0 == kept.1 && reply.1 == QuorumStoreError::Timeout(kept.0.batch_id)
}

/// Whether `reply` is for one of the batches in `pending`.
pub open spec fn drained_from(
    pending: Map<Seq<u8>, (FragmentView, ProofReturnChannel)>,
    reply: (ProofReturnChannel, QuorumStoreError),
) -> bool {
    exists|d: Seq<u8>| #[trigger] pending.contains_key(d) && is_drained(reply, pending[d])
}

/// Whether one of `replies` is for the pending batch `kept`.
pub open spec fn told(
    replies: Seq<(ProofReturnChannel, QuorumStoreError)>,
    kept: (FragmentView, ProofReturnChannel),
) -> bool {
    exists|i: int| 0 <= i < replies.len() && is_drained(#[trigger] replies[i], kept)
}

impl QuorumStore {
    /// Number of batches that are pending.
    pub closed spec fn spec_num_pending(&self) -> nat {
        self.digest_end_batch.spec_len()
    }

    /// Number of batches that are pending.
    pub fn num_pending(&self) -> (n: usize)
        ensures
            n == self.spec_num_pending(),
    {
        self.digest_end_batch.len()
    }

    /// Ends the epoch for the driver: no batch stays pending, and the
    /// producer behind each batch that was pending is told that no proof will
    /// come.
    pub fn drain(&mut self) -> (replies: Vec<(ProofReturnChannel, QuorumStoreError)>)
        requires
            old(self).wf(),
        ensures
            final(self).wf(),
            final(self).same_setup(old(self)),
            final(self).spec_fragment_id() == old(self).spec_fragment_id(),
            final(self).aggregator() == old(self).aggregator(),
            final(self).pending() == Map::<Seq<u8>, (FragmentView, ProofReturnChannel)>::empty(),
            replies@.len() == old(self).spec_num_pending(),
            forall|i: int|
                0 <= i < replies@.len() ==> drained_from(
                    old(self).pending(),
                    #[trigger] replies@[i],
                ),
            forall|d: Seq<u8>| #[trigger]
                old(self).pending().contains_key(d) ==> told(replies@, old(self).pending()[d]),
    {
        let ghost before = self.digest_end_batch@;
        let ghost views = self.pending();
        let ghost total = self.digest_end_batch.spec_len();
        let mut replies: Vec<(ProofReturnChannel, QuorumStoreError)> = Vec::new();
        loop
            invariant
                self.wf(),
                self.same_setup(old(self)),
                self.spec_fragment_id() == old(self).spec_fragment_id(),
                self.aggregator() == old(self).aggregator(),
                views == before.map_values(|p: PendingEnd| pending_view(p)),
                forall|d: Seq<u8>| #[trigger]
                    self.digest_end_batch@.contains_key(d) ==> before.contains_key(d)
                        && self.digest_end_batch@[d] == before[d],
                forall|d: Seq<u8>| #[trigger]
                    before.contains_key(d) ==> self.digest_end_batch@.contains_key(d) || told(
                        replies@,
                        pending_view(before[d]),
                    ),
                forall|i: int|
                    0 <= i < replies@.len() ==> drained_from(views, #[trigger] replies@[i]),
                self.digest_end_batch.spec_len() + replies@.len() == total,
            ensures
                self.digest_end_batch.spec_len() == 0,
            decreases self.digest_end_batch.spec_len(),
        {
            let ghost replies_before = replies@;
            match self.digest_end_batch.pop_last() {
                None => {
                    break ;
                },
                Some(entry) => {
                    let ghost d0 = entry.key@;
                    assert(before.contains_key(d0));
                    let reply = (
                        entry.value.proof_tx,
                        QuorumStoreError::Timeout(entry.value.fragment.batch_id()),
                    );
                    replies.push(reply);
                    proof {
                        let n = replies_before.len() as int;
                        assert(views.contains_key(d0) && views[d0] == pending_view(before[d0]));
                        assert(is_drained(replies@[n], views[d0]));
                        assert(drained_from(views, replies@[n]));
                        assert forall|i: int| 0 <= i < replies@.len() implies drained_from(
                            views,
                            #[trigger] replies@[i],
                        ) by {
                            if i < n {
                                assert(replies@[i] == replies_before[i]);
                            }
                        }
                        assert forall|d: Seq<u8>|
                            told(replies_before, pending_view(before[d])) implies told(
                            replies@,
                            #[trigger] pending_view(before[d]),
                        ) by {
                            let i = choose|i: int|
                                0 <= i < replies_before.len() && is_drained(
                                    #[trigger] replies_before[i],
                                    pending_view(before[d]),
                                );
                            assert(replies@[i] == replies_before[i]);
                        }
                        assert(told(replies@, pending_view(before[d0])));
                    }
                },
            }
        }
        proof {
            self.digest_end_batch.lemma_empty();
            assert(self.pending() =~= Map::<Seq<u8>, (FragmentView, ProofReturnChannel)>::empty());
            assert forall|d: Seq<u8>| #[trigger] views.contains_key(d) implies told(
                replies@,
                views[d],
            ) by {
                assert(before.contains_key(d));
            }
        }
        replies
    }
}

} // verus!
