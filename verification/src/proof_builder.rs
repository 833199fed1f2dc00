//! Aggregation of signed digests into proofs of store.
//!
//! For each digest whose proof is open the builder keeps who has signed and
//! with what weight. A proof leaves the builder as soon as the signers make
//! a quorum of the epoch's committee; an aggregation that has not got there
//! by its deadline ends with a timeout.

use crate::digest_map::DigestMap;
use crate::messages::{
    peer_views, ProofBuilderCommand, ProofOfStore, ProofOfStoreView, ProofReturnChannel,
    SignedDigest, SignedDigestView,
};
use crate::quorum_store::QuorumStoreError;
use crate::types::{BatchId, HashValue, LogicalTime, PeerId};
use crate::validator_verifier::{
    all_members, distinct, is_quorum, listed_before, member_of, total_power,
    total_power_bounded, total_power_push, ValidatorInfo, ValidatorVerifier,
};
use vstd::prelude::*;

verus! {

/// What is kept for an open proof, as mathematical values.
pub ghost struct ProofStateView {
    pub epoch: u64,
    pub expiration: LogicalTime,
    pub batch_id: BatchId,
    pub return_channel: ProofReturnChannel,
    pub signers: Seq<Seq<u8>>,
    pub signatures: Seq<Seq<u8>>,
    pub deadline: u64,
}

/// What is kept for an open proof.
pub struct ProofState {
    epoch: u64,
    expiration: LogicalTime,
    batch_id: BatchId,
    return_channel: ProofReturnChannel,
    signers: Vec<PeerId>,
    signatures: Vec<Vec<u8>>,
    power: u128,
    deadline: u64,
}

impl View for ProofState {
    type V = ProofStateView;

    closed spec fn view(&self) -> ProofStateView {
        ProofStateView {
            epoch: self.epoch,
            expiration: self.expiration,
            batch_id: self.batch_id,
            return_channel: self.return_channel,
            signers: peer_views(self.signers@),
            signatures: self.signatures.deep_view(),
            deadline: self.deadline,
        }
    }
}

impl ProofState {
    /// The signers are distinct members of the committee, each with one
    /// signature, and their weight is accounted for.
    pub closed spec fn wf(&self, committee: Seq<ValidatorInfo>) -> bool {
        &&& self.signers@.len() == self.signatures@.len()
        &&& distinct(peer_views(self.signers@))
        &&& all_members(committee, peer_views(self.signers@))
        &&& self.power == total_power(committee, peer_views(self.signers@))
    }

    /// The weight of the signers.
    pub closed spec fn spec_power(&self) -> nat {
        self.power as nat
    }

    /// What well-formedness says of the view.
    pub proof fn lemma_wf(&self, committee: Seq<ValidatorInfo>)
        requires
            self.wf(committee),
        ensures
            self@.signers.len() == self@.signatures.len(),
            distinct(self@.signers),
            all_members(committee, self@.signers),
            self.spec_power() == total_power(committee, self@.signers),
    {
    }
}

/// What goes back to a producer: the channel and what is sent on it.
#[derive(Debug)]
pub struct ProofReply {
    pub channel: ProofReturnChannel,
    pub result: Result<(ProofOfStore, BatchId), QuorumStoreError>,
}

/// The deadline of an aggregation that opens at `now_ms`.
pub open spec fn deadline_after(now_ms: u64, timeout_ms: usize) -> u64 {
    if now_ms + timeout_ms > u64::MAX {
        u64::MAX
    } else {
        (now_ms + timeout_ms) as u64
    }
}

/// The votes that an aggregation opens with: the local signature, if the
/// local signer is in the committee.
pub open spec fn seed_signers(committee: Seq<ValidatorInfo>, local: SignedDigestView) -> Seq<
    Seq<u8>,
> {
    if member_of(committee, local.signer) {
        seq![local.signer]
    } else {
        Seq::empty()
    }
}

pub open spec fn seed_signatures(committee: Seq<ValidatorInfo>, local: SignedDigestView) -> Seq<
    Seq<u8>,
> {
    if member_of(committee, local.signer) {
        seq![local.signature]
    } else {
        Seq::empty()
    }
}

/// The state that an aggregation opens with.
pub open spec fn seeded(
    committee: Seq<ValidatorInfo>,
    local: SignedDigestView,
    batch_id: BatchId,
    return_channel: ProofReturnChannel,
    deadline: u64,
) -> ProofStateView {
    ProofStateView {
        epoch: local.epoch,
        expiration: local.expiration,
        batch_id,
        return_channel,
        signers: seed_signers(committee, local),
        signatures: seed_signatures(committee, local),
        deadline,
    }
}

/// Whether a signature adds to an open aggregation: it is for the same
/// epoch, it verifies, its signer is in the committee and has not signed
/// yet.
pub open spec fn counts(
    state: ProofStateView,
    committee: Seq<ValidatorInfo>,
    signed: SignedDigestView,
    signature_valid: bool,
) -> bool {
    &&& signed.epoch == state.epoch
    &&& signature_valid
    &&& member_of(committee, signed.signer)
    &&& !state.signers.contains(signed.signer)
}

/// The state after a signature that counts.
pub open spec fn with_vote(state: ProofStateView, signed: SignedDigestView) -> ProofStateView {
    ProofStateView {
        signers: state.signers.push(signed.signer),
        signatures: state.signatures.push(signed.signature),
        ..state
    }
}

/// The proof that a state yields for a digest.
pub open spec fn proof_of(digest: Seq<u8>, state: ProofStateView) -> ProofOfStoreView {
    ProofOfStoreView {
        digest,
        expiration: state.expiration,
        signers: state.signers,
        signatures: state.signatures,
    }
}

/// What an aggregation yields once its votes are in: with a quorum, the
/// proof on the return channel.
pub open spec fn is_proof_reply(
    reply: ProofReply,
    digest: Seq<u8>,
    state: ProofStateView,
) -> bool {
    &&& reply.channel == state.return_channel
    &&& reply.result matches Ok((proof, batch_id))
    &&& batch_id == state.batch_id
    &&& proof@ == proof_of(digest, state)
}

/// The builder of proofs of store.
pub struct ProofBuilder {
    proof_timeout_ms: usize,
    open: DigestMap<ProofState>,
}

impl ProofBuilder {
    /// The time that an aggregation is given.
    pub closed spec fn spec_timeout_ms(&self) -> usize {
        self.proof_timeout_ms
    }

    /// The open aggregations, by digest.
    pub closed spec fn open_proofs(&self) -> Map<Seq<u8>, ProofStateView> {
        self.open@.map_values(|s: ProofState| s@)
    }

    /// The representation invariant, for the committee of `verifier`: every
    /// open aggregation holds distinct members only, and none has a quorum.
    pub closed spec fn wf(&self, verifier: &ValidatorVerifier) -> bool {
        &&& self.open.wf()
        &&& forall|d: Seq<u8>| #[trigger]
            self.open@.contains_key(d) ==> {
                &&& self.open@[d].wf(verifier.committee())
                &&& self.open@[d].spec_power() < verifier.quorum()
            }
    }

    /// No open aggregation has a quorum, and each holds distinct members of
    /// the committee, one signature for each.
    pub proof fn lemma_open_below_quorum(&self, verifier: &ValidatorVerifier, d: Seq<u8>)
        requires
            self.wf(verifier),
            self.open_proofs().contains_key(d),
        ensures
            total_power(verifier.committee(), self.open_proofs()[d].signers) < verifier.quorum(),
            distinct(self.open_proofs()[d].signers),
            all_members(verifier.committee(), self.open_proofs()[d].signers),
            self.open_proofs()[d].signers.len() == self.open_proofs()[d].signatures.len(),
    {
        assert(self.open@.contains_key(d));
        self.open@[d].lemma_wf(verifier.committee());
    }

    /// A builder with no open aggregation.
    pub fn new(proof_timeout_ms: usize) -> (b: ProofBuilder)
        ensures
            b.spec_timeout_ms() == proof_timeout_ms,
            b.open_proofs() == Map::<Seq<u8>, ProofStateView>::empty(),
            forall|v: &ValidatorVerifier| b.wf(v),
    {
        let b = ProofBuilder { proof_timeout_ms, open: DigestMap::new() };
        assert(b.open_proofs() =~= Map::<Seq<u8>, ProofStateView>::empty());
        b
    }

    /// Ends the aggregation with a proof if the votes make a quorum, and
    /// keeps it open otherwise.
    fn settle(&mut self, verifier: &ValidatorVerifier, digest: HashValue, state: ProofState) -> (reply:
        Option<ProofReply>)
        requires
            old(self).wf(verifier),
            state.wf(verifier.committee()),
            !old(self).open_proofs().contains_key(digest@),
        ensures
            final(self).wf(verifier),
            final(self).spec_timeout_ms() == old(self).spec_timeout_ms(),
            reply is Some == (total_power(verifier.committee(), state@.signers)
                >= verifier.quorum()),
            reply matches Some(r) ==> is_proof_reply(r, digest@, state@) && is_quorum(
                verifier.committee(),
                verifier.quorum(),
                state@.signers,
            ) && final(self).open_proofs() == old(self).open_proofs(),
            reply is None ==> final(self).open_proofs() == old(self).open_proofs().insert(
                digest@,
                state@,
            ),
    {
        if state.power >= verifier.quorum_voting_power() {
            let proof = ProofOfStore {
                digest,
                expiration: state.expiration,
                signers: state.signers,
                signatures: state.signatures,
            };
            Some(ProofReply { channel: state.return_channel, result: Ok((proof, state.batch_id)) })
        } else {
            let ghost before = self.open@;
            self.open.insert(digest, state);
            assert(self.open_proofs() =~= before.map_values(|s: ProofState| s@).insert(
                digest@,
                state@,
            ));
            None
        }
    }

    /// Opens the aggregation for the digest of `local`, the signature of this
    /// node, replacing any that is open for it. The aggregation starts with
    /// the local vote, if the local signer is in the committee. Where that
    /// alone makes a quorum the proof is returned at once and nothing stays
    /// open.
    pub fn init_proof(
        &mut self,
        verifier: &ValidatorVerifier,
        local: SignedDigest,
        batch_id: BatchId,
        return_channel: ProofReturnChannel,
        now_ms: u64,
    ) -> (reply: Option<ProofReply>)
        requires
            old(self).wf(verifier),
        ensures
            final(self).wf(verifier),
            final(self).spec_timeout_ms() == old(self).spec_timeout_ms(),
            ({
                let state = seeded(
                    verifier.committee(),
                    local@,
                    batch_id,
                    return_channel,
                    deadline_after(now_ms, old(self).spec_timeout_ms()),
                );
                if total_power(verifier.committee(), state.signers) >= verifier.quorum() {
                    &&& reply matches Some(r)
                    &&& is_proof_reply(r, local@.digest, state)
                    &&& is_quorum(verifier.committee(), verifier.quorum(), state.signers)
                    &&& final(self).open_proofs() == old(self).open_proofs().remove(local@.digest)
                } else {
                    &&& reply is None
                    &&& final(self).open_proofs() == old(self).open_proofs().insert(
                        local@.digest,
                        state,
                    )
                }
            }),
    {
        let ghost before = self.open@;
        let _ = self.open.remove(&local.digest);
        assert(self.open_proofs() =~= before.map_values(|s: ProofState| s@).remove(
            local@.digest,
        ));
        let timeout = self.proof_timeout_ms as u64;
        let deadline = if now_ms > u64::MAX - timeout {
            u64::MAX
        } else {
            now_ms + timeout
        };
        let mut signers: Vec<PeerId> = Vec::new();
        let mut signatures: Vec<Vec<u8>> = Vec::new();
        let mut power: u128 = 0;
        assert(peer_views(signers@) =~= Seq::<Seq<u8>>::empty());
        assert(signatures.deep_view() =~= Seq::<Seq<u8>>::empty());
        match verifier.get_voting_power(&local.signer) {
            Some(w) => {
                signers.push(local.signer);
                signatures.push(local.signature);
                power = w as u128;
                proof {
                    assert(peer_views(signers@) =~= seq![local@.signer]);
                    assert(signatures.deep_view().len() == 1);
                    assert(signatures.deep_view()[0] == signatures@[0]@);
                    assert(signatures.deep_view() =~= seq![local@.signature]);
                    total_power_push(verifier.committee(), Seq::empty(), local@.signer);
                    assert(Seq::<Seq<u8>>::empty().push(local@.signer) =~= seq![local@.signer]);
                }
            },
            None => {},
        }
        let state = ProofState {
            epoch: local.epoch,
            expiration: local.expiration,
            batch_id,
            return_channel,
            signers,
            signatures,
            power,
            deadline,
        };
        let reply = self.settle(verifier, local.digest, state);
        proof {
            assert(before.map_values(|s: ProofState| s@).remove(local@.digest).insert(
                local@.digest,
                state@,
            ) =~= before.map_values(|s: ProofState| s@).insert(local@.digest, state@));
        }
        reply
    }
}

impl ProofBuilder {
    /// Takes a signature for a digest. The signature adds to the open
    /// aggregation for that digest if it counts; it is ignored where no
    /// aggregation is open for the digest, where the epoch differs, where the
    /// signature does not verify, where the signer is not in the committee, or
    /// where the signer has signed already. The proof is returned as soon as
    /// the signers make a quorum, and the aggregation is then closed.
    pub fn add_signature(
        &mut self,
        verifier: &ValidatorVerifier,
        signed: SignedDigest,
        signature_valid: bool,
    ) -> (reply: Option<ProofReply>)
        requires
            old(self).wf(verifier),
        ensures
            final(self).wf(verifier),
            final(self).spec_timeout_ms() == old(self).spec_timeout_ms(),
            ({
                let d = signed@.digest;
                let open = old(self).open_proofs();
                if open.contains_key(d) && counts(
                    open[d],
                    verifier.committee(),
                    signed@,
                    signature_valid,
                ) {
                    let state = with_vote(open[d], signed@);
                    if total_power(verifier.committee(), state.signers) >= verifier.quorum() {
                        &&& reply matches Some(r)
                        &&& is_proof_reply(r, d, state)
                        &&& is_quorum(verifier.committee(), verifier.quorum(), state.signers)
                        &&& final(self).open_proofs() == open.remove(d)
                    } else {
                        &&& reply is None
                        &&& final(self).open_proofs() == open.insert(d, state)
                    }
                } else {
                    &&& reply is None
                    &&& final(self).open_proofs() == open
                }
            }),
    {
        let ghost before = self.open@;
        let ghost views = before.map_values(|s: ProofState| s@);
        let gone = self.open.remove(&signed.digest);
        assert(self.open_proofs() =~= views.remove(signed@.digest));
        let mut state = match gone {
            Some(state) => state,
            None => {
                assert(self.open_proofs() =~= views);
                return None;
            },
        };
        assert(before.contains_key(signed@.digest));
        let ghost prior = state@;
        let ghost committee = verifier.committee();
        let power = verifier.get_voting_power(&signed.signer);
        let voted = listed_before(&state.signers, state.signers.len(), &signed.signer);
        proof {
            if voted {
                let j = choose|j: int|
                    0 <= j < state.signers@.len() && (#[trigger] state.signers@[j])@
                        == signed.signer@;
                assert(peer_views(state.signers@)[j] == signed@.signer);
            }
            if prior.signers.contains(signed@.signer) {
                let j = choose|j: int|
                    0 <= j < prior.signers.len() && prior.signers[j] == signed@.signer;
                assert(state.signers@[j]@ == signed.signer@);
            }
        }
        let weight = match power {
            Some(w) => w,
            None => 0,
        };
        if signed.epoch != state.epoch || !signature_valid || power.is_none() || voted {
            let ghost removed = self.open@;
            self.open.insert(signed.digest, state);
            assert(self.open_proofs() =~= views);
            return None;
        }
        let ghost old_signers = peer_views(state.signers@);
        let ghost old_signatures = state.signatures.deep_view();
        proof {
            total_power_push(committee, old_signers, signed@.signer);
            total_power_bounded(committee, old_signers.push(signed@.signer));
            assert((old_signers.len() + 1) * u64::MAX <= 0x1_0000_0000_0000_0000 * u64::MAX)
                by (nonlinear_arith)
                requires
                    old_signers.len() + 1 <= 0x1_0000_0000_0000_0000,
            ;
        }
        state.signers.push(signed.signer);
        state.signatures.push(signed.signature);
        state.power = state.power + weight as u128;
        proof {
            let new_signers = peer_views(state.signers@);
            assert(new_signers =~= old_signers.push(signed@.signer));
            assert(state.signatures.deep_view() =~= old_signatures.push(signed@.signature)) by {
                let n = old_signatures.len() as int;
                assert(state.signatures.deep_view().len() == n + 1);
                assert(state.signatures.deep_view()[n] == state.signatures@[n]@);
            }
            assert forall|k: int| 0 <= k < new_signers.len() implies member_of(
                committee,
                #[trigger] new_signers[k],
            ) by {
                if k < old_signers.len() {
                    assert(new_signers[k] == old_signers[k]);
                }
            }
            assert forall|x: int, y: int| 0 <= x < y < new_signers.len() implies new_signers[x]
                != new_signers[y] by {
                if y == old_signers.len() {
                    assert(old_signers[x] == new_signers[x]);
                    assert(old_signers.contains(old_signers[x]));
                } else {
                    assert(old_signers[x] != old_signers[y]);
                }
            }
            assert(state@ == with_vote(prior, signed@));
        }
        let reply = self.settle(verifier, signed.digest, state);
        proof {
            assert(views.remove(signed@.digest).insert(signed@.digest, state@) =~= views.insert(
                signed@.digest,
                state@,
            ));
        }
        reply
    }
}

/// What an aggregation yields at its deadline: a timeout on the return
/// channel.
pub open spec fn is_timeout_reply(reply: ProofReply, state: ProofStateView) -> bool {
    &&& reply.channel == state.return_channel
    &&& reply.result matches Err(QuorumStoreError::Timeout(batch_id))
    &&& batch_id == state.batch_id
}

/// Whether `reply` is the timeout of one of `open` whose deadline has come.
pub open spec fn timed_out_in(
    open: Map<Seq<u8>, ProofStateView>,
    now_ms: u64,
    reply: ProofReply,
) -> bool {
    exists|d: Seq<u8>| #[trigger]
        open.contains_key(d) && open[d].deadline <= now_ms && is_timeout_reply(reply, open[d])
}

/// Whether one of `replies` is the timeout of `state`.
pub open spec fn answered(replies: Seq<ProofReply>, state: ProofStateView) -> bool {
    exists|i: int| 0 <= i < replies.len() && is_timeout_reply(#[trigger] replies[i], state)
}

impl ProofBuilder {
    /// Number of open aggregations.
    pub closed spec fn spec_num_open(&self) -> nat {
        self.open.spec_len()
    }

    /// Number of open aggregations.
    pub fn num_open(&self) -> (n: usize)
        ensures
            n == self.spec_num_open(),
    {
        self.open.len()
    }

    /// Whether an aggregation is open for `digest`.
    pub fn is_open(&self, verifier: &ValidatorVerifier, digest: &HashValue) -> (r: bool)
        requires
            self.wf(verifier),
        ensures
            r == self.open_proofs().contains_key(digest@),
    {
        self.open.contains(digest)
    }

    /// Closes every aggregation whose deadline has come, and says for each
    /// the timeout that goes back to its producer. The others stay as they
    /// are.
    pub fn expire(&mut self, verifier: &ValidatorVerifier, now_ms: u64) -> (replies: Vec<
        ProofReply,
    >)
        requires
            old(self).wf(verifier),
        ensures
            final(self).wf(verifier),
            final(self).spec_timeout_ms() == old(self).spec_timeout_ms(),
            final(self).open_proofs() == old(self).open_proofs().restrict(
                Set::new(|d: Seq<u8>| old(self).open_proofs()[d].deadline > now_ms),
            ),
            replies@.len() + final(self).spec_num_open() == old(self).spec_num_open(),
            forall|i: int|
                0 <= i < replies@.len() ==> timed_out_in(
                    old(self).open_proofs(),
                    now_ms,
                    #[trigger] replies@[i],
                ),
            forall|d: Seq<u8>| #[trigger]
                old(self).open_proofs().contains_key(d) && old(self).open_proofs()[d].deadline
                    <= now_ms ==> answered(replies@, old(self).open_proofs()[d]),
    {
        let ghost before = self.open@;
        let ghost views = self.open_proofs();
        let ghost total = self.open.spec_len();
        let mut kept: DigestMap<ProofState> = DigestMap::new();
        let mut replies: Vec<ProofReply> = Vec::new();
        loop
            invariant
                self.open.wf(),
                kept.wf(),
                self.proof_timeout_ms == old(self).proof_timeout_ms,
                before == old(self).open@,
                views == before.map_values(|s: ProofState| s@),
                forall|d: Seq<u8>| #[trigger]
                    before.contains_key(d) ==> before[d].wf(verifier.committee())
                        && before[d].spec_power() < verifier.quorum(),
                forall|d: Seq<u8>| #[trigger]
                    self.open@.contains_key(d) ==> before.contains_key(d) && self.open@[d]
                        == before[d],
                forall|d: Seq<u8>| #[trigger]
                    kept@.contains_key(d) ==> before.contains_key(d) && kept@[d] == before[d]
                        && before[d]@.deadline > now_ms && !self.open@.contains_key(d),
                forall|d: Seq<u8>| #[trigger]
                    before.contains_key(d) ==> self.open@.contains_key(d) || (if before[d]@.deadline
                        > now_ms {
                        kept@.contains_key(d)
                    } else {
                        answered(replies@, before[d]@)
                    }),
                forall|i: int|
                    0 <= i < replies@.len() ==> timed_out_in(views, now_ms, #[trigger] replies@[i]),
                self.open.spec_len() + kept.spec_len() + replies@.len() == total,
            ensures
                self.open.spec_len() == 0,
            decreases self.open.spec_len(),
        {
            let ghost replies_before = replies@;
            match self.open.pop_last() {
                None => {
                    break ;
                },
                Some(entry) => {
                    let ghost d0 = entry.key@;
                    assert(before.contains_key(d0));
                    if entry.value.deadline > now_ms {
                        kept.insert(entry.key, entry.value);
                    } else {
                        let reply = ProofReply {
                            channel: entry.value.return_channel,
                            result: Err(QuorumStoreError::Timeout(entry.value.batch_id)),
                        };
                        replies.push(reply);
                        proof {
                            let n = replies_before.len() as int;
                            assert(is_timeout_reply(replies@[n], before[d0]@));
                            assert(views.contains_key(d0) && views[d0] == before[d0]@);
                            assert(timed_out_in(views, now_ms, replies@[n]));
                            assert forall|i: int| 0 <= i < replies@.len() implies timed_out_in(
                                views,
                                now_ms,
                                #[trigger] replies@[i],
                            ) by {
                                if i < n {
                                    assert(replies@[i] == replies_before[i]);
                                }
                            }
                            assert forall|d: Seq<u8>|
                                answered(replies_before, before[d]@) implies answered(
                                replies@,
                                #[trigger] before[d]@,
                            ) by {
                                let i = choose|i: int|
                                    0 <= i < replies_before.len() && is_timeout_reply(
                                        #[trigger] replies_before[i],
                                        before[d]@,
                                    );
                                assert(replies@[i] == replies_before[i]);
                            }
                            assert(answered(replies@, before[d0]@));
                        }
                    }
                },
            }
        }
        proof {
            self.open.lemma_empty();
        }
        self.open = kept;
        proof {
            let alive = Set::new(|d: Seq<u8>| views[d].deadline > now_ms);
            assert(self.open_proofs() =~= views.restrict(alive)) by {
                assert forall|d: Seq<u8>| self.open_proofs().contains_key(d) implies views.restrict(
                    alive,
                ).contains_key(d) && self.open_proofs()[d] == views.restrict(alive)[d] by {
                    assert(kept@.contains_key(d));
                }
                assert forall|d: Seq<u8>| views.restrict(alive).contains_key(
                    d,
                ) implies self.open_proofs().contains_key(d) by {
                    assert(before.contains_key(d));
                }
            }
            assert forall|d: Seq<u8>| #[trigger]
                views.contains_key(d) && views[d].deadline <= now_ms implies answered(
                replies@,
                views[d],
            ) by {
                assert(before.contains_key(d));
            }
        }
        replies
    }
}

impl ProofBuilder {
    /// Ends the epoch for the builder: every open aggregation is closed, and
    /// the producer behind each is told of the timeout.
    pub fn teardown(&mut self, verifier: &ValidatorVerifier) -> (replies: Vec<ProofReply>)
        requires
            old(self).wf(verifier),
        ensures
            final(self).wf(verifier),
            final(self).spec_timeout_ms() == old(self).spec_timeout_ms(),
            final(self).open_proofs() == Map::<Seq<u8>, ProofStateView>::empty(),
            replies@.len() == old(self).spec_num_open(),
            forall|i: int|
                0 <= i < replies@.len() ==> timed_out_in(
                    old(self).open_proofs(),
                    u64::MAX,
                    #[trigger] replies@[i],
                ),
            forall|d: Seq<u8>| #[trigger]
                old(self).open_proofs().contains_key(d) ==> answered(
                    replies@,
                    old(self).open_proofs()[d],
                ),
    {
        let replies = self.expire(verifier, u64::MAX);
        proof {
            assert(self.open_proofs() =~= Map::<Seq<u8>, ProofStateView>::empty());
            assert(self.open@ =~= Map::<Seq<u8>, ProofState>::empty()) by {
                assert forall|d: Seq<u8>| !self.open@.contains_key(d) by {
                    if self.open@.contains_key(d) {
                        assert(self.open_proofs().contains_key(d));
                    }
                }
            }
            self.open.lemma_empty_len();
        }
        replies
    }

    /// Takes a command: the opening of a proof, at the time `now_ms`, or a
    /// peer's signature, of which `signature_valid` says whether it verifies.
    pub fn handle(
        &mut self,
        verifier: &ValidatorVerifier,
        command: ProofBuilderCommand,
        signature_valid: bool,
        now_ms: u64,
    ) -> (reply: Option<ProofReply>)
        requires
            old(self).wf(verifier),
        ensures
            final(self).wf(verifier),
            final(self).spec_timeout_ms() == old(self).spec_timeout_ms(),
            match command {
                ProofBuilderCommand::InitProof(local, batch_id, return_channel) => {
                    let state = seeded(
                        verifier.committee(),
                        local@,
                        batch_id,
                        return_channel,
                        deadline_after(now_ms, old(self).spec_timeout_ms()),
                    );
                    if total_power(verifier.committee(), state.signers) >= verifier.quorum() {
                        &&& reply matches Some(r)
                        &&& is_proof_reply(r, local@.digest, state)
                        &&& is_quorum(verifier.committee(), verifier.quorum(), state.signers)
                        &&& final(self).open_proofs() == old(self).open_proofs().remove(
                            local@.digest,
                        )
                    } else {
                        &&& reply is None
                        &&& final(self).open_proofs() == old(self).open_proofs().insert(
                            local@.digest,
                            state,
                        )
                    }
                },
                ProofBuilderCommand::AppendSignature(signed) => {
                    let d = signed@.digest;
                    let open = old(self).open_proofs();
                    if open.contains_key(d) && counts(
                        open[d],
                        verifier.committee(),
                        signed@,
                        signature_valid,
                    ) {
                        let state = with_vote(open[d], signed@);
                        if total_power(verifier.committee(), state.signers) >= verifier.quorum() {
                            &&& reply matches Some(r)
                            &&& is_proof_reply(r, d, state)
                            &&& is_quorum(verifier.committee(), verifier.quorum(), state.signers)
                            &&& final(self).open_proofs() == open.remove(d)
                        } else {
                            &&& reply is None
                            &&& final(self).open_proofs() == open.insert(d, state)
                        }
                    } else {
                        &&& reply is None
                        &&& final(self).open_proofs() == open
                    }
                },
            },
    {
        match command {
            ProofBuilderCommand::InitProof(local, batch_id, return_channel) => {
                self.init_proof(verifier, local, batch_id, return_channel, now_ms)
            },
            ProofBuilderCommand::AppendSignature(signed) => {
                self.add_signature(verifier, signed, signature_valid)
            },
        }
    }
}

} // verus!
