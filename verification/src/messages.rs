//! The messages that the stages of the quorum store exchange with each
//! other and with their peers.

use crate::types::{BatchId, Data, HashValue, LogicalTime, PeerId, Round};
use vstd::prelude::*;

verus! {

/// What a fragment holds, as mathematical values.
pub ghost struct FragmentView {
    pub epoch: u64,
    pub batch_id: BatchId,
    pub fragment_id: nat,
    pub payload: Seq<Seq<u8>>,
    pub maybe_expiration: Option<LogicalTime>,
    pub author: Seq<u8>,
}

/// A chunk of a batch, carried as one message. The fragment that carries an
/// expiration ends its batch.
#[derive(Debug)]
pub struct Fragment {
    pub epoch: u64,
    pub batch_id: BatchId,
    pub fragment_id: usize,
    pub payload: Data,
    pub maybe_expiration: Option<LogicalTime>,
    pub author: PeerId,
}

impl View for Fragment {
    type V = FragmentView;

    open spec fn view(&self) -> FragmentView {
        FragmentView {
            epoch: self.epoch,
            batch_id: self.batch_id,
            fragment_id: self.fragment_id as nat,
            payload: self.payload.deep_view(),
            maybe_expiration: self.maybe_expiration,
            author: self.author@,
        }
    }
}

impl Fragment {
    pub fn new(
        epoch: u64,
        batch_id: BatchId,
        fragment_id: usize,
        payload: Data,
        maybe_expiration: Option<LogicalTime>,
        author: PeerId,
    ) -> (f: Fragment)
        ensures
            f@ == (FragmentView {
                epoch,
                batch_id,
                fragment_id: fragment_id as nat,
                payload: payload.deep_view(),
                maybe_expiration,
                author: author@,
            }),
    {
        Fragment { epoch, batch_id, fragment_id, payload, maybe_expiration, author }
    }

    pub fn epoch(&self) -> (e: u64)
        ensures
            e == self@.epoch,
    {
        self.epoch
    }

    pub fn batch_id(&self) -> (b: BatchId)
        ensures
            b == self@.batch_id,
    {
        self.batch_id
    }

    pub fn fragment_id(&self) -> (i: usize)
        ensures
            i == self@.fragment_id,
    {
        self.fragment_id
    }

    pub fn author(&self) -> (a: PeerId)
        ensures
            a@ == self@.author,
    {
        self.author
    }

    /// Whether this fragment ends its batch.
    pub fn is_terminator(&self) -> (r: bool)
        ensures
            r == self@.maybe_expiration.is_some(),
    {
        self.maybe_expiration.is_some()
    }
}

/// What a persist request holds, as mathematical values.
pub ghost struct PersistRequestView {
    pub author: Seq<u8>,
    pub batch_id: BatchId,
    pub payload: Seq<Seq<u8>>,
    pub digest: Seq<u8>,
    pub num_bytes: nat,
    pub expiration: LogicalTime,
}

/// A closed batch on its way to the batch store.
#[derive(Debug)]
pub struct PersistRequest {
    pub author: PeerId,
    pub batch_id: BatchId,
    pub payload: Data,
    pub digest: HashValue,
    pub num_bytes: usize,
    pub expiration: LogicalTime,
}

impl View for PersistRequest {
    type V = PersistRequestView;

    open spec fn view(&self) -> PersistRequestView {
        PersistRequestView {
            author: self.author@,
            batch_id: self.batch_id,
            payload: self.payload.deep_view(),
            digest: self.digest@,
            num_bytes: self.num_bytes as nat,
            expiration: self.expiration,
        }
    }
}

impl PersistRequest {
    pub fn new(
        author: PeerId,
        batch_id: BatchId,
        payload: Data,
        digest: HashValue,
        num_bytes: usize,
        expiration: LogicalTime,
    ) -> (r: PersistRequest)
        ensures
            r@ == (PersistRequestView {
                author: author@,
                batch_id,
                payload: payload.deep_view(),
                digest: digest@,
                num_bytes: num_bytes as nat,
                expiration,
            }),
    {
        PersistRequest { author, batch_id, payload, digest, num_bytes, expiration }
    }
}

/// What a signed digest holds, as mathematical values.
pub ghost struct SignedDigestView {
    pub signer: Seq<u8>,
    pub epoch: u64,
    pub digest: Seq<u8>,
    pub expiration: LogicalTime,
    pub signature: Seq<u8>,
}

/// A validator's statement that it holds the batch with this digest.
#[derive(Debug)]
pub struct SignedDigest {
    pub signer: PeerId,
    pub epoch: u64,
    pub digest: HashValue,
    pub expiration: LogicalTime,
    pub signature: Vec<u8>,
}

impl View for SignedDigest {
    type V = SignedDigestView;

    open spec fn view(&self) -> SignedDigestView {
        SignedDigestView {
            signer: self.signer@,
            epoch: self.epoch,
            digest: self.digest@,
            expiration: self.expiration,
            signature: self.signature@,
        }
    }
}

impl SignedDigest {
    pub fn new(
        signer: PeerId,
        epoch: u64,
        digest: HashValue,
        expiration: LogicalTime,
        signature: Vec<u8>,
    ) -> (s: SignedDigest)
        ensures
            s@ == (SignedDigestView {
                signer: signer@,
                epoch,
                digest: digest@,
                expiration,
                signature: signature@,
            }),
    {
        SignedDigest { signer, epoch, digest, expiration, signature }
    }
}

/// What a proof of store holds, as mathematical values.
pub ghost struct ProofOfStoreView {
    pub digest: Seq<u8>,
    pub expiration: LogicalTime,
    pub signers: Seq<Seq<u8>>,
    pub signatures: Seq<Seq<u8>>,
}

/// A digest with the signatures of validators that hold its batch.
#[derive(Debug)]
pub struct ProofOfStore {
    pub digest: HashValue,
    pub expiration: LogicalTime,
    pub signers: Vec<PeerId>,
    pub signatures: Vec<Vec<u8>>,
}

/// The identities in `peers`, each as a sequence of bytes.
pub open spec fn peer_views(peers: Seq<PeerId>) -> Seq<Seq<u8>> {
    peers.map_values(|p: PeerId| p@)
}

impl View for ProofOfStore {
    type V = ProofOfStoreView;

    open spec fn view(&self) -> ProofOfStoreView {
        ProofOfStoreView {
            digest: self.digest@,
            expiration: self.expiration,
            signers: peer_views(self.signers@),
            signatures: self.signatures.deep_view(),
        }
    }
}

/// Handle of the one-shot channel on which a producer awaits the proof of
/// its batch, or the failure to build one.
pub type ProofReturnChannel = u64;

/// A message between validators.
#[derive(Debug)]
pub enum ConsensusMsg {
    /// A fragment of a batch.
    FragmentMsg(Fragment),
    /// A validator's signature over a digest.
    SignedDigestMsg(SignedDigest),
    /// A proof of store that some validator built.
    ProofOfStoreMsg(ProofOfStore),
    /// A request for the batch with this digest.
    BatchRequestMsg(HashValue),
    /// The batch that was asked for: its digest, its number, its payload and
    /// its author.
    BatchResponseMsg(HashValue, BatchId, Data, PeerId),
}

/// A command to the batch store.
#[derive(Debug)]
pub enum BatchStoreCommand {
    /// Persist a closed batch. The flag says whether the sender awaits the
    /// local signed digest in reply.
    Persist(PersistRequest, bool),
    /// The round up to which consensus has committed.
    Clean(Round),
    /// A peer asks for the batch with this digest.
    BatchRequest(PeerId, HashValue),
    /// A peer answers a request: digest, number of the batch, payload,
    /// author.
    BatchResponse(HashValue, BatchId, Data, PeerId),
}

/// A command to the proof builder.
#[derive(Debug)]
pub enum ProofBuilderCommand {
    /// Open the aggregation for a digest with the local signature.
    InitProof(SignedDigest, BatchId, ProofReturnChannel),
    /// Add a peer's signature.
    AppendSignature(SignedDigest),
}

} // verus!
