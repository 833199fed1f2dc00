//! Plain data shared by every stage of the quorum store.

use vstd::prelude::*;

verus! {

/// Identifier of a batch, chosen by its producer.
pub type BatchId = u64;

/// Consensus round number within an epoch.
pub type Round = u64;

/// An ordered sequence of transaction blobs.
pub type Data = Vec<Vec<u8>>;

/// A 32-byte cryptographic hash; the identity of a batch.
#[derive(Clone, Copy, Debug, PartialEq, Eq, Hash)]
pub struct HashValue {
    pub bytes: [u8; 32],
}

impl View for HashValue {
    type V = Seq<u8>;

    open spec fn view(&self) -> Seq<u8> {
        self.bytes@
    }
}

impl HashValue {
    /// Byte-wise equality.
    pub fn same(&self, other: &HashValue) -> (r: bool)
        ensures
            r == (self@ == other@),
    {
        let mut i: usize = 0;
        while i < 32
            invariant
                i <= 32,
                forall|j: int| 0 <= j < i ==> self.bytes@[j] == other.bytes@[j],
            decreases 32 - i,
        {
            if self.bytes[i] != other.bytes[i] {
                return false;
            }
            i += 1;
        }
        assert(self.bytes@ =~= other.bytes@);
        true
    }
}

/// Identity of a validator.
#[derive(Clone, Copy, Debug, PartialEq, Eq, Hash)]
pub struct PeerId {
    pub bytes: [u8; 32],
}

impl View for PeerId {
    type V = Seq<u8>;

    open spec fn view(&self) -> Seq<u8> {
        self.bytes@
    }
}

impl PeerId {
    /// Byte-wise equality.
    pub fn same(&self, other: &PeerId) -> (r: bool)
        ensures
            r == (self@ == other@),
    {
        let mut i: usize = 0;
        while i < 32
            invariant
                i <= 32,
                forall|j: int| 0 <= j < i ==> self.bytes@[j] == other.bytes@[j],
            decreases 32 - i,
        {
            if self.bytes[i] != other.bytes[i] {
                return false;
            }
            i += 1;
        }
        assert(self.bytes@ =~= other.bytes@);
        true
    }
}

/// A point in logical time: an epoch and a round within it.
#[derive(Clone, Copy, Debug, PartialEq, Eq, Structural, PartialOrd, Ord, Hash)]
pub struct LogicalTime {
    pub epoch: u64,
    pub round: Round,
}

impl LogicalTime {
    /// Lexicographic order on `(epoch, round)`.
    pub open spec fn spec_lt(self, other: LogicalTime) -> bool {
        self.epoch < other.epoch || (self.epoch == other.epoch && self.round < other.round)
    }

    pub fn new(epoch: u64, round: Round) -> (t: LogicalTime)
        ensures
            t.epoch == epoch,
            t.round == round,
    {
        LogicalTime { epoch, round }
    }

    pub fn epoch(&self) -> (e: u64)
        ensures
            e == self.epoch,
    {
        self.epoch
    }

    pub fn round(&self) -> (r: Round)
        ensures
            r == self.round,
    {
        self.round
    }

    /// Whether `self` comes strictly before `other`.
    pub fn is_before(&self, other: &LogicalTime) -> (r: bool)
        ensures
            r == self.spec_lt(*other),
    {
        self.epoch < other.epoch || (self.epoch == other.epoch && self.round < other.round)
    }
}

/// The order on logical time is total: of two distinct times exactly one
/// comes before the other.
pub proof fn logical_time_order_total(a: LogicalTime, b: LogicalTime)
    ensures
        a.spec_lt(b) || b.spec_lt(a) || a == b,
        !(a.spec_lt(b) && b.spec_lt(a)),
        !a.spec_lt(a),
{
}

/// The order on logical time is transitive.
pub proof fn logical_time_order_transitive(a: LogicalTime, b: LogicalTime, c: LogicalTime)
    requires
        a.spec_lt(b),
        b.spec_lt(c),
    ensures
        a.spec_lt(c),
{
}

/// The blobs of `d`, each as a sequence of bytes.
pub open spec fn blobs(d: Data) -> Seq<Seq<u8>> {
    d.deep_view()
}

/// All blobs of a payload laid end to end.
pub open spec fn concat(p: Seq<Seq<u8>>) -> Seq<u8> {
    p.flatten()
}

/// A copy of a payload, blob for blob.
pub fn clone_data(d: &Data) -> (r: Data)
    ensures
        r.deep_view() == d.deep_view(),
{
    let r = d.clone();
    assert(r.deep_view() =~= d.deep_view()) by {
        assert forall|i: int| 0 <= i < d.len() implies r[i]@ == d[i]@ by {
            assert(cloned::<Vec<u8>>(d[i], r[i]));
        }
    }
    r
}

} // verus!
