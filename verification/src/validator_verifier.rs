//! The committee of an epoch: who may sign, with what weight, and how much
//! weight makes a quorum.

use crate::messages::peer_views;
use crate::types::PeerId;
use vstd::prelude::*;

verus! {

/// A member of the committee.
#[derive(Clone, Copy, Debug)]
pub struct ValidatorInfo {
    pub address: PeerId,
    pub voting_power: u64,
}

/// Why a set of signers does not make a quorum.
#[derive(Clone, Copy, Debug, PartialEq, Eq, Structural)]
pub enum VerifyError {
    /// A signer is not in the committee.
    UnknownAuthor,
    /// A signer is listed twice.
    DuplicateAuthor,
    /// The signers' weight is below the quorum.
    TooLittleVotingPower,
}

/// The weight of `who` in `committee`: that of its first entry, and zero
/// for one who is not a member.
pub open spec fn power_in(committee: Seq<ValidatorInfo>, who: Seq<u8>) -> nat
    decreases committee.len(),
{
    if committee.len() == 0 {
        0
    } else if committee.first().address@ == who {
        committee.first().voting_power as nat
    } else {
        power_in(committee.drop_first(), who)
    }
}

/// Whether `who` is in `committee`.
pub open spec fn member_of(committee: Seq<ValidatorInfo>, who: Seq<u8>) -> bool {
    exists|i: int| 0 <= i < committee.len() && #[trigger] committee[i].address@ == who
}

/// The weights of `signers` in `committee`, added up.
pub open spec fn total_power(committee: Seq<ValidatorInfo>, signers: Seq<Seq<u8>>) -> nat
    decreases signers.len(),
{
    if signers.len() == 0 {
        0
    } else {
        total_power(committee, signers.drop_last()) + power_in(committee, signers.last())
    }
}

/// No signer occurs twice.
pub open spec fn distinct(signers: Seq<Seq<u8>>) -> bool {
    forall|i: int, j: int| 0 <= i < j < signers.len() ==> signers[i] != signers[j]
}

/// Every signer is in the committee.
pub open spec fn all_members(committee: Seq<ValidatorInfo>, signers: Seq<Seq<u8>>) -> bool {
    forall|i: int| 0 <= i < signers.len() ==> member_of(committee, #[trigger] signers[i])
}

/// The signers are distinct members of the committee whose weights add up
/// to the quorum or more.
pub open spec fn is_quorum(
    committee: Seq<ValidatorInfo>,
    quorum: nat,
    signers: Seq<Seq<u8>>,
) -> bool {
    &&& distinct(signers)
    &&& all_members(committee, signers)
    &&& total_power(committee, signers) >= quorum
}

/// What checking `signers` against the committee yields: of several faults
/// the first in the order unknown signer, signer listed twice, too little
/// weight.
pub open spec fn check_outcome(
    committee: Seq<ValidatorInfo>,
    quorum: nat,
    signers: Seq<Seq<u8>>,
) -> Result<(), VerifyError> {
    if !all_members(committee, signers) {
        Err(VerifyError::UnknownAuthor)
    } else if !distinct(signers) {
        Err(VerifyError::DuplicateAuthor)
    } else if total_power(committee, signers) < quorum {
        Err(VerifyError::TooLittleVotingPower)
    } else {
        Ok(())
    }
}

/// A weight is at most the largest 64-bit number.
pub proof fn power_in_bounded(committee: Seq<ValidatorInfo>, who: Seq<u8>)
    ensures
        power_in(committee, who) <= u64::MAX,
    decreases committee.len(),
{
    if committee.len() > 0 && committee.first().address@ != who {
        power_in_bounded(committee.drop_first(), who);
    }
}

/// The weights of `n` signers add up to at most `n` times the largest
/// 64-bit number.
pub proof fn total_power_bounded(committee: Seq<ValidatorInfo>, signers: Seq<Seq<u8>>)
    ensures
        total_power(committee, signers) <= signers.len() * u64::MAX,
    decreases signers.len(),
{
    if signers.len() > 0 {
        total_power_bounded(committee, signers.drop_last());
        power_in_bounded(committee, signers.last());
        assert((signers.len() - 1) * u64::MAX + u64::MAX == signers.len() * u64::MAX)
            by (nonlinear_arith);
    }
}

/// Adding a signer adds its weight.
pub proof fn total_power_push(committee: Seq<ValidatorInfo>, signers: Seq<Seq<u8>>, who: Seq<u8>)
    ensures
        total_power(committee, signers.push(who)) == total_power(committee, signers) + power_in(
            committee,
            who,
        ),
{
    assert(signers.push(who).drop_last() =~= signers);
}

/// The committee of an epoch.
#[derive(Clone, Debug)]
pub struct ValidatorVerifier {
    validators: Vec<ValidatorInfo>,
    quorum_voting_power: u128,
}

impl ValidatorVerifier {
    /// The members with their weights.
    pub closed spec fn committee(&self) -> Seq<ValidatorInfo> {
        self.validators@
    }

    /// The weight that makes a quorum.
    pub closed spec fn quorum(&self) -> nat {
        self.quorum_voting_power as nat
    }

    /// The weight of `who`, zero for one who is not a member.
    pub open spec fn spec_voting_power(&self, who: Seq<u8>) -> nat {
        power_in(self.committee(), who)
    }

    /// Whether `who` is a member.
    pub open spec fn spec_is_member(&self, who: Seq<u8>) -> bool {
        member_of(self.committee(), who)
    }

    /// Whether `signers` make a quorum.
    pub open spec fn spec_is_quorum(&self, signers: Seq<Seq<u8>>) -> bool {
        is_quorum(self.committee(), self.quorum(), signers)
    }

    pub fn new(validators: Vec<ValidatorInfo>, quorum_voting_power: u128) -> (v: ValidatorVerifier)
        ensures
            v.committee() == validators@,
            v.quorum() == quorum_voting_power,
    {
        ValidatorVerifier { validators, quorum_voting_power }
    }

    /// The weight that makes a quorum.
    pub fn quorum_voting_power(&self) -> (q: u128)
        ensures
            q == self.quorum(),
    {
        self.quorum_voting_power
    }

    /// The number of members.
    pub fn len(&self) -> (n: usize)
        ensures
            n == self.committee().len(),
    {
        self.validators.len()
    }

    /// The weight of `who`, or `None` for one who is not a member.
    pub fn get_voting_power(&self, who: &PeerId) -> (p: Option<u64>)
        ensures
            p is Some == self.spec_is_member(who@),
            p matches Some(w) ==> w == self.spec_voting_power(who@),
    {
        let mut i: usize = 0;
        assert(self.validators@.subrange(0, self.validators@.len() as int) =~= self.validators@);
        while i < self.validators.len()
            invariant
                i <= self.validators@.len(),
                forall|j: int| 0 <= j < i ==> self.validators@[j].address@ != who@,
                power_in(self.validators@, who@) == power_in(
                    self.validators@.subrange(i as int, self.validators@.len() as int),
                    who@,
                ),
            decreases self.validators@.len() - i,
        {
            let ghost rest = self.validators@.subrange(i as int, self.validators@.len() as int);
            assert(rest.first() == self.validators@[i as int]);
            assert(rest.drop_first() =~= self.validators@.subrange(
                i + 1 as int,
                self.validators@.len() as int,
            ));
            if self.validators[i].address.same(who) {
                return Some(self.validators[i].voting_power);
            }
            i += 1;
        }
        None
    }
}

/// Whether `who` is among the first `n` of `signers`.
pub fn listed_before(signers: &Vec<PeerId>, n: usize, who: &PeerId) -> (r: bool)
    requires
        n <= signers@.len(),
    ensures
        r == (exists|j: int| 0 <= j < n && (#[trigger] signers@[j])@ == who@),
{
    let mut j: usize = 0;
    while j < n
        invariant
            j <= n <= signers@.len(),
            forall|k: int| 0 <= k < j ==> (#[trigger] signers@[k])@ != who@,
        decreases n - j,
    {
        if signers[j].same(who) {
            return true;
        }
        j += 1;
    }
    false
}

impl ValidatorVerifier {
    /// Checks that `signers` make a quorum: that each is a member, that none
    /// is listed twice, and that their weights add up to the quorum or more.
    /// Of several faults the first in this order is reported.
    pub fn check_voting_power(&self, signers: &Vec<PeerId>) -> (r: Result<(), VerifyError>)
        ensures
            r == check_outcome(self.committee(), self.quorum(), peer_views(signers@)),
            r is Ok == self.spec_is_quorum(peer_views(signers@)),
    {
        let ghost views = peer_views(signers@);
        let n = signers.len();
        let mut total: u128 = 0;
        let mut i: usize = 0;
        while i < n
            invariant
                n == signers@.len(),
                views == peer_views(signers@),
                i <= n,
                all_members(self.committee(), views.subrange(0, i as int)),
                total == total_power(self.committee(), views.subrange(0, i as int)),
            decreases n - i,
        {
            let ghost done = views.subrange(0, i as int);
            proof {
                assert(views.subrange(0, i + 1 as int) =~= done.push(views[i as int]));
                total_power_push(self.committee(), done, views[i as int]);
                total_power_bounded(self.committee(), done.push(views[i as int]));
                assert((i + 1) * u64::MAX <= usize::MAX * u64::MAX) by (nonlinear_arith)
                    requires
                        i + 1 <= usize::MAX,
                ;
                assert(usize::MAX * u64::MAX < u128::MAX) by (nonlinear_arith)
                    requires
                        usize::MAX <= u64::MAX,
                        u64::MAX == 0xffff_ffff_ffff_ffff,
                        u128::MAX == 0xffff_ffff_ffff_ffff_ffff_ffff_ffff_ffff,
                ;
            }
            match self.get_voting_power(&signers[i]) {
                Some(w) => {
                    total = total + w as u128;
                },
                None => {
                    assert(!member_of(self.committee(), views[i as int]));
                    return Err(VerifyError::UnknownAuthor);
                },
            }
            proof {
                let next = done.push(views[i as int]);
                assert forall|k: int| 0 <= k < next.len() implies member_of(
                    self.committee(),
                    #[trigger] next[k],
                ) by {
                    if k < done.len() {
                        assert(next[k] == done[k]);
                    }
                }
            }
            i += 1;
        }
        assert(views.subrange(0, n as int) =~= views);
        let mut a: usize = 0;
        while a < n
            invariant
                n == signers@.len(),
                views == peer_views(signers@),
                a <= n,
                all_members(self.committee(), views),
                total == total_power(self.committee(), views),
                forall|x: int, y: int| 0 <= x < y < a ==> views[x] != views[y],
            decreases n - a,
        {
            if listed_before(signers, a, &signers[a]) {
                let ghost x = choose|j: int| 0 <= j < a && (#[trigger] signers@[j])@ == signers@[a as int]@;
                assert(views[x] == views[a as int]);
                assert(!distinct(views));
                return Err(VerifyError::DuplicateAuthor);
            }
            assert forall|x: int, y: int| 0 <= x < y < a + 1 implies views[x] != views[y] by {
                if y == a {
                    assert(signers@[x]@ != signers@[a as int]@);
                }
            }
            a += 1;
        }
        if total < self.quorum_voting_power {
            return Err(VerifyError::TooLittleVotingPower);
        }
        Ok(())
    }
}

/// The addresses of the committee but `me`, in their order.
pub open spec fn others(committee: Seq<ValidatorInfo>, me: Seq<u8>) -> Seq<Seq<u8>>
    decreases committee.len(),
{
    if committee.len() == 0 {
        Seq::empty()
    } else if committee.last().address@ == me {
        others(committee.drop_last(), me)
    } else {
        others(committee.drop_last(), me).push(committee.last().address@)
    }
}

/// There are at most as many others as members.
pub proof fn others_len(committee: Seq<ValidatorInfo>, me: Seq<u8>)
    ensures
        others(committee, me).len() <= committee.len(),
    decreases committee.len(),
{
    if committee.len() > 0 {
        others_len(committee.drop_last(), me);
    }
}

impl ValidatorVerifier {
    /// The addresses of the committee but `me`, in their order.
    pub fn addresses_except(&self, me: &PeerId) -> (out: Vec<PeerId>)
        ensures
            peer_views(out@) == others(self.committee(), me@),
            out@.len() <= self.committee().len(),
    {
        let mut out: Vec<PeerId> = Vec::new();
        let mut i: usize = 0;
        assert(peer_views(out@) =~= Seq::<Seq<u8>>::empty());
        assert(self.validators@.subrange(0, 0) =~= Seq::<ValidatorInfo>::empty());
        while i < self.validators.len()
            invariant
                i <= self.validators@.len(),
                peer_views(out@) == others(self.validators@.subrange(0, i as int), me@),
            decreases self.validators@.len() - i,
        {
            let ghost done = self.validators@.subrange(0, i as int);
            let ghost next = self.validators@.subrange(0, i + 1 as int);
            assert(next.drop_last() =~= done);
            assert(next.last() == self.validators@[i as int]);
            let ghost before = peer_views(out@);
            if !self.validators[i].address.same(me) {
                out.push(self.validators[i].address);
                assert(peer_views(out@) =~= before.push(self.validators@[i as int].address@));
            }
            i += 1;
        }
        assert(self.validators@.subrange(0, self.validators@.len() as int) =~= self.validators@);
        proof {
            others_len(self.committee(), me@);
        }
        out
    }
}

} // verus!
