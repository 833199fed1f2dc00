use quorum_store::messages::{ProofBuilderCommand, SignedDigest};
use quorum_store::proof_builder::ProofBuilder;
use quorum_store::quorum_store::QuorumStoreError;
use quorum_store::types::{HashValue, LogicalTime, PeerId};
use quorum_store::validator_verifier::{listed_before, ValidatorInfo, ValidatorVerifier, VerifyError};

fn peer(n: u8) -> PeerId {
    PeerId { bytes: [n; 32] }
}

fn committee(members: &[(u8, u64)], quorum: u128) -> ValidatorVerifier {
    let validators = members
        .iter()
        .map(|(n, w)| ValidatorInfo { address: peer(*n), voting_power: *w })
        .collect();
    ValidatorVerifier::new(validators, quorum)
}

fn digest(n: u8) -> HashValue {
    HashValue { bytes: [n; 32] }
}

fn signed(signer: u8, epoch: u64, d: u8) -> SignedDigest {
    SignedDigest::new(peer(signer), epoch, digest(d), LogicalTime::new(epoch, 100), vec![signer])
}

#[test]
fn voting_power_is_that_of_the_member() {
    let v = committee(&[(1, 10), (2, 20), (3, 30)], 41);
    assert_eq!(v.get_voting_power(&peer(2)), Some(20));
    assert_eq!(v.get_voting_power(&peer(4)), None);
    assert_eq!(v.quorum_voting_power(), 41);
    assert_eq!(v.len(), 3);
    assert_eq!(v.addresses_except(&peer(2)), vec![peer(1), peer(3)]);
    assert_eq!(v.addresses_except(&peer(9)), vec![peer(1), peer(2), peer(3)]);
}

#[test]
fn first_entry_of_a_member_counts() {
    let v = committee(&[(1, 10), (1, 99)], 5);
    assert_eq!(v.get_voting_power(&peer(1)), Some(10));
}

#[test]
fn check_voting_power_names_the_first_fault() {
    let v = committee(&[(1, 10), (2, 20), (3, 30)], 41);
    assert_eq!(v.check_voting_power(&vec![peer(2), peer(3)]), Ok(()));
    assert_eq!(v.check_voting_power(&vec![peer(1), peer(3)]), Err(VerifyError::TooLittleVotingPower));
    assert_eq!(v.check_voting_power(&vec![peer(1), peer(2), peer(3)]), Ok(()));
    assert_eq!(v.check_voting_power(&vec![peer(3), peer(3)]), Err(VerifyError::DuplicateAuthor));
    assert_eq!(v.check_voting_power(&vec![peer(3), peer(4)]), Err(VerifyError::UnknownAuthor));
    assert_eq!(v.check_voting_power(&vec![peer(4), peer(4)]), Err(VerifyError::UnknownAuthor));
    assert_eq!(v.check_voting_power(&vec![]), Err(VerifyError::TooLittleVotingPower));
    assert_eq!(committee(&[], 0).check_voting_power(&vec![]), Ok(()));
}

#[test]
fn weights_add_up_without_overflow() {
    let v = committee(&[(1, u64::MAX), (2, u64::MAX), (3, 1)], 2 * (u64::MAX as u128) + 1);
    assert_eq!(v.check_voting_power(&vec![peer(1), peer(2)]), Err(VerifyError::TooLittleVotingPower));
    assert_eq!(v.check_voting_power(&vec![peer(1), peer(2), peer(3)]), Ok(()));
}

#[test]
fn listed_before_looks_at_the_first_n() {
    let s = vec![peer(1), peer(2), peer(3)];
    assert!(listed_before(&s, 3, &peer(3)));
    assert!(!listed_before(&s, 2, &peer(3)));
    assert!(!listed_before(&s, 0, &peer(1)));
}

#[test]
fn proof_comes_exactly_when_the_quorum_is_reached() {
    let v = committee(&[(1, 10), (2, 20), (3, 30), (4, 40)], 61);
    let mut b = ProofBuilder::new(1000);
    assert!(b.init_proof(&v, signed(1, 2, 9), 7, 55, 0).is_none());
    assert!(b.add_signature(&v, signed(2, 2, 9), true).is_none());
    // 10 + 20 + 30 = 60 is one short
    assert!(b.add_signature(&v, signed(3, 2, 9), true).is_none());
    assert!(b.is_open(&v, &digest(9)));
    let reply = b.add_signature(&v, signed(4, 2, 9), true).expect("quorum");
    assert_eq!(reply.channel, 55);
    let (proof, batch_id) = reply.result.expect("proof");
    assert_eq!(batch_id, 7);
    assert_eq!(proof.digest, digest(9));
    assert_eq!(proof.expiration, LogicalTime::new(2, 100));
    assert_eq!(proof.signers, vec![peer(1), peer(2), peer(3), peer(4)]);
    assert_eq!(proof.signatures, vec![vec![1], vec![2], vec![3], vec![4]]);
    // what went out is a quorum under the committee
    assert_eq!(v.check_voting_power(&proof.signers), Ok(()));
    assert!(!b.is_open(&v, &digest(9)));
    assert_eq!(b.num_open(), 0);
}

#[test]
fn signatures_that_do_not_count_are_ignored() {
    let v = committee(&[(1, 10), (2, 20), (3, 30)], 30);
    let mut b = ProofBuilder::new(1000);
    assert!(b.init_proof(&v, signed(1, 2, 9), 7, 55, 0).is_none());
    // unknown digest
    assert!(b.add_signature(&v, signed(2, 2, 8), true).is_none());
    // the signer has signed already
    assert!(b.add_signature(&v, signed(1, 2, 9), true).is_none());
    // another epoch
    assert!(b.add_signature(&v, signed(2, 3, 9), true).is_none());
    // the signature does not verify
    assert!(b.add_signature(&v, signed(2, 2, 9), false).is_none());
    // the signer is not in the committee
    assert!(b.add_signature(&v, signed(5, 2, 9), true).is_none());
    assert_eq!(b.num_open(), 1);
    // none of them was counted: 10 + 20 makes the quorum only now
    let reply = b.add_signature(&v, signed(2, 2, 9), true).expect("quorum");
    let (proof, _) = reply.result.expect("proof");
    assert_eq!(proof.signers, vec![peer(1), peer(2)]);
}

#[test]
fn local_signer_outside_the_committee_opens_without_a_vote() {
    let v = committee(&[(2, 20), (3, 30)], 20);
    let mut b = ProofBuilder::new(1000);
    assert!(b.init_proof(&v, signed(1, 2, 9), 7, 55, 0).is_none());
    let reply = b.add_signature(&v, signed(2, 2, 9), true).expect("quorum");
    let (proof, _) = reply.result.expect("proof");
    assert_eq!(proof.signers, vec![peer(2)]);
}

#[test]
fn opening_again_replaces_the_aggregation() {
    let v = committee(&[(1, 10), (2, 20)], 30);
    let mut b = ProofBuilder::new(1000);
    assert!(b.init_proof(&v, signed(1, 2, 9), 7, 55, 0).is_none());
    assert!(b.init_proof(&v, signed(1, 2, 9), 8, 56, 0).is_none());
    assert_eq!(b.num_open(), 1);
    let reply = b.add_signature(&v, signed(2, 2, 9), true).expect("quorum");
    assert_eq!(reply.channel, 56);
    assert!(matches!(reply.result, Ok((_, 8))));
}

#[test]
fn only_what_is_due_times_out() {
    let v = committee(&[(1, 10), (2, 20)], 30);
    let mut b = ProofBuilder::new(100);
    b.init_proof(&v, signed(1, 2, 1), 11, 1, 0);
    b.init_proof(&v, signed(1, 2, 2), 12, 2, 50);
    b.init_proof(&v, signed(1, 2, 3), 13, 3, 100);
    // a deadline that would pass the largest time stays at it
    b.init_proof(&v, signed(1, 2, 4), 14, 4, u64::MAX - 5);
    assert_eq!(b.num_open(), 4);
    let mut replies = b.expire(&v, 150);
    replies.sort_by_key(|r| r.channel);
    assert_eq!(replies.len(), 2);
    assert_eq!(replies[0].channel, 1);
    assert!(matches!(replies[0].result, Err(QuorumStoreError::Timeout(11))));
    assert_eq!(replies[1].channel, 2);
    assert!(matches!(replies[1].result, Err(QuorumStoreError::Timeout(12))));
    assert!(b.is_open(&v, &digest(3)));
    assert!(b.expire(&v, u64::MAX - 1).len() == 1);
    let replies = b.expire(&v, u64::MAX);
    assert_eq!(replies.len(), 1);
    assert!(matches!(replies[0].result, Err(QuorumStoreError::Timeout(14))));
}

#[test]
fn teardown_closes_everything() {
    let v = committee(&[(1, 10), (2, 20)], 30);
    let mut b = ProofBuilder::new(100);
    b.init_proof(&v, signed(1, 2, 1), 11, 1, 0);
    b.init_proof(&v, signed(1, 2, 2), 12, 2, u64::MAX);
    let mut replies = b.teardown(&v);
    replies.sort_by_key(|r| r.channel);
    assert_eq!(replies.len(), 2);
    assert!(matches!(replies[0].result, Err(QuorumStoreError::Timeout(11))));
    assert!(matches!(replies[1].result, Err(QuorumStoreError::Timeout(12))));
    assert_eq!(b.num_open(), 0);
}

#[test]
fn commands_are_dispatched() {
    let v = committee(&[(1, 10), (2, 20)], 30);
    let mut b = ProofBuilder::new(100);
    let init = ProofBuilderCommand::InitProof(signed(1, 2, 1), 11, 1);
    assert!(b.handle(&v, init, false, 0).is_none());
    let bad = ProofBuilderCommand::AppendSignature(signed(2, 2, 1));
    assert!(b.handle(&v, bad, false, 0).is_none());
    let good = ProofBuilderCommand::AppendSignature(signed(2, 2, 1));
    let reply = b.handle(&v, good, true, 0).expect("quorum");
    assert!(matches!(reply.result, Ok((_, 11))));
}
