use candidate_backing::backed::table_attested_to_backed;
use candidate_backing::bitfield::{max_bits, Bitfield};
use candidate_backing::context::TableContext;
use candidate_backing::primitives::{
    CandidateDescriptor, CandidateHash, CandidateReceipt, CommittedCandidateReceipt, ParaId,
    PublicKey, Signature, ValidatorIndex, ValidityAttestation, H256,
};
use candidate_backing::table::AttestedCandidate;
use std::sync::Arc;

fn hash(n: u128) -> H256 {
    H256 { hi: 0, lo: n }
}

fn sig(n: u128) -> Signature {
    Signature { q0: 0, q1: 0, q2: 0, q3: n }
}

fn candidate(n: u128, para: u32) -> CommittedCandidateReceipt {
    CommittedCandidateReceipt {
        receipt: CandidateReceipt {
            hash: CandidateHash(hash(n)),
            descriptor: CandidateDescriptor {
                para_id: ParaId(para),
                relay_parent: hash(1000),
                collator: PublicKey { hi: 0, lo: 7 },
                persisted_validation_data_hash: hash(n + 1),
                pov_hash: hash(n + 2),
                erasure_root: hash(n + 3),
                signature: sig(9),
                para_head: hash(n + 4),
                validation_code_hash: hash(n + 5),
            },
            commitments_hash: hash(n + 6),
        },
        commitments: Arc::new(vec![4, 5]),
    }
}

fn context(group: Vec<u32>) -> TableContext {
    let mut ctx = TableContext::new(None, Vec::new());
    ctx.set_group(ParaId(1), group.into_iter().map(ValidatorIndex).collect());
    ctx
}

fn attested(votes: Vec<(u32, ValidityAttestation)>) -> AttestedCandidate {
    AttestedCandidate {
        group_id: ParaId(1),
        candidate: candidate(10, 1),
        validity_votes: votes.into_iter().map(|(v, a)| (ValidatorIndex(v), a)).collect(),
    }
}

#[test]
fn bits_start_cleared_and_can_be_set() {
    let mut bits = Bitfield::zeros(5).expect("five bits fit");
    assert_eq!(bits.len(), 5);
    assert_eq!(bits.to_vec(), vec![false, false, false, false, false]);
    assert!(bits.set(3));
    assert!(bits.set(0));
    assert!(!bits.set(5));
    assert_eq!(bits.len(), 5);
    assert_eq!(bits.to_vec(), vec![true, false, false, true, false]);
    assert_eq!(bits.get(0), Some(true));
    assert_eq!(bits.get(1), Some(false));
    assert_eq!(bits.get(3), Some(true));
    assert_eq!(bits.get(5), None);
}

#[test]
fn an_empty_bit_vector_has_no_bits() {
    let mut bits = Bitfield::zeros(0).expect("no bits fit");
    assert_eq!(bits.len(), 0);
    assert_eq!(bits.to_vec(), Vec::<bool>::new());
    assert_eq!(bits.get(0), None);
    assert!(!bits.set(0));
}

#[test]
fn a_bit_vector_beyond_the_limit_is_refused() {
    assert_eq!(max_bits(), usize::MAX / 8);
    assert!(Bitfield::zeros(max_bits() + 1).is_none());
    assert!(Bitfield::zeros(usize::MAX).is_none());
}

#[test]
fn votes_are_sorted_into_group_order() {
    let ctx = context(vec![7, 5, 9, 3]);
    let backed = table_attested_to_backed(
        attested(vec![
            (3, ValidityAttestation::Explicit(sig(30))),
            (7, ValidityAttestation::Implicit(sig(70))),
            (9, ValidityAttestation::Explicit(sig(90))),
        ]),
        &ctx,
    )
    .expect("all voters are in the group");
    assert_eq!(backed.candidate, candidate(10, 1));
    assert_eq!(backed.validator_indices.to_vec(), vec![true, false, true, true]);
    assert_eq!(
        backed.validity_votes,
        vec![
            ValidityAttestation::Implicit(sig(70)),
            ValidityAttestation::Explicit(sig(90)),
            ValidityAttestation::Explicit(sig(30)),
        ]
    );
    let set_bits = backed.validator_indices.to_vec().into_iter().filter(|b| *b).count();
    assert_eq!(set_bits, backed.validity_votes.len());
}

#[test]
fn a_vote_from_outside_the_group_gives_no_backed_candidate() {
    let ctx = context(vec![7, 5, 9, 3]);
    assert!(table_attested_to_backed(
        attested(vec![
            (7, ValidityAttestation::Implicit(sig(70))),
            (8, ValidityAttestation::Explicit(sig(80))),
        ]),
        &ctx,
    )
    .is_none());
}

#[test]
fn a_parachain_without_a_group_gives_no_backed_candidate() {
    let mut ctx = TableContext::new(None, Vec::new());
    ctx.set_group(ParaId(2), vec![ValidatorIndex(7)]);
    assert!(table_attested_to_backed(
        attested(vec![(7, ValidityAttestation::Implicit(sig(70)))]),
        &ctx
    )
    .is_none());
}

#[test]
fn no_votes_give_an_empty_backed_candidate() {
    let ctx = context(vec![1, 2]);
    let backed = table_attested_to_backed(attested(Vec::new()), &ctx).expect("nothing to refuse");
    assert_eq!(backed.validator_indices.to_vec(), vec![false, false]);
    assert!(backed.validity_votes.is_empty());
}

#[test]
fn a_member_listed_twice_counts_where_it_stands_first() {
    let ctx = context(vec![4, 6, 4]);
    let backed = table_attested_to_backed(
        attested(vec![
            (6, ValidityAttestation::Explicit(sig(60))),
            (4, ValidityAttestation::Implicit(sig(40))),
        ]),
        &ctx,
    )
    .expect("all voters are in the group");
    assert_eq!(backed.validator_indices.to_vec(), vec![true, true, false]);
    assert_eq!(
        backed.validity_votes,
        vec![ValidityAttestation::Implicit(sig(40)), ValidityAttestation::Explicit(sig(60))]
    );
}
