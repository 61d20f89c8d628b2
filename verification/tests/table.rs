use candidate_backing::context::{minimum_votes, LocalValidator, TableContext};
use candidate_backing::primitives::{
    CandidateDescriptor, CandidateHash, CandidateReceipt, CommittedCandidateReceipt, ParaId,
    PublicKey, Signature, Statement, ValidatorIndex, H256,
};
use candidate_backing::table::{Misbehavior, SignedStatement, Table};
use std::sync::Arc;

fn hash(n: u128) -> H256 {
    H256 { hi: 0, lo: n }
}

fn key(n: u128) -> PublicKey {
    PublicKey { hi: 0, lo: n }
}

fn sig(n: u128) -> Signature {
    Signature { q0: 0, q1: 0, q2: 0, q3: n }
}

fn candidate(n: u128, para: u32) -> CommittedCandidateReceipt {
    CommittedCandidateReceipt {
        receipt: CandidateReceipt {
            hash: CandidateHash(hash(n)),
            descriptor: CandidateDescriptor {
                para_id: ParaId(para),
                relay_parent: hash(1000),
                collator: key(7),
                persisted_validation_data_hash: hash(n + 1),
                pov_hash: hash(n + 2),
                erasure_root: hash(n + 3),
                signature: sig(9),
                para_head: hash(n + 4),
                validation_code_hash: hash(n + 5),
            },
            commitments_hash: hash(n + 6),
        },
        commitments: Arc::new(vec![1, 2, 3]),
    }
}

fn context() -> TableContext {
    let mut ctx = TableContext::new(
        Some(LocalValidator { index: ValidatorIndex(0), key: key(100) }),
        vec![key(100), key(101), key(102), key(103), key(104)],
    );
    ctx.set_group(ParaId(1), vec![ValidatorIndex(0), ValidatorIndex(1)]);
    ctx.set_group(ParaId(2), vec![ValidatorIndex(2), ValidatorIndex(3), ValidatorIndex(4)]);
    ctx
}

#[test]
fn minimum_votes_is_two_or_the_group_size() {
    assert_eq!(minimum_votes(0), 0);
    assert_eq!(minimum_votes(1), 1);
    assert_eq!(minimum_votes(2), 2);
    assert_eq!(minimum_votes(3), 2);
    assert_eq!(minimum_votes(1000), 2);
}

#[test]
fn seconded_then_valid_reaches_the_threshold() {
    let ctx = context();
    let mut table = Table::new();
    let c = candidate(10, 1);
    let digest = c.hash();
    let first = table.import_statement(
        &ctx,
        SignedStatement { statement: Statement::Seconded(c.clone()), signature: sig(1), sender: ValidatorIndex(0) },
    );
    let first = first.expect("a member's proposal is accepted");
    assert_eq!(first.candidate, digest);
    assert_eq!(first.group_id, ParaId(1));
    assert_eq!(first.validity_votes, 1);
    assert!(table.attested_candidate(&digest, &ctx).is_none());

    let second = table.import_statement(
        &ctx,
        SignedStatement { statement: Statement::Valid(digest), signature: sig(2), sender: ValidatorIndex(1) },
    );
    assert_eq!(second.expect("a member's vote is accepted").validity_votes, 2);
    let attested = table.attested_candidate(&digest, &ctx).expect("two of two votes");
    assert_eq!(attested.candidate, c);
    assert_eq!(attested.validity_votes.len(), 2);
    assert_eq!(attested.validity_votes[0].0, ValidatorIndex(0));
    assert_eq!(attested.validity_votes[1].0, ValidatorIndex(1));
    assert!(table.drain_misbehaviors().is_empty());
}

#[test]
fn a_second_proposal_is_reported() {
    let ctx = context();
    let mut table = Table::new();
    let c = candidate(10, 1);
    let d = candidate(20, 1);
    assert!(table
        .import_statement(
            &ctx,
            SignedStatement { statement: Statement::Seconded(c.clone()), signature: sig(1), sender: ValidatorIndex(1) },
        )
        .is_some());
    assert!(table
        .import_statement(
            &ctx,
            SignedStatement { statement: Statement::Seconded(d.clone()), signature: sig(2), sender: ValidatorIndex(1) },
        )
        .is_none());
    assert!(table.get_candidate(&d.hash()).is_none());
    let reports = table.drain_misbehaviors();
    assert_eq!(reports.len(), 1);
    assert_eq!(reports[0].0, ValidatorIndex(1));
    assert_eq!(
        reports[0].1,
        Misbehavior::MultipleCandidates {
            first: c,
            first_signature: sig(1),
            second: d,
            second_signature: sig(2),
        }
    );
    assert!(table.drain_misbehaviors().is_empty());
}

fn seconded(c: &CommittedCandidateReceipt, signature: u128, sender: u32) -> SignedStatement {
    SignedStatement {
        statement: Statement::Seconded(c.clone()),
        signature: sig(signature),
        sender: ValidatorIndex(sender),
    }
}

fn valid(c: &CommittedCandidateReceipt, signature: u128, sender: u32) -> SignedStatement {
    SignedStatement {
        statement: Statement::Valid(c.hash()),
        signature: sig(signature),
        sender: ValidatorIndex(sender),
    }
}

#[test]
fn a_statement_from_outside_the_group_is_reported() {
    let ctx = context();
    let mut table = Table::new();
    let c = candidate(10, 1);
    // validator 2 belongs to the group of parachain 2
    assert!(table.import_statement(&ctx, seconded(&c, 1, 2)).is_none());
    assert!(table.get_candidate(&c.hash()).is_none());
    let reports = table.drain_misbehaviors();
    assert_eq!(reports.len(), 1);
    assert_eq!(reports[0].0, ValidatorIndex(2));
    assert_eq!(reports[0].1, Misbehavior::UnauthorizedStatement(seconded(&c, 1, 2)));

    assert!(table.import_statement(&ctx, seconded(&c, 1, 0)).is_some());
    assert!(table.import_statement(&ctx, valid(&c, 5, 3)).is_none());
    let reports = table.drain_misbehaviors();
    assert_eq!(reports.len(), 1);
    assert_eq!(reports[0].1, Misbehavior::UnauthorizedStatement(valid(&c, 5, 3)));
}

#[test]
fn a_vote_on_an_unknown_candidate_is_ignored() {
    let ctx = context();
    let mut table = Table::new();
    let c = candidate(10, 1);
    assert!(table.import_statement(&ctx, valid(&c, 1, 0)).is_none());
    assert!(table.drain_misbehaviors().is_empty());
    assert!(table.get_candidate(&c.hash()).is_none());
}

#[test]
fn the_same_statement_twice_changes_nothing() {
    let ctx = context();
    let mut table = Table::new();
    let c = candidate(10, 1);
    assert_eq!(table.import_statement(&ctx, seconded(&c, 1, 0)).map(|s| s.validity_votes), Some(1));
    assert!(table.import_statement(&ctx, seconded(&c, 1, 0)).is_none());
    assert_eq!(table.import_statement(&ctx, valid(&c, 2, 1)).map(|s| s.validity_votes), Some(2));
    assert!(table.import_statement(&ctx, valid(&c, 2, 1)).is_none());
    assert!(table.drain_misbehaviors().is_empty());
    let attested = table.attested_candidate(&c.hash(), &ctx).expect("attested");
    assert_eq!(attested.validity_votes.len(), 2);
}

#[test]
fn a_different_second_vote_is_dropped_and_reported_once() {
    let ctx = context();
    let mut table = Table::new();
    let c = candidate(10, 1);
    assert!(table.import_statement(&ctx, seconded(&c, 1, 0)).is_some());
    assert!(table.import_statement(&ctx, valid(&c, 2, 1)).is_some());

    // proposer also votes valid
    assert!(table.import_statement(&ctx, valid(&c, 3, 0)).is_none());
    // voter votes again under another signature
    assert!(table.import_statement(&ctx, valid(&c, 4, 1)).is_none());
    // proposer proposes again under another signature
    assert!(table.import_statement(&ctx, seconded(&c, 5, 0)).is_none());
    // voter proposes what it voted for
    assert!(table.import_statement(&ctx, seconded(&c, 6, 1)).is_none());

    let reports = table.drain_misbehaviors();
    assert_eq!(reports.len(), 4);
    assert_eq!(
        reports[0],
        (
            ValidatorIndex(0),
            Misbehavior::ValidityDoubleVote {
                candidate: c.clone(),
                issued: sig(1),
                digest: c.hash(),
                valid: sig(3),
            }
        )
    );
    assert_eq!(
        reports[1],
        (
            ValidatorIndex(1),
            Misbehavior::DoubleSignOnValidity { digest: c.hash(), recorded: sig(2), offered: sig(4) }
        )
    );
    assert_eq!(
        reports[2],
        (
            ValidatorIndex(0),
            Misbehavior::DoubleSignOnSeconded { candidate: c.clone(), recorded: sig(1), offered: sig(5) }
        )
    );
    assert_eq!(
        reports[3],
        (
            ValidatorIndex(1),
            Misbehavior::ValidityDoubleVote {
                candidate: c.clone(),
                issued: sig(6),
                digest: c.hash(),
                valid: sig(2),
            }
        )
    );
    assert!(table.drain_misbehaviors().is_empty());

    // the votes are the first ones
    let attested = table.attested_candidate(&c.hash(), &ctx).expect("attested");
    assert_eq!(
        attested.validity_votes,
        vec![
            (ValidatorIndex(0), candidate_backing::primitives::ValidityAttestation::Implicit(sig(1))),
            (ValidatorIndex(1), candidate_backing::primitives::ValidityAttestation::Explicit(sig(2))),
        ]
    );
}

#[test]
fn the_threshold_is_two_votes_or_the_whole_group() {
    let mut ctx = context();
    ctx.set_group(ParaId(3), vec![ValidatorIndex(4)]);
    assert_eq!(ctx.requisite_votes(&ParaId(1)), 2);
    assert_eq!(ctx.requisite_votes(&ParaId(2)), 2);
    assert_eq!(ctx.requisite_votes(&ParaId(3)), 1);
    assert_eq!(ctx.requisite_votes(&ParaId(9)), usize::MAX);
    assert!(ctx.is_member_of(&ValidatorIndex(3), &ParaId(2)));
    assert!(!ctx.is_member_of(&ValidatorIndex(3), &ParaId(1)));
    assert!(!ctx.is_member_of(&ValidatorIndex(3), &ParaId(9)));

    let mut table = Table::new();
    let single = candidate(30, 3);
    assert!(table.import_statement(&ctx, seconded(&single, 1, 4)).is_some());
    assert!(table.attested_candidate(&single.hash(), &ctx).is_some());

    let triple = candidate(40, 2);
    assert!(table.import_statement(&ctx, seconded(&triple, 1, 3)).is_some());
    assert!(table.attested_candidate(&triple.hash(), &ctx).is_none());
    assert_eq!(table.import_statement(&ctx, valid(&triple, 2, 2)).map(|s| s.validity_votes), Some(2));
    assert!(table.attested_candidate(&triple.hash(), &ctx).is_some());
}

#[test]
fn attested_votes_come_in_group_order() {
    let ctx = context();
    let mut table = Table::new();
    let c = candidate(40, 2);
    assert!(table.import_statement(&ctx, seconded(&c, 1, 4)).is_some());
    assert!(table.import_statement(&ctx, valid(&c, 2, 2)).is_some());
    assert!(table.import_statement(&ctx, valid(&c, 3, 3)).is_some());
    let attested = table.attested_candidate(&c.hash(), &ctx).expect("attested");
    assert_eq!(attested.group_id, ParaId(2));
    let order: Vec<u32> = attested.validity_votes.iter().map(|v| (v.0).0).collect();
    assert_eq!(order, vec![2, 3, 4]);
}
