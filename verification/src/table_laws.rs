//! What holds of the statement table over any sequence of imports.

use crate::context::ContextView;
use crate::primitives::{CandidateHash, Statement, ValidatorIndex};
use crate::table::{SignedStatement, TableView, ValidityVote};
use vstd::prelude::*;

verus! {

/// The vote that a signed statement stands for.
pub open spec fn vote_in(s: SignedStatement) -> ValidityVote {
    match s.statement {
        Statement::Seconded(_) => ValidityVote::Issued(s.signature),
        Statement::Valid(_) => ValidityVote::Valid(s.signature),
    }
}

/// Recording a vote keeps the table's invariant, and keeps every voter a
/// member of the candidate's group.
pub proof fn lemma_cast_keeps_inv(
    table: TableView,
    ctx: ContextView,
    from: ValidatorIndex,
    digest: CandidateHash,
    vote: ValidityVote,
    stated: Statement,
)
    requires
        table.inv(),
    ensures
        table.cast(ctx, from, digest, vote, stated).0.inv(),
        table.voters_are_members(ctx) ==> table.cast(
            ctx,
            from,
            digest,
            vote,
            stated,
        ).0.voters_are_members(ctx),
{
    let next = table.cast(ctx, from, digest, vote, stated).0;
    assert forall|v: ValidatorIndex| #[trigger] next.proposals.contains_key(v) implies next.candidates.contains_key(
        next.proposals[v].0,
    ) by {
        assert(table.proposals.contains_key(v));
    }
    assert forall|d: CandidateHash| #[trigger] next.candidates.contains_key(d) implies {
        &&& next.candidates[d].candidate.receipt.hash == d
        &&& next.candidates[d].group_id == next.candidates[d].candidate.receipt.descriptor.para_id
        &&& next.candidates[d].votes.dom().finite()
    } by {
        assert(table.candidates.contains_key(d));
    }
    if table.voters_are_members(ctx) {
        assert forall|d: CandidateHash, v: ValidatorIndex|
            next.candidates.contains_key(d) && #[trigger] next.candidates[d].votes.contains_key(
                v,
            ) implies ctx.is_member_of(v, next.candidates[d].group_id) by {
            assert(table.candidates.contains_key(d));
            if d == digest && v == from {
            } else {
                assert(table.candidates[d].votes.contains_key(v));
            }
        }
    }
}

/// Importing a statement keeps the table's invariant, and keeps every voter
/// a member of the candidate's group.
pub proof fn lemma_import_keeps_inv(table: TableView, ctx: ContextView, s: SignedStatement)
    requires
        table.inv(),
    ensures
        table.import(ctx, s).0.inv(),
        table.voters_are_members(ctx) ==> table.import(ctx, s).0.voters_are_members(ctx),
{
    let next = table.import(ctx, s).0;
    match s.statement {
        Statement::Seconded(candidate) => {
            let group = candidate.receipt.descriptor.para_id;
            let digest = candidate.receipt.hash;
            if ctx.is_member_of(s.sender, group) && !(table.proposals.contains_key(s.sender)
                && table.proposals[s.sender].0 != digest) {
                let noted = table.noted(s.sender, candidate, s.signature);
                table.lemma_noted_inv(s.sender, candidate, s.signature);
                if table.voters_are_members(ctx) {
                    assert(noted.voters_are_members(ctx)) by {
                        assert forall|d: CandidateHash, v: ValidatorIndex|
                            noted.candidates.contains_key(d)
                                && #[trigger] noted.candidates[d].votes.contains_key(
                                v,
                            ) implies ctx.is_member_of(v, noted.candidates[d].group_id) by {
                            if table.candidates.contains_key(d) {
                                assert(table.candidates[d].votes.contains_key(v));
                            }
                        }
                    }
                }
                lemma_cast_keeps_inv(
                    noted,
                    ctx,
                    s.sender,
                    digest,
                    ValidityVote::Issued(s.signature),
                    Statement::Seconded(candidate),
                );
                let cast = noted.cast(
                    ctx,
                    s.sender,
                    digest,
                    ValidityVote::Issued(s.signature),
                    Statement::Seconded(candidate),
                ).0;
                cast.lemma_inv_ignores_reports(next);
                lemma_members_ignore_reports(cast, next, ctx);
            } else {
                table.lemma_inv_ignores_reports(next);
                lemma_members_ignore_reports(table, next, ctx);
            }
        },
        Statement::Valid(digest) => {
            lemma_cast_keeps_inv(
                table,
                ctx,
                s.sender,
                digest,
                ValidityVote::Valid(s.signature),
                Statement::Valid(digest),
            );
            let cast = table.cast(
                ctx,
                s.sender,
                digest,
                ValidityVote::Valid(s.signature),
                Statement::Valid(digest),
            ).0;
            cast.lemma_inv_ignores_reports(next);
            lemma_members_ignore_reports(cast, next, ctx);
        },
    }
}

/// Membership of the voters does not depend on the pending reports.
pub proof fn lemma_members_ignore_reports(table: TableView, other: TableView, ctx: ContextView)
    requires
        other.candidates == table.candidates,
    ensures
        table.voters_are_members(ctx) ==> other.voters_are_members(ctx),
{
    if table.voters_are_members(ctx) {
        assert forall|d: CandidateHash, v: ValidatorIndex|
            other.candidates.contains_key(d) && #[trigger] other.candidates[d].votes.contains_key(
                v,
            ) implies ctx.is_member_of(v, other.candidates[d].group_id) by {
            assert(table.candidates[d].votes.contains_key(v));
        }
    }
}

/// A vote that the table has recorded stays as it is: no import replaces or
/// removes it, and no import removes a candidate or changes its receipt. So
/// for each candidate and validator the table holds at most one vote, the
/// first that it accepted.
pub proof fn lemma_import_keeps_votes(table: TableView, ctx: ContextView, s: SignedStatement)
    ensures
        forall|d: CandidateHash| #[trigger]
            table.candidates.contains_key(d) ==> {
                let next = table.import(ctx, s).0;
                &&& next.candidates.contains_key(d)
                &&& next.candidates[d].candidate == table.candidates[d].candidate
                &&& next.candidates[d].group_id == table.candidates[d].group_id
            },
        forall|d: CandidateHash, v: ValidatorIndex|
            (#[trigger] table.vote_of(d, v)).is_some() ==> table.import(ctx, s).0.vote_of(d, v)
                == table.vote_of(d, v),
        forall|v: ValidatorIndex| #[trigger]
            table.proposals.contains_key(v) ==> {
                let next = table.import(ctx, s).0;
                next.proposals.contains_key(v) && next.proposals[v] == table.proposals[v]
            },
{
}

/// What an import does, by its result.
///
/// With a summary, the sender's vote on the candidate was new and is now on
/// record, the summary counts the candidate's votes, and no report was
/// added. Without a summary no vote was added or changed, and at most one
/// report was added, against the sender.
pub proof fn lemma_import_outcome(table: TableView, ctx: ContextView, s: SignedStatement)
    ensures
        ({
            let (next, summary) = table.import(ctx, s);
            let digest = s.statement.spec_candidate_hash();
            match summary {
                Some(summary) => {
                    &&& table.vote_of(digest, s.sender).is_none()
                    &&& next.vote_of(digest, s.sender) == Some(vote_in(s))
                    &&& summary.candidate == digest
                    &&& summary.group_id == next.candidates[digest].group_id
                    &&& summary.validity_votes == next.candidates[digest].votes.len() as usize
                    &&& next.misbehaviors == table.misbehaviors
                    &&& forall|d: CandidateHash, v: ValidatorIndex|
                        (d != digest || v != s.sender) ==> #[trigger] next.vote_of(d, v)
                            == table.vote_of(d, v)
                },
                None => {
                    &&& forall|d: CandidateHash, v: ValidatorIndex| #[trigger]
                        next.vote_of(d, v) == table.vote_of(d, v)
                    &&& (next.misbehaviors == table.misbehaviors || (next.misbehaviors.len()
                        == table.misbehaviors.len() + 1 && next.misbehaviors.drop_last()
                        == table.misbehaviors && next.misbehaviors.last().0 == s.sender))
                },
            }
        }),
{
    let (next, summary) = table.import(ctx, s);
    if next.misbehaviors != table.misbehaviors {
        assert(next.misbehaviors.drop_last() =~= table.misbehaviors);
    }
}

/// A second vote that differs from the recorded one is dropped and reported
/// exactly once: the import adds one report against the sender and changes
/// no vote.
pub proof fn lemma_duplicate_is_reported(table: TableView, ctx: ContextView, s: SignedStatement)
    requires
        table.vote_of(s.statement.spec_candidate_hash(), s.sender).is_some(),
        table.vote_of(s.statement.spec_candidate_hash(), s.sender) != Some(vote_in(s)),
    ensures
        ({
            let (next, summary) = table.import(ctx, s);
            &&& summary.is_none()
            &&& next.misbehaviors.len() == table.misbehaviors.len() + 1
            &&& next.misbehaviors.drop_last() == table.misbehaviors
            &&& next.misbehaviors.last().0 == s.sender
            &&& forall|d: CandidateHash, v: ValidatorIndex| #[trigger]
                next.vote_of(d, v) == table.vote_of(d, v)
        }),
{
    let (next, summary) = table.import(ctx, s);
    assert(next.misbehaviors.drop_last() =~= table.misbehaviors);
}

/// Importing a statement a second time changes neither the proposals nor
/// the candidates and their votes, and gives no summary.
pub proof fn lemma_import_twice(table: TableView, ctx: ContextView, s: SignedStatement)
    ensures
        ({
            let once = table.import(ctx, s).0;
            let (twice, summary) = once.import(ctx, s);
            &&& twice.proposals == once.proposals
            &&& twice.candidates == once.candidates
            &&& summary.is_none()
        }),
{
    let once = table.import(ctx, s).0;
    let (twice, summary) = once.import(ctx, s);
    assert(twice.proposals =~= once.proposals);
    assert(twice.candidates =~= once.candidates);
}

/// The table after importing `statements` one after the other.
pub open spec fn imported(table: TableView, ctx: ContextView, statements: Seq<SignedStatement>) -> TableView
    decreases statements.len(),
{
    if statements.len() == 0 {
        table
    } else {
        imported(table, ctx, statements.drop_last()).import(ctx, statements.last()).0
    }
}

/// Whatever is imported afterwards, a vote on record stays the vote of its
/// validator on its candidate, a proposal on record stays the proposal of
/// its validator, and the table keeps its invariant.
pub proof fn lemma_votes_are_final(
    table: TableView,
    ctx: ContextView,
    statements: Seq<SignedStatement>,
)
    requires
        table.inv(),
    ensures
        imported(table, ctx, statements).inv(),
        table.voters_are_members(ctx) ==> imported(table, ctx, statements).voters_are_members(ctx),
        forall|d: CandidateHash, v: ValidatorIndex|
            (#[trigger] table.vote_of(d, v)).is_some() ==> imported(table, ctx, statements).vote_of(
                d,
                v,
            ) == table.vote_of(d, v),
        forall|v: ValidatorIndex| #[trigger]
            table.proposals.contains_key(v) ==> imported(
                table,
                ctx,
                statements,
            ).proposals.contains_key(v) && imported(table, ctx, statements).proposals[v]
                == table.proposals[v],
    decreases statements.len(),
{
    if statements.len() > 0 {
        let earlier = imported(table, ctx, statements.drop_last());
        lemma_votes_are_final(table, ctx, statements.drop_last());
        lemma_import_keeps_inv(earlier, ctx, statements.last());
        lemma_import_keeps_votes(earlier, ctx, statements.last());
        let end = imported(table, ctx, statements);
        assert forall|d: CandidateHash, v: ValidatorIndex|
            (#[trigger] table.vote_of(d, v)).is_some() implies end.vote_of(d, v) == table.vote_of(
            d,
            v,
        ) by {
            assert(earlier.vote_of(d, v) == table.vote_of(d, v));
        }
        assert forall|v: ValidatorIndex| #[trigger] table.proposals.contains_key(v) implies end.proposals.contains_key(
        v) && end.proposals[v] == table.proposals[v] by {
            assert(earlier.proposals.contains_key(v));
        }
    }
}

} // verus!
