//! What holds of the backing work under one relay parent, whatever events
//! arrive and in whatever order.

use crate::backed::{backed, first_at, BackedView};
use crate::backed_laws::{lemma_backed_matches_bits, set_positions};
use crate::bitfield::spec_max_bits;
use crate::context::spec_minimum_votes;
use crate::messages::{ActionView, ValidatedCandidateCommand};
use crate::primitives::{
    CandidateHash, CandidateReceipt, PoV, SignedFullStatement, ValidatorSignature,
};
use crate::relay_parent::{report_actions, spec_statement_to_table, RelayParentView};
use crate::table_laws::{lemma_import_keeps_inv, lemma_import_outcome, lemma_import_twice};
use vstd::prelude::*;

verus! {

/// The backed candidate that an action hands to the provisioner, if it is
/// such an action.
pub open spec fn provided(a: ActionView) -> Option<BackedView> {
    match a {
        ActionView::ProvideBacked { candidate, .. } => Some(candidate),
        _ => None,
    }
}

/// This node's own statement that an action hands to statement
/// distribution, if it is such an action.
pub open spec fn shared(a: ActionView) -> Option<SignedFullStatement> {
    match a {
        ActionView::Share { statement, .. } => Some(statement),
        _ => None,
    }
}

/// Every group of the context fits a bit vector.
pub open spec fn groups_fit(rp: RelayParentView) -> bool {
    forall|para: crate::primitives::ParaId| #[trigger]
        rp.context.groups.contains_key(para) ==> rp.context.groups[para].len() <= spec_max_bits()
}

/// Importing a statement keeps the invariant of the relay parent, never
/// takes a candidate out of the backed set, and touches nothing but the
/// table and the backed set.
pub proof fn lemma_import_statement_keeps_inv(rp: RelayParentView, s: SignedFullStatement)
    requires
        rp.inv(),
    ensures
        rp.import_statement(s).0.inv(),
        rp.backed.subset_of(rp.import_statement(s).0.backed),
        rp.import_statement(s).0 == (RelayParentView {
            table: rp.import_statement(s).0.table,
            backed: rp.import_statement(s).0.backed,
            ..rp
        }),
{
    if rp.sender_known(s) {
        let imported = rp.table.import(rp.context, spec_statement_to_table(s)).0;
        lemma_import_keeps_inv(rp.table, rp.context, spec_statement_to_table(s));
        imported.lemma_inv_ignores_reports(imported.drained());
        crate::table_laws::lemma_members_ignore_reports(imported, imported.drained(), rp.context);
    }
}

/// A backed candidate goes to the provisioner at most once under a relay
/// parent: an import hands out at most one, only for a candidate that was
/// not in the backed set, and that candidate is in the backed set from then
/// on.
pub proof fn lemma_backed_once(rp: RelayParentView, s: SignedFullStatement)
    requires
        rp.inv(),
    ensures
        ({
            let (next, summary, actions) = rp.import_statement(s);
            &&& forall|i: int|
                0 <= i < actions.len() && (#[trigger] provided(actions[i])).is_some() ==> {
                    let hash = provided(actions[i]).unwrap().candidate.receipt.hash;
                    &&& summary.is_some()
                    &&& hash == summary.unwrap().candidate
                    &&& !rp.backed.contains(hash)
                    &&& next.backed.contains(hash)
                }
            &&& forall|i: int, j: int|
                0 <= i < actions.len() && 0 <= j < actions.len() && (#[trigger] provided(
                    actions[i],
                )).is_some() && (#[trigger] provided(actions[j])).is_some() ==> i == j
        }),
{
    let (next, summary, actions) = rp.import_statement(s);
    if rp.sender_known(s) {
        let table = rp.table.import(rp.context, spec_statement_to_table(s)).0;
        lemma_import_keeps_inv(rp.table, rp.context, spec_statement_to_table(s));
        let fresh = rp.newly_backed(table, summary);
        let a = rp.dispute_actions(s);
        let b = rp.backed_actions(table, fresh);
        let c = report_actions(rp.parent, table.misbehaviors);
        assert(actions == a + b + c);
        assert forall|i: int| 0 <= i < actions.len() && (#[trigger] provided(
            actions[i],
        )).is_some() implies a.len() <= i < a.len() + b.len() by {
            if i < a.len() {
                assert(actions[i] == a[i]);
            } else if i >= a.len() + b.len() {
                assert(actions[i] == c[i - a.len() - b.len()]);
            }
        }
        assert forall|i: int| a.len() <= i < a.len() + b.len() implies actions[i] == b[i - a.len()] by {}
    }
}

/// A backed candidate goes to the provisioner exactly when a vote is
/// accepted that brings the candidate to the number of votes its group
/// requires, two or the size of the group if that is less, and the
/// candidate was not backed before.
pub proof fn lemma_backed_iff_threshold(rp: RelayParentView, s: SignedFullStatement)
    requires
        rp.inv(),
        groups_fit(rp),
    ensures
        ({
            let (next, summary, actions) = rp.import_statement(s);
            (exists|i: int| 0 <= i < actions.len() && (#[trigger] provided(actions[i])).is_some())
                <==> (summary.is_some() && {
                let data = next.table.candidates[summary.unwrap().candidate];
                &&& rp.context.groups.contains_key(data.group_id)
                &&& data.votes.len() >= spec_minimum_votes(rp.context.groups[data.group_id].len())
                &&& !rp.backed.contains(summary.unwrap().candidate)
            })
        }),
{
    let (next, summary, actions) = rp.import_statement(s);
    lemma_backed_once(rp, s);
    if rp.sender_known(s) {
        let table = rp.table.import(rp.context, spec_statement_to_table(s)).0;
        lemma_import_keeps_inv(rp.table, rp.context, spec_statement_to_table(s));
        lemma_import_outcome(rp.table, rp.context, spec_statement_to_table(s));
        let fresh = rp.newly_backed(table, summary);
        let a = rp.dispute_actions(s);
        let b = rp.backed_actions(table, fresh);
        let c = report_actions(rp.parent, table.misbehaviors);
        assert(actions == a + b + c);
        if summary.is_some() {
            let hash = summary.unwrap().candidate;
            let data = table.candidates[hash];
            assert(next.table.candidates[hash] == data);
            assert(table.vote_of(hash, s.validator_index).is_some());
            assert(table.candidates[hash].votes.contains_key(s.validator_index));
            assert(rp.context.is_member_of(s.validator_index, data.group_id));
            if fresh.is_some() {
                lemma_backed_matches_bits(table, rp.context, hash);
                assert(b.len() == 1);
                assert(actions[a.len() as int] == b[0]);
                assert(provided(actions[a.len() as int]).is_some());
            }
        }
    }
}

/// The bit field of every backed candidate that goes to the provisioner has
/// one bit for each member of the group, set exactly where that member
/// stands first in the group and has a vote; it has as many set bits as the
/// candidate has attestations; and the `i`-th attestation is the vote of the
/// member at the `i`-th set bit.
pub proof fn lemma_provided_bits(rp: RelayParentView, s: SignedFullStatement, i: int)
    requires
        rp.inv(),
        0 <= i < rp.import_statement(s).2.len(),
        provided(rp.import_statement(s).2[i]).is_some(),
    ensures
        ({
            let (next, summary, actions) = rp.import_statement(s);
            let b = provided(actions[i]).unwrap();
            let data = next.table.candidates[b.candidate.receipt.hash];
            let group = rp.context.groups[data.group_id];
            &&& next.table.candidates.contains_key(b.candidate.receipt.hash)
            &&& b.candidate == data.candidate
            &&& b.validator_indices.len() == group.len()
            &&& forall|p: int|
                0 <= p < group.len() ==> (#[trigger] b.validator_indices[p] <==> first_at(group, p)
                    && data.votes.contains_key(group[p]))
            &&& b.validity_votes.len() == data.votes.dom().len()
            &&& set_positions(b.validator_indices).len() == b.validity_votes.len()
            &&& forall|k: int|
                0 <= k < b.validity_votes.len() ==> {
                    let p = #[trigger] set_positions(b.validator_indices)[k];
                    &&& 0 <= p < group.len()
                    &&& b.validator_indices[p]
                    &&& b.validity_votes[k] == data.votes[group[p]].spec_attestation()
                }
        }),
{
    let (next, summary, actions) = rp.import_statement(s);
    lemma_backed_once(rp, s);
    let table = rp.table.import(rp.context, spec_statement_to_table(s)).0;
    lemma_import_keeps_inv(rp.table, rp.context, spec_statement_to_table(s));
    let fresh = rp.newly_backed(table, summary);
    let a = rp.dispute_actions(s);
    let b = rp.backed_actions(table, fresh);
    let c = report_actions(rp.parent, table.misbehaviors);
    assert(actions == a + b + c);
    if i < a.len() {
        assert(actions[i] == a[i]);
    } else if i >= a.len() + b.len() {
        assert(actions[i] == c[i - a.len() - b.len()]);
    } else {
        assert(actions[i] == b[i - a.len()]);
        let hash = fresh.unwrap();
        let attested = table.attested(rp.context, hash).unwrap();
        assert(backed(attested, rp.context).is_some());
        assert(rp.context.groups.contains_key(table.candidates[hash].group_id));
        lemma_backed_matches_bits(table, rp.context, hash);
    }
}

/// Importing the same statement a second time changes nothing: the state is
/// the one that the first import left, there is no summary, and no backed
/// candidate goes to the provisioner.
pub proof fn lemma_import_statement_twice(rp: RelayParentView, s: SignedFullStatement)
    requires
        rp.inv(),
    ensures
        ({
            let once = rp.import_statement(s).0;
            let (twice, summary, actions) = once.import_statement(s);
            &&& twice == once
            &&& summary.is_none()
            &&& forall|i: int| 0 <= i < actions.len() ==> (#[trigger] provided(actions[i])).is_none()
        }),
{
    let once = rp.import_statement(s).0;
    let (twice, summary, actions) = once.import_statement(s);
    lemma_import_statement_keeps_inv(rp, s);
    lemma_backed_once(once, s);
    if rp.sender_known(s) {
        lemma_import_twice(rp.table, rp.context, spec_statement_to_table(s));
        let first = rp.table.import(rp.context, spec_statement_to_table(s)).0;
        lemma_import_twice_drained(first, rp.context, s);
        assert(twice.table.misbehaviors =~= once.table.misbehaviors);
    }
}

/// The pending reports have no part in what an import does to the
/// proposals, the candidates and the summary.
proof fn lemma_import_twice_drained(
    table: crate::table::TableView,
    ctx: crate::context::ContextView,
    s: SignedFullStatement,
)
    ensures
        ({
            let a = table.import(ctx, spec_statement_to_table(s));
            let b = table.drained().import(ctx, spec_statement_to_table(s));
            &&& a.0.proposals == b.0.proposals
            &&& a.0.candidates == b.0.candidates
            &&& a.1 == b.1
        }),
{
}

/// Taking a peer's statement keeps the invariant of the relay parent: the
/// table stays consistent, and no candidate that this node has ruled on is
/// being validated. It takes nothing out of the set of candidates ruled on
/// or out of the backed set, and hands no statement of this node's own to
/// statement distribution.
pub proof fn lemma_statement_keeps_inv(rp: RelayParentView, s: SignedFullStatement)
    requires
        rp.inv(),
    ensures
        ({
            let (next, actions) = rp.maybe_validate_and_import(s);
            &&& next.inv()
            &&& next.issued == rp.issued
            &&& rp.backed.subset_of(next.backed)
            &&& forall|i: int| 0 <= i < actions.len() ==> (#[trigger] shared(actions[i])).is_none()
        }),
{
    let (imported, summary, first) = rp.import_statement(s);
    lemma_import_statement_keeps_inv(rp, s);
    lemma_import_has_no_share(rp, s);
    let (next, actions) = rp.maybe_validate_and_import(s);
    assert forall|i: int| 0 <= i < actions.len() implies (#[trigger] shared(actions[i])).is_none() by {
        if i < first.len() {
            assert(actions[i] == first[i]);
        }
    }
}

/// An import by itself hands no statement to statement distribution.
pub proof fn lemma_import_has_no_share(rp: RelayParentView, s: SignedFullStatement)
    ensures
        forall|i: int|
            0 <= i < rp.import_statement(s).2.len() ==> (#[trigger] shared(
                rp.import_statement(s).2[i],
            )).is_none(),
{
    let (next, summary, actions) = rp.import_statement(s);
    if rp.sender_known(s) {
        let table = rp.table.import(rp.context, spec_statement_to_table(s)).0;
        let fresh = rp.newly_backed(table, summary);
        let a = rp.dispute_actions(s);
        let b = rp.backed_actions(table, fresh);
        let c = report_actions(rp.parent, table.misbehaviors);
        assert(actions == a + b + c);
        assert forall|i: int| 0 <= i < actions.len() implies (#[trigger] shared(
            actions[i],
        )).is_none() by {
            if i < a.len() {
                assert(actions[i] == a[i]);
            } else if i < a.len() + b.len() {
                assert(actions[i] == b[i - a.len()]);
            } else {
                assert(actions[i] == c[i - a.len() - b.len()]);
            }
        }
    }
}

/// Being asked to second a collation keeps the invariant of the relay
/// parent, changes nothing but the set of candidates being validated, and
/// hands no statement to statement distribution.
pub proof fn lemma_second_keeps_inv(rp: RelayParentView, candidate: CandidateReceipt, pov: PoV)
    requires
        rp.inv(),
    ensures
        ({
            let (next, actions) = rp.second(candidate, pov);
            &&& next.inv()
            &&& next == (RelayParentView { awaiting: next.awaiting, ..rp })
            &&& forall|i: int| 0 <= i < actions.len() ==> (#[trigger] shared(actions[i])).is_none()
        }),
{
}

/// This node signs and distributes at most one statement for a candidate
/// under a relay parent.
///
/// A result of background validation makes it distribute at most one
/// statement, only about the candidate of the result and only where it had
/// not ruled on that candidate; from then on it has. No candidate ever
/// leaves the set of those ruled on, and the invariant of the relay parent
/// is kept.
pub proof fn lemma_signs_once(
    rp: RelayParentView,
    command: ValidatedCandidateCommand,
    signature: Option<ValidatorSignature>,
)
    requires
        rp.inv(),
    ensures
        ({
            let (next, actions, seconded) = rp.on_validated(command, signature);
            let hash = command.spec_candidate_hash();
            &&& next.inv()
            &&& rp.issued.subset_of(next.issued)
            &&& rp.backed.subset_of(next.backed)
            &&& forall|i: int|
                0 <= i < actions.len() && (#[trigger] shared(actions[i])).is_some() ==> {
                    let statement = shared(actions[i]).unwrap();
                    &&& Some(statement.payload) == rp.statement_to_sign(command)
                    &&& statement.payload.spec_candidate_hash() == hash
                    &&& Some(statement.validator_index) == rp.our_index()
                    &&& !rp.issued.contains(hash)
                    &&& next.issued.contains(hash)
                }
            &&& forall|i: int, j: int|
                0 <= i < actions.len() && 0 <= j < actions.len() && (#[trigger] shared(
                    actions[i],
                )).is_some() && (#[trigger] shared(actions[j])).is_some() ==> i == j
            &&& seconded.is_some() ==> seconded == Some(hash) && next.issued.contains(hash)
                && !rp.issued.contains(hash)
        }),
{
    let (next, actions, seconded) = rp.on_validated(command, signature);
    let hash = command.spec_candidate_hash();
    let idle = RelayParentView { awaiting: rp.awaiting.remove(hash), ..rp };
    assert(idle.inv());
    assert(idle.statement_to_sign(command) == rp.statement_to_sign(command));
    match command {
        ValidatedCandidateCommand::Second(Ok(_)) => {
            match idle.signed(command, signature) {
                Some(statement) => {
                    lemma_import_statement_keeps_inv(idle, statement);
                    lemma_import_has_no_share(idle, statement);
                    let inner = idle.import_statement(statement).2;
                    assert forall|i: int| 0 <= i < actions.len() && (#[trigger] shared(
                        actions[i],
                    )).is_some() implies i == inner.len() by {
                        if i < inner.len() {
                            assert(actions[i] == inner[i]);
                        }
                    }
                },
                None => {},
            }
        },
        ValidatedCandidateCommand::Second(Err(_)) => {},
        ValidatedCandidateCommand::Attest(_) => {
            let done = RelayParentView { fallbacks: idle.fallbacks.remove(hash), ..idle };
            assert(done.statement_to_sign(command) == rp.statement_to_sign(command));
            match done.signed(command, signature) {
                Some(statement) => {
                    lemma_import_statement_keeps_inv(done, statement);
                    lemma_import_has_no_share(done, statement);
                    let inner = done.import_statement(statement).2;
                    assert forall|i: int| 0 <= i < actions.len() && (#[trigger] shared(
                        actions[i],
                    )).is_some() implies i == inner.len() by {
                        if i < inner.len() {
                            assert(actions[i] == inner[i]);
                        }
                    }
                },
                None => {},
            }
        },
        ValidatedCandidateCommand::AttestNoPoV(_) => {},
    }
}

} // verus!

verus! {

/// No event under a relay parent changes the relay parent's hash, its
/// session, this node's assignment or the table context: a statement does
/// not.
pub proof fn lemma_frame_statement(rp: RelayParentView, s: SignedFullStatement)
    ensures
        same_frame(rp, rp.import_statement(s).0),
        same_frame(rp, rp.maybe_validate_and_import(s).0),
{
}

/// Nor does the result of a background validation.
pub proof fn lemma_frame_validated(
    rp: RelayParentView,
    command: ValidatedCandidateCommand,
    signature: Option<ValidatorSignature>,
)
    ensures
        same_frame(rp, rp.on_validated(command, signature).0),
{
}

/// Two states of one relay parent: same hash, session, assignment and
/// context.
pub open spec fn same_frame(a: RelayParentView, b: RelayParentView) -> bool {
    &&& a.parent == b.parent
    &&& a.session_index == b.session_index
    &&& a.assignment == b.assignment
    &&& a.context == b.context
}

} // verus!

verus! {

/// Whatever the event, a backed candidate goes to the provisioner only if
/// it was not in the backed set before, and it is in the backed set from
/// then on; each event hands out at most one. This is so for a peer's
/// statement.
pub proof fn lemma_statement_provides_once(rp: RelayParentView, s: SignedFullStatement)
    requires
        rp.inv(),
    ensures
        provides_once(rp, rp.maybe_validate_and_import(s).0, rp.maybe_validate_and_import(s).1),
{
    let (imported, summary, first) = rp.import_statement(s);
    lemma_backed_once(rp, s);
    let (next, actions) = rp.maybe_validate_and_import(s);
    assert forall|i: int| 0 <= i < actions.len() && (#[trigger] provided(
        actions[i],
    )).is_some() implies i < first.len() && actions[i] == first[i] by {
        if i < first.len() {
            assert(actions[i] == first[i]);
        }
    }
}

/// It is so for the result of a background validation.
pub proof fn lemma_validated_provides_once(
    rp: RelayParentView,
    command: ValidatedCandidateCommand,
    signature: Option<ValidatorSignature>,
)
    requires
        rp.inv(),
    ensures
        provides_once(
            rp,
            rp.on_validated(command, signature).0,
            rp.on_validated(command, signature).1,
        ),
{
    let hash = command.spec_candidate_hash();
    let idle = RelayParentView { awaiting: rp.awaiting.remove(hash), ..rp };
    let (next, actions, _seconded) = rp.on_validated(command, signature);
    match command {
        ValidatedCandidateCommand::Second(Ok(_)) => {
            match idle.signed(command, signature) {
                Some(statement) => {
                    lemma_backed_once(idle, statement);
                    let inner = idle.import_statement(statement).2;
                    assert forall|i: int| 0 <= i < actions.len() && (#[trigger] provided(
                        actions[i],
                    )).is_some() implies i < inner.len() && actions[i] == inner[i] by {
                        if i < inner.len() {
                            assert(actions[i] == inner[i]);
                        }
                    }
                },
                None => {},
            }
        },
        ValidatedCandidateCommand::Second(Err(_)) => {},
        ValidatedCandidateCommand::Attest(_) => {
            let done = RelayParentView { fallbacks: idle.fallbacks.remove(hash), ..idle };
            match done.signed(command, signature) {
                Some(statement) => {
                    lemma_backed_once(done, statement);
                    let inner = done.import_statement(statement).2;
                    assert forall|i: int| 0 <= i < actions.len() && (#[trigger] provided(
                        actions[i],
                    )).is_some() implies i < inner.len() && actions[i] == inner[i] by {
                        if i < inner.len() {
                            assert(actions[i] == inner[i]);
                        }
                    }
                },
                None => {},
            }
        },
        ValidatedCandidateCommand::AttestNoPoV(_) => {},
    }
}

/// Among `actions`, which led from `before` to `after`, at most one hands a
/// backed candidate to the provisioner, and only one that `before` had not
/// seen backed and `after` has.
pub open spec fn provides_once(
    before: RelayParentView,
    after: RelayParentView,
    actions: Seq<ActionView>,
) -> bool {
    &&& before.backed.subset_of(after.backed)
    &&& forall|i: int|
        0 <= i < actions.len() && (#[trigger] provided(actions[i])).is_some() ==> {
            let hash = provided(actions[i]).unwrap().candidate.receipt.hash;
            !before.backed.contains(hash) && after.backed.contains(hash)
        }
    &&& forall|i: int, j: int|
        0 <= i < actions.len() && 0 <= j < actions.len() && (#[trigger] provided(
            actions[i],
        )).is_some() && (#[trigger] provided(actions[j])).is_some() ==> i == j
}

} // verus!
