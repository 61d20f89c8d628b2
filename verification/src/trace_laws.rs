//! What holds of everything that the coordinator does over the lifetime of
//! a relay parent: it distributes at most one statement of its own for a
//! candidate, and hands a backed candidate to the provisioner at most once.

use crate::coordinator_laws::{lemma_on_second, lemma_on_statement, lemma_on_validated, under};
use crate::leaves::UpdateView;
use crate::leaves_laws::{
    lemma_activation_keeps_anchors, lemma_built_keeps_anchors, lemma_update_anchors_candidates,
};
use crate::messages::{ActionView, ValidatedCandidateCommand};
use crate::primitives::{
    CandidateHash, CandidateReceipt, PoV, SignedFullStatement, ValidatorSignature, H256,
};
use crate::relay_parent::RelayParentView;
use crate::relay_parent_laws::{provided, shared};
use crate::state::{ProspectiveParachainsMode, StateView};
use vstd::prelude::*;

verus! {

/// An event in the life of the coordinator.
pub enum Happening {
    /// A peer's statement made under the relay parent.
    Statement { relay_parent: H256, statement: SignedFullStatement },
    /// The result of a background validation under the relay parent.
    Validated {
        relay_parent: H256,
        command: ValidatedCandidateCommand,
        signature: Option<ValidatorSignature>,
        answers: Seq<(H256, Seq<usize>)>,
    },
    /// A request to second a candidate.
    Second { candidate: CandidateReceipt, pov: PoV, answers: Seq<(H256, Seq<usize>)> },
    /// The first step of an update of the active leaves.
    LeavesUpdate(UpdateView),
    /// The second step: a leaf becomes active.
    LeafActivated {
        leaf: H256,
        mode: ProspectiveParachainsMode,
        answers: Seq<(CandidateHash, Seq<(H256, Seq<usize>)>)>,
    },
    /// The third step: the state of a new relay parent is entered.
    RelayParentBuilt { relay_parent: H256, per: RelayParentView },
}

/// The state after an event, and the actions that the event gives.
pub open spec fn after(state: StateView, event: Happening) -> (StateView, Seq<ActionView>) {
    match event {
        Happening::Statement { relay_parent, statement } => state.on_statement(
            relay_parent,
            statement,
        ),
        Happening::Validated { relay_parent, command, signature, answers } => state.on_validated(
            relay_parent,
            command,
            signature,
            answers,
        ),
        Happening::Second { candidate, pov, answers } => state.on_second(candidate, pov, answers),
        Happening::LeavesUpdate(update) => (state.begin_update(update).0, Seq::empty()),
        Happening::LeafActivated { leaf, mode, answers } => (
            state.finish_activation(leaf, mode, answers).0,
            Seq::empty(),
        ),
        Happening::RelayParentBuilt { relay_parent, per } => (
            if per.inv() && per.parent == relay_parent {
                state.with_relay_parent(relay_parent, per)
            } else {
                state
            },
            Seq::empty(),
        ),
    }
}

/// The state after a sequence of events, and all the actions that they
/// gave, in order.
pub open spec fn after_all(state: StateView, events: Seq<Happening>) -> (StateView, Seq<ActionView>)
    decreases events.len(),
{
    if events.len() == 0 {
        (state, Seq::empty())
    } else {
        let (mid, earlier) = after_all(state, events.drop_last());
        let (next, last) = after(mid, events.last());
        (next, earlier + last)
    }
}

/// Whether the action hands this node's own statement about `candidate`,
/// made under `relay_parent`, to statement distribution.
pub open spec fn shares(a: ActionView, relay_parent: H256, candidate: CandidateHash) -> bool {
    match a {
        ActionView::Share { relay_parent: under, statement } => under == relay_parent
            && statement.payload.spec_candidate_hash() == candidate,
        _ => false,
    }
}

/// Whether the action hands `candidate`, backed under `relay_parent`, to the
/// provisioner.
pub open spec fn provides(a: ActionView, relay_parent: H256, candidate: CandidateHash) -> bool {
    match a {
        ActionView::ProvideBacked { relay_parent: under, candidate: backed } => under == relay_parent
            && backed.candidate.receipt.hash == candidate,
        _ => false,
    }
}

/// The number of actions that meet `wanted`.
pub open spec fn count(actions: Seq<ActionView>, wanted: spec_fn(ActionView) -> bool) -> nat
    decreases actions.len(),
{
    if actions.len() == 0 {
        0
    } else {
        count(actions.drop_last(), wanted) + if wanted(actions.last()) {
            1nat
        } else {
            0nat
        }
    }
}

/// Counting over two lists in a row adds up.
pub proof fn lemma_count_add(
    a: Seq<ActionView>,
    b: Seq<ActionView>,
    wanted: spec_fn(ActionView) -> bool,
)
    ensures
        count(a + b, wanted) == count(a, wanted) + count(b, wanted),
    decreases b.len(),
{
    if b.len() == 0 {
        assert(a + b =~= a);
    } else {
        assert((a + b).drop_last() =~= a + b.drop_last());
        assert((a + b).last() == b.last());
        lemma_count_add(a, b.drop_last(), wanted);
    }
}

/// A list in which at most one action meets `wanted` counts at most one,
/// and counts one only where an action meets it.
pub proof fn lemma_count_single(actions: Seq<ActionView>, wanted: spec_fn(ActionView) -> bool)
    requires
        forall|i: int, j: int|
            0 <= i < actions.len() && 0 <= j < actions.len() && wanted(#[trigger] actions[i])
                && wanted(#[trigger] actions[j]) ==> i == j,
    ensures
        count(actions, wanted) <= 1,
        count(actions, wanted) >= 1 ==> exists|i: int|
            0 <= i < actions.len() && wanted(#[trigger] actions[i]),
        (forall|i: int| 0 <= i < actions.len() ==> !wanted(#[trigger] actions[i])) ==> count(
            actions,
            wanted,
        ) == 0,
    decreases actions.len(),
{
    if actions.len() > 0 {
        let shorter = actions.drop_last();
        assert forall|i: int, j: int|
            0 <= i < shorter.len() && 0 <= j < shorter.len() && wanted(#[trigger] shorter[i])
                && wanted(#[trigger] shorter[j]) implies i == j by {
            assert(shorter[i] == actions[i] && shorter[j] == actions[j]);
        }
        lemma_count_single(shorter, wanted);
        if count(shorter, wanted) >= 1 {
            let i = choose|i: int| 0 <= i < shorter.len() && wanted(#[trigger] shorter[i]);
            assert(wanted(actions[i]));
            if wanted(actions.last()) {
                assert(wanted(actions[actions.len() - 1]));
            }
        }
        if wanted(actions.last()) {
            assert(wanted(actions[actions.len() - 1]));
        }
        if forall|i: int| 0 <= i < actions.len() ==> !wanted(#[trigger] actions[i]) {
            assert forall|i: int| 0 <= i < shorter.len() implies !wanted(#[trigger] shorter[i]) by {
                assert(shorter[i] == actions[i]);
            }
            assert(!wanted(actions[actions.len() - 1]));
        }
    }
}

/// What one event adds to the count: nothing for a candidate that this node
/// had ruled on, and at most one statement otherwise; nothing for a
/// candidate that was backed, and at most one backed candidate otherwise.
/// Whatever it adds is on record afterwards.
pub proof fn lemma_one_event(
    state: StateView,
    event: Happening,
    relay_parent: H256,
    candidate: CandidateHash,
)
    requires
        state.inv(),
        state.per_relay_parent.contains_key(relay_parent),
        after(state, event).0.per_relay_parent.contains_key(relay_parent),
    ensures
        ({
            let (next, actions) = after(state, event);
            let shared = count(actions, |a: ActionView| shares(a, relay_parent, candidate));
            let provided = count(actions, |a: ActionView| provides(a, relay_parent, candidate));
            &&& next.inv()
            &&& under(state, relay_parent).issued.subset_of(under(next, relay_parent).issued)
            &&& under(state, relay_parent).backed.subset_of(under(next, relay_parent).backed)
            &&& shared <= 1
            &&& shared >= 1 ==> !under(state, relay_parent).issued.contains(candidate) && under(
                next,
                relay_parent,
            ).issued.contains(candidate)
            &&& provided <= 1
            &&& provided >= 1 ==> !under(state, relay_parent).backed.contains(candidate) && under(
                next,
                relay_parent,
            ).backed.contains(candidate)
        }),
{
    let (next, actions) = after(state, event);
    let sharing = |a: ActionView| shares(a, relay_parent, candidate);
    let providing = |a: ActionView| provides(a, relay_parent, candidate);
    match event {
        Happening::Statement { relay_parent: at, statement } => {
            lemma_on_statement(state, at, statement);
            assert forall|i: int| 0 <= i < actions.len() implies !sharing(#[trigger] actions[i]) by {
                assert(shared(actions[i]).is_none());
            }
            assert forall|i: int, j: int|
                0 <= i < actions.len() && 0 <= j < actions.len() && providing(#[trigger] actions[i])
                    && providing(#[trigger] actions[j]) implies i == j by {
                assert(provided(actions[i]).is_some() && provided(actions[j]).is_some());
            }
            lemma_count_single(actions, sharing);
            lemma_count_single(actions, providing);
            if count(actions, providing) >= 1 {
                let i = choose|i: int| 0 <= i < actions.len() && providing(#[trigger] actions[i]);
                assert(provided(actions[i]).is_some());
                assert(state.per_relay_parent.contains_key(at));
                lemma_statement_actions_parent(under(state, at), statement, i);
            }
        },
        Happening::Validated { relay_parent: at, command, signature, answers } => {
            lemma_on_validated(state, at, command, signature, answers);
            assert forall|i: int, j: int|
                0 <= i < actions.len() && 0 <= j < actions.len() && sharing(#[trigger] actions[i])
                    && sharing(#[trigger] actions[j]) implies i == j by {
                assert(shared(actions[i]).is_some() && shared(actions[j]).is_some());
            }
            assert forall|i: int, j: int|
                0 <= i < actions.len() && 0 <= j < actions.len() && providing(#[trigger] actions[i])
                    && providing(#[trigger] actions[j]) implies i == j by {
                assert(provided(actions[i]).is_some() && provided(actions[j]).is_some());
            }
            lemma_count_single(actions, sharing);
            lemma_count_single(actions, providing);
            let given = if state.has_no_place(at, command, answers) {
                None
            } else {
                signature
            };
            if count(actions, sharing) >= 1 {
                let i = choose|i: int| 0 <= i < actions.len() && sharing(#[trigger] actions[i]);
                assert(shared(actions[i]).is_some());
                assert(state.per_relay_parent.contains_key(at));
                lemma_validated_actions_parent(under(state, at), command, given, i);
            }
            if count(actions, providing) >= 1 {
                let i = choose|i: int| 0 <= i < actions.len() && providing(#[trigger] actions[i]);
                assert(provided(actions[i]).is_some());
                assert(state.per_relay_parent.contains_key(at));
                lemma_validated_actions_parent(under(state, at), command, given, i);
            }
        },
        Happening::Second { candidate: asked, pov, answers } => {
            lemma_on_second(state, asked, pov, answers);
            assert forall|i: int| 0 <= i < actions.len() implies !sharing(#[trigger] actions[i]) by {
                assert(shared(actions[i]).is_none());
            }
            assert forall|i: int| 0 <= i < actions.len() implies !providing(
                #[trigger] actions[i],
            ) by {
                assert(provided(actions[i]).is_none());
            }
            lemma_count_single(actions, sharing);
            lemma_count_single(actions, providing);
        },
        Happening::LeavesUpdate(update) => {
            lemma_update_anchors_candidates(state, update);
        },
        Happening::LeafActivated { leaf, mode, answers } => {
            lemma_activation_keeps_anchors(state, leaf, mode, answers);
        },
        Happening::RelayParentBuilt { relay_parent: at, per } => {
            if per.inv() && per.parent == at {
                lemma_built_keeps_anchors(state, at, per);
            }
        },
    }
}

/// The parent that an action names, where it names one.
pub open spec fn named_parent(a: ActionView) -> Option<H256> {
    match a {
        ActionView::Share { relay_parent, .. } => Some(relay_parent),
        ActionView::ProvideBacked { relay_parent, .. } => Some(relay_parent),
        _ => None,
    }
}

proof fn lemma_import_actions_parent(rp: RelayParentView, s: SignedFullStatement, i: int)
    requires
        0 <= i < rp.import_statement(s).2.len(),
    ensures
        named_parent(rp.import_statement(s).2[i]).is_some() ==> named_parent(
            rp.import_statement(s).2[i],
        ) == Some(rp.parent),
{
    let (next, summary, actions) = rp.import_statement(s);
    if rp.sender_known(s) {
        let table = rp.table.import(rp.context, crate::relay_parent::spec_statement_to_table(s)).0;
        let fresh = rp.newly_backed(table, summary);
        let a = rp.dispute_actions(s);
        let b = rp.backed_actions(table, fresh);
        let c = crate::relay_parent::report_actions(rp.parent, table.misbehaviors);
        assert(actions == a + b + c);
        if i < a.len() {
            assert(actions[i] == a[i]);
        } else if i < a.len() + b.len() {
            assert(actions[i] == b[i - a.len()]);
        } else {
            assert(actions[i] == c[i - a.len() - b.len()]);
        }
    }
}

proof fn lemma_statement_actions_parent(rp: RelayParentView, s: SignedFullStatement, i: int)
    requires
        0 <= i < rp.maybe_validate_and_import(s).1.len(),
    ensures
        named_parent(rp.maybe_validate_and_import(s).1[i]).is_some() ==> named_parent(
            rp.maybe_validate_and_import(s).1[i],
        ) == Some(rp.parent),
{
    let first = rp.import_statement(s).2;
    let actions = rp.maybe_validate_and_import(s).1;
    if i < first.len() {
        assert(actions[i] == first[i]);
        lemma_import_actions_parent(rp, s, i);
    }
}

proof fn lemma_validated_actions_parent(
    rp: RelayParentView,
    command: ValidatedCandidateCommand,
    signature: Option<ValidatorSignature>,
    i: int,
)
    requires
        0 <= i < rp.on_validated(command, signature).1.len(),
    ensures
        named_parent(rp.on_validated(command, signature).1[i]).is_some() ==> named_parent(
            rp.on_validated(command, signature).1[i],
        ) == Some(rp.parent),
{
    let hash = command.spec_candidate_hash();
    let idle = RelayParentView { awaiting: rp.awaiting.remove(hash), ..rp };
    let actions = rp.on_validated(command, signature).1;
    match command {
        ValidatedCandidateCommand::Second(Ok(_)) => {
            match idle.signed(command, signature) {
                Some(statement) => {
                    let inner = idle.import_statement(statement).2;
                    if i < inner.len() {
                        assert(actions[i] == inner[i]);
                        lemma_import_actions_parent(idle, statement, i);
                    }
                },
                None => {},
            }
        },
        ValidatedCandidateCommand::Second(Err(_)) => {},
        ValidatedCandidateCommand::Attest(_) => {
            let done = RelayParentView { fallbacks: idle.fallbacks.remove(hash), ..idle };
            match done.signed(command, signature) {
                Some(statement) => {
                    let inner = done.import_statement(statement).2;
                    if i < inner.len() {
                        assert(actions[i] == inner[i]);
                        lemma_import_actions_parent(done, statement, i);
                    }
                },
                None => {},
            }
        },
        ValidatedCandidateCommand::AttestNoPoV(_) => {},
    }
}

/// Between any two events the invariant of the state holds: every
/// candidate is anchored at a relay parent that is kept, backing work goes
/// on only for relay parents in view, and under no relay parent is a
/// candidate being validated that this node has ruled on.
pub proof fn lemma_invariant_always(state: StateView, events: Seq<Happening>)
    requires
        state.inv(),
    ensures
        after_all(state, events).0.inv(),
    decreases events.len(),
{
    if events.len() > 0 {
        lemma_invariant_always(state, events.drop_last());
        let mid = after_all(state, events.drop_last()).0;
        match events.last() {
            Happening::Statement { relay_parent, statement } => {
                lemma_on_statement(mid, relay_parent, statement);
            },
            Happening::Validated { relay_parent, command, signature, answers } => {
                lemma_on_validated(mid, relay_parent, command, signature, answers);
            },
            Happening::Second { candidate, pov, answers } => {
                lemma_on_second(mid, candidate, pov, answers);
            },
            Happening::LeavesUpdate(update) => {
                lemma_update_anchors_candidates(mid, update);
            },
            Happening::LeafActivated { leaf, mode, answers } => {
                lemma_activation_keeps_anchors(mid, leaf, mode, answers);
            },
            Happening::RelayParentBuilt { relay_parent, per } => {
                if per.inv() && per.parent == relay_parent {
                    lemma_built_keeps_anchors(mid, relay_parent, per);
                }
            },
        }
    }
}

/// Over the lifetime of a relay parent, this node distributes at most one
/// statement of its own about a candidate, and hands the candidate to the
/// provisioner as backed at most once.
///
/// The lifetime is any sequence of events throughout which backing work goes
/// on for the relay parent. Where a statement was distributed the candidate
/// is among those ruled on at the end, and where the candidate was handed to
/// the provisioner it is in the backed set at the end.
pub proof fn lemma_once_in_a_lifetime(
    state: StateView,
    events: Seq<Happening>,
    relay_parent: H256,
    candidate: CandidateHash,
)
    requires
        state.inv(),
        forall|k: int|
            0 <= k <= events.len() ==> (#[trigger] after_all(
                state,
                events.take(k),
            )).0.per_relay_parent.contains_key(relay_parent),
    ensures
        ({
            let (end, actions) = after_all(state, events);
            let shared = count(actions, |a: ActionView| shares(a, relay_parent, candidate));
            let provided = count(actions, |a: ActionView| provides(a, relay_parent, candidate));
            &&& end.inv()
            &&& under(state, relay_parent).issued.subset_of(under(end, relay_parent).issued)
            &&& under(state, relay_parent).backed.subset_of(under(end, relay_parent).backed)
            &&& shared <= 1
            &&& shared >= 1 ==> !under(state, relay_parent).issued.contains(candidate) && under(
                end,
                relay_parent,
            ).issued.contains(candidate)
            &&& provided <= 1
            &&& provided >= 1 ==> !under(state, relay_parent).backed.contains(candidate) && under(
                end,
                relay_parent,
            ).backed.contains(candidate)
        }),
    decreases events.len(),
{
    let sharing = |a: ActionView| shares(a, relay_parent, candidate);
    let providing = |a: ActionView| provides(a, relay_parent, candidate);
    if events.len() == 0 {
        assert(events.take(0) =~= events);
    } else {
        let shorter = events.drop_last();
        assert forall|k: int| 0 <= k <= shorter.len() implies (#[trigger] after_all(
            state,
            shorter.take(k),
        )).0.per_relay_parent.contains_key(relay_parent) by {
            assert(shorter.take(k) =~= events.take(k));
        }
        lemma_once_in_a_lifetime(state, shorter, relay_parent, candidate);
        let (mid, earlier) = after_all(state, shorter);
        assert(shorter.take(shorter.len() as int) =~= shorter);
        assert(events.take(events.len() as int) =~= events);
        assert(after_all(state, shorter.take(shorter.len() as int)).0.per_relay_parent.contains_key(
            relay_parent,
        ));
        assert(after_all(state, events.take(events.len() as int)).0.per_relay_parent.contains_key(
            relay_parent,
        ));
        lemma_one_event(mid, events.last(), relay_parent, candidate);
        let (end, last) = after(mid, events.last());
        lemma_count_add(earlier, last, sharing);
        lemma_count_add(earlier, last, providing);
    }
}

} // verus!
