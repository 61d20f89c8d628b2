//! What holds of the coordinator over any sequence of events.

use crate::messages::{ActionView, ValidatedCandidateCommand};
use crate::primitives::{
    CandidateHash, CandidateReceipt, PoV, SignedFullStatement, ValidatorSignature, H256,
};
use crate::relay_parent::RelayParentView;
use crate::relay_parent_laws::{
    lemma_frame_statement, lemma_frame_validated, lemma_second_keeps_inv, lemma_signs_once,
    lemma_statement_keeps_inv, lemma_statement_provides_once, lemma_validated_provides_once,
    provides_once, shared,
};
use crate::state::StateView;
use vstd::prelude::*;

verus! {

/// From `before` to `after`, backing work goes on for the same relay
/// parents; under each of them no candidate has left the set of those ruled
/// on or the backed set; and the relay parents other than `touched` are as
/// they were.
pub open spec fn moved_on(before: StateView, after: StateView, touched: H256) -> bool {
    &&& after.per_relay_parent.dom() == before.per_relay_parent.dom()
    &&& after.implicit_view == before.implicit_view
    &&& after.per_leaf.dom() == before.per_leaf.dom()
    &&& forall|rp: H256| #[trigger]
        before.per_relay_parent.contains_key(rp) ==> {
            &&& before.per_relay_parent[rp].issued.subset_of(after.per_relay_parent[rp].issued)
            &&& before.per_relay_parent[rp].backed.subset_of(after.per_relay_parent[rp].backed)
            &&& rp != touched ==> after.per_relay_parent[rp] == before.per_relay_parent[rp]
        }
    &&& forall|c: CandidateHash| #[trigger]
        before.per_candidate.contains_key(c) ==> after.per_candidate.contains_key(c)
}

/// The state that is kept for `relay_parent`.
pub open spec fn under(state: StateView, relay_parent: H256) -> RelayParentView {
    state.per_relay_parent[relay_parent]
}

/// A peer's statement keeps the invariant of the state: every candidate
/// stays anchored at a relay parent that is kept, and under no relay parent
/// is a candidate being validated that this node has ruled on. It makes this
/// node distribute no statement of its own, and a backed candidate goes to
/// the provisioner at most once.
pub proof fn lemma_on_statement(state: StateView, relay_parent: H256, s: SignedFullStatement)
    requires
        state.inv(),
    ensures
        ({
            let (next, actions) = state.on_statement(relay_parent, s);
            &&& next.inv()
            &&& moved_on(state, next, relay_parent)
            &&& forall|i: int| 0 <= i < actions.len() ==> (#[trigger] shared(actions[i])).is_none()
            &&& state.per_relay_parent.contains_key(relay_parent) ==> provides_once(
                under(state, relay_parent),
                under(next, relay_parent),
                actions,
            )
        }),
{
    let (next, actions) = state.on_statement(relay_parent, s);
    if state.per_relay_parent.contains_key(relay_parent) {
        let rp = state.per_relay_parent[relay_parent];
        lemma_statement_keeps_inv(rp, s);
        lemma_frame_statement(rp, s);
        lemma_statement_provides_once(rp, s);
        crate::coordinator::lemma_inv_after_rp_step(state, next, relay_parent);
        assert(next.per_relay_parent.dom() =~= state.per_relay_parent.dom());
    }
}

/// The result of a background validation keeps the invariant of the state.
/// It makes this node distribute at most one statement of its own, only
/// about the candidate of the result and only where it had not ruled on that
/// candidate under the relay parent; from then on it has. A backed candidate
/// goes to the provisioner at most once.
pub proof fn lemma_on_validated(
    state: StateView,
    relay_parent: H256,
    command: ValidatedCandidateCommand,
    signature: Option<ValidatorSignature>,
    answers: Seq<(H256, Seq<usize>)>,
)
    requires
        state.inv(),
    ensures
        ({
            let (next, actions) = state.on_validated(relay_parent, command, signature, answers);
            let hash = command.spec_candidate_hash();
            &&& next.inv()
            &&& moved_on(state, next, relay_parent)
            &&& forall|i: int|
                0 <= i < actions.len() && (#[trigger] shared(actions[i])).is_some() ==> {
                    &&& state.per_relay_parent.contains_key(relay_parent)
                    &&& shared(actions[i]).unwrap().payload.spec_candidate_hash() == hash
                    &&& !under(state, relay_parent).issued.contains(hash)
                    &&& under(next, relay_parent).issued.contains(hash)
                }
            &&& forall|i: int, j: int|
                0 <= i < actions.len() && 0 <= j < actions.len() && (#[trigger] shared(
                    actions[i],
                )).is_some() && (#[trigger] shared(actions[j])).is_some() ==> i == j
            &&& state.per_relay_parent.contains_key(relay_parent) ==> provides_once(
                under(state, relay_parent),
                under(next, relay_parent),
                actions,
            )
        }),
{
    let (next, actions) = state.on_validated(relay_parent, command, signature, answers);
    if state.per_relay_parent.contains_key(relay_parent) {
        let rp = state.per_relay_parent[relay_parent];
        let given = if state.has_no_place(relay_parent, command, answers) {
            None
        } else {
            signature
        };
        lemma_signs_once(rp, command, given);
        lemma_frame_validated(rp, command, given);
        lemma_validated_provides_once(rp, command, given);
        assert(next.per_leaf.dom() =~= state.per_leaf.dom());
        crate::coordinator::lemma_inv_after_rp_step(state, next, relay_parent);
        assert(next.per_relay_parent.dom() =~= state.per_relay_parent.dom());
    }
}

/// A request to second a collation keeps the invariant of the state,
/// changes nothing but the set of candidates being validated under the
/// candidate's relay parent, and makes this node distribute nothing.
pub proof fn lemma_on_second(
    state: StateView,
    candidate: CandidateReceipt,
    pov: PoV,
    answers: Seq<(H256, Seq<usize>)>,
)
    requires
        state.inv(),
    ensures
        ({
            let (next, actions) = state.on_second(candidate, pov, answers);
            &&& next.inv()
            &&& moved_on(state, next, candidate.descriptor.relay_parent)
            &&& next.per_candidate == state.per_candidate
            &&& next.per_leaf == state.per_leaf
            &&& forall|i: int| 0 <= i < actions.len() ==> (#[trigger] shared(actions[i])).is_none()
            &&& forall|i: int|
                0 <= i < actions.len() ==> (#[trigger] crate::relay_parent_laws::provided(
                    actions[i],
                )).is_none()
        }),
{
    let relay_parent = candidate.descriptor.relay_parent;
    let (next, actions) = state.on_second(candidate, pov, answers);
    if state.per_relay_parent.contains_key(relay_parent) && !state.seconding_refused(
        relay_parent,
        answers,
    ) {
        let rp = state.per_relay_parent[relay_parent];
        lemma_second_keeps_inv(rp, candidate, pov);
        crate::coordinator::lemma_inv_after_rp_step(state, next, relay_parent);
        assert(next.per_relay_parent.dom() =~= state.per_relay_parent.dom());
    }
}

/// This node seconds at most one candidate at a depth under a leaf: a
/// request to second a candidate starts no validation where, under some
/// active leaf, a candidate that this node has seconded stands at a depth
/// that the new one would have.
pub proof fn lemma_no_second_at_taken_depth(
    state: StateView,
    candidate: CandidateReceipt,
    pov: PoV,
    answers: Seq<(H256, Seq<usize>)>,
)
    requires
        state.seconding_refused(candidate.descriptor.relay_parent, answers),
    ensures
        state.on_second(candidate, pov, answers) == (state, Seq::<ActionView>::empty()),
{
}

} // verus!
