//! What holds of the coordinator's state over any sequence of updates of
//! the active leaves.

use crate::leaves::{ActivatedView, UpdateView};
use crate::primitives::{CandidateHash, H256};
use crate::relay_parent::RelayParentView;
use crate::state::{allowed, ProspectiveParachainsMode, StateView};
use vstd::prelude::*;

verus! {

/// Every candidate that is kept is anchored at a relay parent that is kept.
pub open spec fn candidates_anchored(state: StateView) -> bool {
    forall|c: CandidateHash| #[trigger]
        state.per_candidate.contains_key(c) ==> state.per_relay_parent.contains_key(
            state.per_candidate[c].relay_parent,
        )
}

/// After the first step of any update of the active leaves, whatever the
/// state was before, every candidate is anchored at a relay parent that is
/// kept, and every relay parent that is kept is the new leaf's or was in
/// view. What is kept is kept as it was.
pub proof fn lemma_update_anchors_candidates(state: StateView, update: UpdateView)
    ensures
        candidates_anchored(state.begin_update(update).0),
        forall|rp: H256| #[trigger]
            state.begin_update(update).0.per_relay_parent.contains_key(rp) ==> {
                &&& state.per_relay_parent.contains_key(rp)
                &&& state.begin_update(update).0.per_relay_parent[rp] == state.per_relay_parent[rp]
                &&& state.begin_update(update).0.in_view(rp)
            },
        forall|c: CandidateHash| #[trigger]
            state.begin_update(update).0.per_candidate.contains_key(c) ==> {
                &&& state.per_candidate.contains_key(c)
                &&& state.begin_update(update).0.per_candidate[c] == state.per_candidate[c]
            },
        state.inv() ==> state.begin_update(update).0.inv(),
{
    let next = state.begin_update(update).0;
    if state.inv() {
        assert forall|rp: H256| #[trigger] next.per_relay_parent.contains_key(rp) implies {
            &&& next.per_relay_parent[rp].parent == rp
            &&& next.per_relay_parent[rp].inv()
            &&& next.in_view(rp)
        } by {
            assert(state.per_relay_parent.contains_key(rp));
        }
    }
}

/// The second step of an update keeps the invariant of the state and
/// changes neither a relay parent's state nor the candidates.
pub proof fn lemma_activation_keeps_anchors(
    state: StateView,
    leaf: H256,
    mode: ProspectiveParachainsMode,
    answers: Seq<(CandidateHash, Seq<(H256, Seq<usize>)>)>,
)
    requires
        state.inv(),
    ensures
        state.finish_activation(leaf, mode, answers).0.inv(),
        state.finish_activation(leaf, mode, answers).0.per_relay_parent == state.per_relay_parent,
        state.finish_activation(leaf, mode, answers).0.per_candidate == state.per_candidate,
{
    crate::leaves::lemma_inv_ignores_leaves(state, state.finish_activation(leaf, mode, answers).0);
}

/// The third step of an update keeps the invariant of the state, changes
/// no state of a relay parent that has one, and leaves the candidates as
/// they are.
pub proof fn lemma_built_keeps_anchors(state: StateView, relay_parent: H256, per: RelayParentView)
    requires
        state.inv(),
        per.inv(),
        per.parent == relay_parent,
    ensures
        state.with_relay_parent(relay_parent, per).inv(),
        state.with_relay_parent(relay_parent, per).per_candidate == state.per_candidate,
        forall|rp: H256| #[trigger]
            state.per_relay_parent.contains_key(rp) ==> state.with_relay_parent(
                relay_parent,
                per,
            ).per_relay_parent.contains_key(rp) && state.with_relay_parent(
                relay_parent,
                per,
            ).per_relay_parent[rp] == state.per_relay_parent[rp],
{
    let next = state.with_relay_parent(relay_parent, per);
    assert forall|rp: H256| #[trigger] next.per_relay_parent.contains_key(rp) implies {
        &&& next.per_relay_parent[rp].parent == rp
        &&& next.per_relay_parent[rp].inv()
        &&& next.in_view(rp)
    } by {
        if rp != relay_parent {
            assert(state.per_relay_parent.contains_key(rp));
            assert(state.in_view(rp));
        }
    }
    assert forall|c: CandidateHash| #[trigger] next.per_candidate.contains_key(c) implies next.per_relay_parent.contains_key(
    next.per_candidate[c].relay_parent) by {
        assert(state.per_candidate.contains_key(c));
        assert(state.per_relay_parent.contains_key(state.per_candidate[c].relay_parent));
    }
}

/// The relay parents that a leaf brings into view: itself, and its allowed
/// ancestors where it allows building on them and they were fetched.
pub open spec fn brought(leaf: ActivatedView) -> Seq<H256> {
    match (leaf.mode, leaf.ancestors) {
        (ProspectiveParachainsMode::Enabled, Some(ancestors)) => seq![leaf.hash] + ancestors,
        _ => seq![leaf.hash],
    }
}

/// The state with the states of `built` entered for those of `fresh` that
/// could be built, in order.
pub open spec fn with_built(
    state: StateView,
    fresh: Seq<H256>,
    built: Map<H256, RelayParentView>,
) -> StateView
    decreases fresh.len(),
{
    if fresh.len() == 0 {
        state
    } else {
        let earlier = with_built(state, fresh.drop_last(), built);
        if built.contains_key(fresh.last()) {
            earlier.with_relay_parent(fresh.last(), built[fresh.last()])
        } else {
            earlier
        }
    }
}

/// Entering built states changes nothing but the relay parents, keeps those
/// that were there as they were, and adds none but those of `fresh`.
pub proof fn lemma_with_built(state: StateView, fresh: Seq<H256>, built: Map<H256, RelayParentView>)
    ensures
        with_built(state, fresh, built).per_leaf == state.per_leaf,
        with_built(state, fresh, built).implicit_view == state.implicit_view,
        with_built(state, fresh, built).per_candidate == state.per_candidate,
        forall|rp: H256| #[trigger]
            state.per_relay_parent.contains_key(rp) ==> with_built(
                state,
                fresh,
                built,
            ).per_relay_parent.contains_key(rp) && with_built(state, fresh, built).per_relay_parent[rp]
                == state.per_relay_parent[rp],
        forall|rp: H256| #[trigger]
            with_built(state, fresh, built).per_relay_parent.contains_key(rp)
                ==> state.per_relay_parent.contains_key(rp) || fresh.contains(rp),
    decreases fresh.len(),
{
    if fresh.len() > 0 {
        let shorter = fresh.drop_last();
        lemma_with_built(state, shorter, built);
        let earlier = with_built(state, shorter, built);
        let next = with_built(state, fresh, built);
        assert forall|rp: H256| #[trigger] next.per_relay_parent.contains_key(rp) implies state.per_relay_parent.contains_key(
        rp) || fresh.contains(rp) by {
            if earlier.per_relay_parent.contains_key(rp) {
                if shorter.contains(rp) {
                    let j = shorter.index_of(rp);
                    assert(fresh[j] == rp);
                }
            } else {
                assert(rp == fresh.last());
                assert(fresh[fresh.len() - 1] == rp);
            }
        }
        assert forall|rp: H256| #[trigger] state.per_relay_parent.contains_key(rp) implies next.per_relay_parent.contains_key(
        rp) && next.per_relay_parent[rp] == state.per_relay_parent[rp] by {
            assert(earlier.per_relay_parent.contains_key(rp));
        }
    }
}

/// The listed relay parents are among those that the list was drawn from.
pub proof fn lemma_fresh_among(list: Seq<H256>, known: Map<H256, RelayParentView>)
    ensures
        forall|rp: H256| #[trigger]
            crate::leaves::fresh_among(list, known).contains(rp) ==> list.contains(rp),
    decreases list.len(),
{
    if list.len() > 0 {
        let shorter = list.drop_last();
        lemma_fresh_among(shorter, known);
        let fresh = crate::leaves::fresh_among(list, known);
        let earlier = crate::leaves::fresh_among(shorter, known);
        assert forall|rp: H256| #[trigger] fresh.contains(rp) implies list.contains(rp) by {
            let j = fresh.index_of(rp);
            if j < earlier.len() {
                assert(earlier[j] == rp);
                assert(earlier.contains(rp));
                let k = shorter.index_of(rp);
                assert(list[k] == rp);
            } else {
                assert(rp == list.last());
                assert(list[list.len() - 1] == rp);
            }
        }
    }
}

/// Activating a leaf and then deactivating it leaves the state as it was.
///
/// This holds where the leaf was not active and no relay parent that the
/// leaf brings into view was in view before: then the relay parents, with
/// their states, and the candidates are afterwards what they were before
/// the activation, whichever of the new relay parents' states could be
/// built.
pub proof fn lemma_activate_then_deactivate(
    state: StateView,
    leaf: ActivatedView,
    answers: Seq<(CandidateHash, Seq<(H256, Seq<usize>)>)>,
    built: Map<H256, RelayParentView>,
)
    requires
        state.inv(),
        !state.per_leaf.contains_key(leaf.hash),
        !state.implicit_view.contains_key(leaf.hash),
        forall|i: int| 0 <= i < brought(leaf).len() ==> !state.in_view(#[trigger] brought(leaf)[i]),
    ensures
        ({
            let (begun, pending) = state.begin_update(
                UpdateView { activated: Some(leaf), deactivated: Seq::empty() },
            );
            let (active, fresh) = match pending {
                Some((hash, mode)) => begun.finish_activation(hash, mode, answers),
                None => (begun, Seq::empty()),
            };
            let working = with_built(active, fresh, built);
            let after = working.begin_update(
                UpdateView { activated: None, deactivated: seq![leaf.hash] },
            ).0;
            &&& after.per_relay_parent == state.per_relay_parent
            &&& after.per_candidate == state.per_candidate
            &&& after.per_leaf == state.per_leaf
            &&& after.implicit_view == state.implicit_view
        }),
{
    let update = UpdateView { activated: Some(leaf), deactivated: Seq::<H256>::empty() };
    let taken = state.with_leaf_in_view(update.activated);
    let left = taken.without_leaves(update.deactivated);
    assert(left.per_leaf =~= taken.per_leaf);
    assert(left.implicit_view =~= taken.implicit_view);
    let (begun, pending) = state.begin_update(update);
    assert forall|rp: H256| state.in_view(rp) implies left.in_view(rp) by {
        if allowed(state.implicit_view, rp) {
            let l = choose|l: H256| #[trigger]
                state.implicit_view.contains_key(l) && state.implicit_view[l].contains(rp);
            assert(left.implicit_view.contains_key(l) && left.implicit_view[l].contains(rp));
        }
    }
    assert(begun.per_relay_parent =~= state.per_relay_parent);
    assert(begun.per_candidate =~= state.per_candidate) by {
        assert forall|c: CandidateHash| state.per_candidate.contains_key(c) implies begun.per_candidate.contains_key(
        c) by {
            assert(state.per_relay_parent.contains_key(state.per_candidate[c].relay_parent));
        }
    }
    let (active, fresh) = match pending {
        Some((hash, mode)) => begun.finish_activation(hash, mode, answers),
        None => (begun, Seq::<H256>::empty()),
    };
    assert(active.per_relay_parent == state.per_relay_parent);
    assert(active.per_candidate == state.per_candidate);
    assert(active.implicit_view == taken.implicit_view);
    let working = with_built(active, fresh, built);
    lemma_with_built(active, fresh, built);
    // Every relay parent that was built is one that the leaf brought.
    assert forall|rp: H256| #[trigger] fresh.contains(rp) implies brought(leaf).contains(rp) by {
        match pending {
            Some((hash, mode)) => {
                let list = match mode {
                    ProspectiveParachainsMode::Disabled => seq![hash],
                    ProspectiveParachainsMode::Enabled => if begun.implicit_view.contains_key(hash) {
                        begun.implicit_view[hash]
                    } else {
                        seq![hash]
                    },
                };
                lemma_fresh_among(list, begun.per_relay_parent);
                assert(list.contains(rp));
                if list == seq![hash] {
                    let j = list.index_of(rp);
                    assert(rp == leaf.hash);
                    assert(brought(leaf)[0] == leaf.hash);
                }
            },
            None => {},
        }
    }
    let gone = UpdateView { activated: None, deactivated: seq![leaf.hash] };
    let rest = working.with_leaf_in_view(gone.activated).without_leaves(gone.deactivated);
    assert(seq![leaf.hash][0] == leaf.hash);
    assert(rest.per_leaf =~= state.per_leaf) by {
        assert forall|l: H256| rest.per_leaf.contains_key(l) <==> state.per_leaf.contains_key(l) by {
            if l != leaf.hash {
                assert(!seq![leaf.hash].contains(l));
            }
        }
    }
    assert(rest.implicit_view =~= state.implicit_view) by {
        assert forall|l: H256| rest.implicit_view.contains_key(l) <==> state.implicit_view.contains_key(
            l,
        ) by {
            if l != leaf.hash {
                assert(!seq![leaf.hash].contains(l));
            }
        }
    }
    let after = working.begin_update(gone).0;
    assert(after == rest.pruned());
    assert forall|rp: H256| rest.in_view(rp) <==> state.in_view(rp) by {
        if allowed(rest.implicit_view, rp) {
            let l = choose|l: H256| #[trigger]
                rest.implicit_view.contains_key(l) && rest.implicit_view[l].contains(rp);
            assert(state.implicit_view.contains_key(l) && state.implicit_view[l].contains(rp));
        }
        if allowed(state.implicit_view, rp) {
            let l = choose|l: H256| #[trigger]
                state.implicit_view.contains_key(l) && state.implicit_view[l].contains(rp);
            assert(rest.implicit_view.contains_key(l) && rest.implicit_view[l].contains(rp));
        }
    }
    assert forall|rp: H256| after.per_relay_parent.contains_key(rp) <==> state.per_relay_parent.contains_key(
        rp,
    ) by {
        if after.per_relay_parent.contains_key(rp) {
            assert(working.per_relay_parent.contains_key(rp));
            if !state.per_relay_parent.contains_key(rp) {
                assert(fresh.contains(rp));
                let i = brought(leaf).index_of(rp);
                assert(!state.in_view(brought(leaf)[i]));
            }
        }
        if state.per_relay_parent.contains_key(rp) {
            assert(working.per_relay_parent.contains_key(rp));
        }
    }
    assert(after.per_relay_parent =~= state.per_relay_parent);
    assert(after.per_candidate =~= state.per_candidate) by {
        assert forall|c: CandidateHash| state.per_candidate.contains_key(c) implies after.per_candidate.contains_key(
        c) by {
            assert(state.per_relay_parent.contains_key(state.per_candidate[c].relay_parent));
        }
    }
}

} // verus!
