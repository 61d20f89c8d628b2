//! What the coordinator does when the set of active leaves changes: it
//! takes up the new leaf, lets go of the old ones, and keeps backing work
//! exactly for the relay parents that are still in view.
//!
//! An update is taken in steps, because what has to be asked of the
//! surroundings depends on what the step before left: first
//! [`handle_active_leaves_update`], then [`finish_leaf_activation`] for the leaf it
//! names, then [`insert_relay_parent`] for each relay parent that is new.

use crate::collections::VecMap;
use crate::coordinator::{answer_views, answered_depths, depth_answers, mark, marked};
use crate::primitives::{CandidateHash, ParaId, H256};
use crate::relay_parent::{PerRelayParentState, RelayParentView};
use crate::state::{
    ActiveLeafState, LeafView, PerCandidateState, ProspectiveParachainsMode, State, StateView,
};
use vstd::prelude::*;

verus! {

/// A leaf that has become active.
pub struct ActivatedLeaf {
    pub hash: H256,
    /// Whether candidates may be built on ancestors of the leaf.
    pub mode: ProspectiveParachainsMode,
    /// The allowed ancestors of the leaf, newest first, where the leaf allows
    /// building on ancestors and they could be fetched.
    pub ancestors: Option<Vec<H256>>,
}

/// A change of the set of active leaves: at most one new leaf, and the
/// leaves that are active no more.
pub struct ActiveLeavesUpdate {
    pub activated: Option<ActivatedLeaf>,
    pub deactivated: Vec<H256>,
}

/// The mathematical content of an [`ActivatedLeaf`].
pub struct ActivatedView {
    pub hash: H256,
    pub mode: ProspectiveParachainsMode,
    pub ancestors: Option<Seq<H256>>,
}

/// The mathematical content of an [`ActiveLeavesUpdate`].
pub struct UpdateView {
    pub activated: Option<ActivatedView>,
    pub deactivated: Seq<H256>,
}

impl View for ActivatedLeaf {
    type V = ActivatedView;

    open spec fn view(&self) -> ActivatedView {
        ActivatedView {
            hash: self.hash,
            mode: self.mode,
            ancestors: match self.ancestors {
                Some(a) => Some(a@),
                None => None,
            },
        }
    }
}

impl View for ActiveLeavesUpdate {
    type V = UpdateView;

    open spec fn view(&self) -> UpdateView {
        UpdateView {
            activated: match self.activated {
                Some(leaf) => Some(leaf@),
                None => None,
            },
            deactivated: self.deactivated@,
        }
    }
}

/// A leaf whose activation is under way, with what has to be asked before
/// it can be finished: where each of the listed candidates, which this node
/// has seconded, stands in the fragment trees.
pub struct PendingLeaf {
    pub hash: H256,
    pub mode: ProspectiveParachainsMode,
    pub membership_queries: Vec<(CandidateHash, ParaId)>,
}

/// Whether `queries` names each candidate that this node has seconded
/// exactly once, with its parachain, and no other.
pub open spec fn is_query_list(
    per_candidate: Map<CandidateHash, PerCandidateState>,
    queries: Seq<(CandidateHash, ParaId)>,
) -> bool {
    &&& forall|i: int|
        0 <= i < queries.len() ==> {
            let q = #[trigger] queries[i];
            &&& per_candidate.contains_key(q.0)
            &&& per_candidate[q.0].seconded_locally
            &&& q.1 == per_candidate[q.0].para_id
        }
    &&& forall|c: CandidateHash| #[trigger]
        per_candidate.contains_key(c) && per_candidate[c].seconded_locally ==> exists|i: int|
            0 <= i < queries.len() && (#[trigger] queries[i]).0 == c
    &&& forall|i: int, j: int|
        0 <= i < queries.len() && 0 <= j < queries.len() && i != j ==> (#[trigger] queries[i]).0 != (
        #[trigger] queries[j]).0
}

/// The depths at which the answered candidates stand under `leaf`: later
/// answers go over earlier ones.
pub open spec fn membership_depths(
    answers: Seq<(CandidateHash, Seq<(H256, Seq<usize>)>)>,
    leaf: H256,
) -> Map<usize, CandidateHash>
    decreases answers.len(),
{
    if answers.len() == 0 {
        Map::empty()
    } else {
        marked(
            membership_depths(answers.drop_last(), leaf),
            depth_answers(answers.last().1, leaf),
            answers.last().0,
        )
    }
}

/// The content of a list of membership answers.
pub open spec fn membership_views(answers: Seq<(CandidateHash, Vec<(H256, Vec<usize>)>)>) -> Seq<
    (CandidateHash, Seq<(H256, Seq<usize>)>),
> {
    answers.map_values(|a: (CandidateHash, Vec<(H256, Vec<usize>)>)| (a.0, answer_views(a.1@)))
}

/// Those of `list` that have no state yet, in their order.
pub open spec fn fresh_among(list: Seq<H256>, known: Map<H256, RelayParentView>) -> Seq<H256>
    decreases list.len(),
{
    if list.len() == 0 {
        Seq::empty()
    } else if known.contains_key(list.last()) {
        fresh_among(list.drop_last(), known)
    } else {
        fresh_among(list.drop_last(), known).push(list.last())
    }
}

impl StateView {
    /// Whether the implicit view takes up the new leaf: it allows building
    /// on ancestors, its ancestors were fetched, and it is not known there.
    pub open spec fn takes_up(self, activated: Option<ActivatedView>) -> bool {
        match activated {
            Some(leaf) => leaf.mode == ProspectiveParachainsMode::Enabled && leaf.ancestors.is_some()
                && !self.implicit_view.contains_key(leaf.hash),
            None => false,
        }
    }

    /// The state with the new leaf taken up by the implicit view.
    pub open spec fn with_leaf_in_view(self, activated: Option<ActivatedView>) -> StateView {
        if self.takes_up(activated) {
            StateView {
                implicit_view: self.implicit_view.insert(
                    activated.unwrap().hash,
                    seq![activated.unwrap().hash] + activated.unwrap().ancestors.unwrap(),
                ),
                ..self
            }
        } else {
            self
        }
    }

    /// The state without the leaves `gone`.
    pub open spec fn without_leaves(self, gone: Seq<H256>) -> StateView {
        StateView {
            per_leaf: Map::new(
                |leaf: H256| self.per_leaf.contains_key(leaf) && !gone.contains(leaf),
                |leaf: H256| self.per_leaf[leaf],
            ),
            implicit_view: Map::new(
                |leaf: H256| self.implicit_view.contains_key(leaf) && !gone.contains(leaf),
                |leaf: H256| self.implicit_view[leaf],
            ),
            ..self
        }
    }

    /// The state with backing work kept exactly for the relay parents in
    /// view, and candidates kept exactly where their relay parent is.
    pub open spec fn pruned(self) -> StateView {
        let kept = Map::new(
            |rp: H256| self.per_relay_parent.contains_key(rp) && self.in_view(rp),
            |rp: H256| self.per_relay_parent[rp],
        );
        StateView {
            per_relay_parent: kept,
            per_candidate: Map::new(
                |c: CandidateHash|
                    self.per_candidate.contains_key(c) && kept.contains_key(
                        self.per_candidate[c].relay_parent,
                    ),
                |c: CandidateHash| self.per_candidate[c],
            ),
            ..self
        }
    }

    /// The first step of an update of the active leaves.
    ///
    /// The implicit view takes up the new leaf where it allows building on
    /// ancestors; this comes first, so that relay parents which old and new
    /// leaves share are kept. Then the deactivated leaves go, and with them
    /// every relay parent that is neither an active leaf nor allowed by one,
    /// and every candidate of such a relay parent.
    ///
    /// The second component names the leaf whose activation is to be
    /// finished: a new leaf that allows nothing but itself, unless it is
    /// active already, or a new leaf that the implicit view took up.
    pub open spec fn begin_update(self, update: UpdateView) -> (
        StateView,
        Option<(H256, ProspectiveParachainsMode)>,
    ) {
        let next = self.with_leaf_in_view(update.activated).without_leaves(
            update.deactivated,
        ).pruned();
        let pending = match update.activated {
            None => None,
            Some(leaf) => match leaf.mode {
                ProspectiveParachainsMode::Disabled => if next.per_leaf.contains_key(leaf.hash) {
                    None
                } else {
                    Some((leaf.hash, ProspectiveParachainsMode::Disabled))
                },
                ProspectiveParachainsMode::Enabled => if self.takes_up(update.activated) {
                    Some((leaf.hash, ProspectiveParachainsMode::Enabled))
                } else {
                    None
                },
            },
        };
        (next, pending)
    }

    /// The second step: the leaf becomes active, with the candidates that
    /// this node has seconded entered at the depths that were answered for
    /// the leaf. The second component lists the relay parents that the leaf
    /// brings into view and that have no state yet.
    pub open spec fn finish_activation(
        self,
        leaf: H256,
        mode: ProspectiveParachainsMode,
        answers: Seq<(CandidateHash, Seq<(H256, Seq<usize>)>)>,
    ) -> (StateView, Seq<H256>) {
        let seconded_at_depth = match mode {
            ProspectiveParachainsMode::Disabled => Map::empty(),
            ProspectiveParachainsMode::Enabled => membership_depths(answers, leaf),
        };
        let brought = match mode {
            ProspectiveParachainsMode::Disabled => seq![leaf],
            ProspectiveParachainsMode::Enabled => if self.implicit_view.contains_key(leaf) {
                self.implicit_view[leaf]
            } else {
                seq![leaf]
            },
        };
        (
            StateView {
                per_leaf: self.per_leaf.insert(leaf, LeafView { mode, seconded_at_depth }),
                ..self
            },
            fresh_among(brought, self.per_relay_parent),
        )
    }

    /// The third step, once for each new relay parent whose state could be
    /// built: the state is entered unless the relay parent has one or is not
    /// in view.
    pub open spec fn with_relay_parent(self, relay_parent: H256, per: RelayParentView) -> StateView {
        if self.per_relay_parent.contains_key(relay_parent) || !self.in_view(relay_parent) {
            self
        } else {
            StateView {
                per_relay_parent: self.per_relay_parent.insert(relay_parent, per),
                ..self
            }
        }
    }
}

/// The relay parents with state that are neither an active leaf nor allowed
/// by one.
fn out_of_view(state: &State) -> (gone: Vec<H256>)
    requires
        state.shape(),
    ensures
        forall|rp: H256|
            state@.per_relay_parent.contains_key(rp) ==> (gone@.contains(rp) <==> !state@.in_view(rp)),
{
    let n = state.per_relay_parent.len();
    let mut gone: Vec<H256> = Vec::new();
    let mut i: usize = 0;
    while i < n
        invariant
            i <= n,
            n == state.per_relay_parent.keys().len(),
            state.shape(),
            forall|j: int|
                0 <= j < i ==> (gone@.contains(state.per_relay_parent.keys()[j]) <==> !state@.in_view(
                    state.per_relay_parent.keys()[j],
                )),
            forall|k: int| 0 <= k < gone@.len() ==> !state@.in_view(#[trigger] gone@[k]),
        decreases n - i,
    {
        let rp = state.per_relay_parent.key_at(i);
        let kept = state.per_leaf.contains_key(&rp) || state.implicit_view.is_allowed(&rp);
        let ghost before = gone@;
        if !kept {
            gone.push(rp);
        }
        proof {
            assert forall|j: int| 0 <= j <= i implies (gone@.contains(
                state.per_relay_parent.keys()[j],
            ) <==> !state@.in_view(state.per_relay_parent.keys()[j])) by {
                let key = state.per_relay_parent.keys()[j];
                if before.contains(key) {
                    let k = before.index_of(key);
                    assert(gone@[k] == key);
                }
                if gone@.contains(key) {
                    let k = gone@.index_of(key);
                    if k < before.len() {
                        assert(before[k] == key);
                    }
                }
                if !kept && j == i {
                    assert(gone@[before.len() as int] == key);
                }
            }
        }
        i += 1;
    }
    proof {
        state.per_relay_parent.lemma_keys();
        assert forall|rp: H256| state@.per_relay_parent.contains_key(rp) implies (gone@.contains(rp)
            <==> !state@.in_view(rp)) by {
            assert(state.per_relay_parent.keys().contains(rp));
            let j = state.per_relay_parent.keys().index_of(rp);
            assert(state.per_relay_parent.keys()[j] == rp);
        }
    }
    gone
}

/// The candidates whose relay parent has no state.
fn unanchored(
    per_candidate: &VecMap<CandidateHash, PerCandidateState>,
    per_relay_parent: &VecMap<H256, PerRelayParentState>,
) -> (gone: Vec<CandidateHash>)
    requires
        per_candidate.wf(),
        per_relay_parent.wf(),
    ensures
        forall|c: CandidateHash|
            per_candidate@.contains_key(c) ==> (gone@.contains(c)
                <==> !per_relay_parent@.contains_key(per_candidate@[c].relay_parent)),
{
    let n = per_candidate.len();
    let mut gone: Vec<CandidateHash> = Vec::new();
    let mut i: usize = 0;
    while i < n
        invariant
            i <= n,
            n == per_candidate.keys().len(),
            per_candidate.wf(),
            per_relay_parent.wf(),
            forall|j: int|
                0 <= j < i ==> (gone@.contains(per_candidate.keys()[j])
                    <==> !per_relay_parent@.contains_key(
                    per_candidate@[per_candidate.keys()[j]].relay_parent,
                )),
            forall|k: int|
                0 <= k < gone@.len() ==> per_candidate@.contains_key(#[trigger] gone@[k])
                    && !per_relay_parent@.contains_key(per_candidate@[gone@[k]].relay_parent),
        decreases n - i,
    {
        let c = per_candidate.key_at(i);
        let kept = per_relay_parent.contains_key(&per_candidate.value_at(i).relay_parent);
        let ghost before = gone@;
        if !kept {
            gone.push(c);
        }
        proof {
            assert forall|j: int| 0 <= j <= i implies (gone@.contains(per_candidate.keys()[j])
                <==> !per_relay_parent@.contains_key(
                per_candidate@[per_candidate.keys()[j]].relay_parent,
            )) by {
                let key = per_candidate.keys()[j];
                if before.contains(key) {
                    let k = before.index_of(key);
                    assert(gone@[k] == key);
                }
                if gone@.contains(key) {
                    let k = gone@.index_of(key);
                    if k < before.len() {
                        assert(before[k] == key);
                    }
                }
                if !kept && j == i {
                    assert(gone@[before.len() as int] == key);
                }
            }
        }
        i += 1;
    }
    proof {
        per_candidate.lemma_keys();
        assert forall|c: CandidateHash| per_candidate@.contains_key(c) implies (gone@.contains(c)
            <==> !per_relay_parent@.contains_key(per_candidate@[c].relay_parent)) by {
            assert(per_candidate.keys().contains(c));
            let j = per_candidate.keys().index_of(c);
            assert(per_candidate.keys()[j] == c);
        }
    }
    gone
}

/// The candidates that this node has seconded, each with its parachain.
fn seconded_candidates(per_candidate: &VecMap<CandidateHash, PerCandidateState>) -> (queries: Vec<
    (CandidateHash, ParaId),
>)
    requires
        per_candidate.wf(),
    ensures
        is_query_list(per_candidate@, queries@),
{
    let n = per_candidate.len();
    let mut queries: Vec<(CandidateHash, ParaId)> = Vec::new();
    let ghost mut origin: Seq<int> = Seq::empty();
    let mut i: usize = 0;
    proof {
        per_candidate.lemma_keys();
    }
    while i < n
        invariant
            i <= n,
            n == per_candidate.keys().len(),
            per_candidate.wf(),
            per_candidate.keys().no_duplicates(),
            origin.len() == queries@.len(),
            forall|k: int|
                0 <= k < queries@.len() ==> {
                    &&& 0 <= #[trigger] origin[k] < i
                    &&& queries@[k].0 == per_candidate.keys()[origin[k]]
                    &&& per_candidate@[queries@[k].0].seconded_locally
                    &&& queries@[k].1 == per_candidate@[queries@[k].0].para_id
                },
            forall|k: int, l: int| 0 <= k < l < origin.len() ==> origin[k] < origin[l],
            forall|j: int|
                0 <= j < i && per_candidate@[per_candidate.keys()[j]].seconded_locally
                    ==> exists|k: int| 0 <= k < queries@.len() && #[trigger] origin[k] == j,
        decreases n - i,
    {
        let c = per_candidate.key_at(i);
        let entry = per_candidate.value_at(i);
        if entry.seconded_locally {
            queries.push((c, entry.para_id));
            proof {
                let ghost before = origin;
                origin = origin.push(i as int);
                assert forall|j: int|
                    0 <= j <= i && per_candidate@[per_candidate.keys()[j]].seconded_locally implies exists|
                    k: int,
                | 0 <= k < queries@.len() && #[trigger] origin[k] == j by {
                    if j < i {
                        let k = choose|k: int| 0 <= k < before.len() && #[trigger] before[k] == j;
                        assert(origin[k] == j);
                    } else {
                        assert(origin[before.len() as int] == j);
                    }
                }
            }
        }
        i += 1;
    }
    proof {
        assert forall|k: int| 0 <= k < queries@.len() implies {
            let q = #[trigger] queries@[k];
            &&& per_candidate@.contains_key(q.0)
            &&& per_candidate@[q.0].seconded_locally
            &&& q.1 == per_candidate@[q.0].para_id
        } by {
            assert(per_candidate.keys().contains(per_candidate.keys()[origin[k]]));
        }
        assert forall|c: CandidateHash| #[trigger]
            per_candidate@.contains_key(c) && per_candidate@[c].seconded_locally implies exists|
            k: int,
        | 0 <= k < queries@.len() && (#[trigger] queries@[k]).0 == c by {
            assert(per_candidate.keys().contains(c));
            let j = per_candidate.keys().index_of(c);
            assert(per_candidate.keys()[j] == c);
            let k = choose|k: int| 0 <= k < queries@.len() && #[trigger] origin[k] == j;
            assert(queries@[k].0 == c);
        }
        assert forall|k: int, l: int|
            0 <= k < queries@.len() && 0 <= l < queries@.len() && k != l implies (
        #[trigger] queries@[k]).0 != (#[trigger] queries@[l]).0 by {
            if k < l {
                assert(origin[k] < origin[l]);
            } else {
                assert(origin[l] < origin[k]);
            }
        }
    }
    queries
}

/// Takes the first step of an update of the active leaves; see
/// [`StateView::begin_update`].
///
/// Where a leaf's activation is to be finished, the result names the leaf
/// and, for a leaf that allows building on ancestors, the candidates that
/// this node has seconded and that are still kept: their places in the
/// fragment trees are to be asked.
pub fn handle_active_leaves_update(state: &mut State, update: ActiveLeavesUpdate) -> (pending: Option<
    PendingLeaf,
>)
    requires
        old(state).wf(),
    ensures
        final(state).wf(),
        final(state)@ == old(state)@.begin_update(update@).0,
        match pending {
            Some(p) => {
                &&& old(state)@.begin_update(update@).1 == Some((p.hash, p.mode))
                &&& match p.mode {
                    ProspectiveParachainsMode::Disabled => p.membership_queries@.len() == 0,
                    ProspectiveParachainsMode::Enabled => is_query_list(
                        final(state)@.per_candidate,
                        p.membership_queries@,
                    ),
                }
            },
            None => old(state)@.begin_update(update@).1.is_none(),
        },
{
    let ghost before = state@;
    let ghost change = update@;
    let ActiveLeavesUpdate { activated, deactivated } = update;
    let (leaf, took_up) = match activated {
        Some(ActivatedLeaf { hash, mode, ancestors }) => {
            let took_up = match (mode, ancestors) {
                (ProspectiveParachainsMode::Enabled, Some(list)) => state.implicit_view.activate_leaf(
                    hash,
                    list,
                ),
                _ => false,
            };
            (Some((hash, mode)), took_up)
        },
        None => (None, false),
    };
    assert(state@ == before.with_leaf_in_view(change.activated));
    assert(took_up == before.takes_up(change.activated));
    let ghost taken = state@;
    state.per_leaf.remove_all(&deactivated);
    state.implicit_view.leaves.remove_all(&deactivated);
    proof {
        assert(state@.per_leaf =~= taken.without_leaves(deactivated@).per_leaf);
        assert(state@.implicit_view =~= taken.without_leaves(deactivated@).implicit_view);
        assert(state@.per_relay_parent == taken.per_relay_parent);
        assert(state@ == taken.without_leaves(deactivated@));
    }
    let ghost left = state@;
    let gone = out_of_view(state);
    state.per_relay_parent.remove_all(&gone);
    let gone = unanchored(&state.per_candidate, &state.per_relay_parent);
    state.per_candidate.remove_all(&gone);
    proof {
        assert(state@.per_relay_parent =~= left.pruned().per_relay_parent);
        assert(state@.per_candidate =~= left.pruned().per_candidate);
        assert(state@ == left.pruned());
        crate::leaves_laws::lemma_update_anchors_candidates(before, change);
    }
    match leaf {
        None => None,
        Some((hash, mode)) => match mode {
            ProspectiveParachainsMode::Disabled => {
                if state.per_leaf.contains_key(&hash) {
                    None
                } else {
                    Some(PendingLeaf { hash, mode, membership_queries: Vec::new() })
                }
            },
            ProspectiveParachainsMode::Enabled => {
                if took_up {
                    let membership_queries = seconded_candidates(&state.per_candidate);
                    Some(PendingLeaf { hash, mode, membership_queries })
                } else {
                    None
                }
            },
        },
    }
}

/// Those of `list` that have no state yet; see [`fresh_among`].
fn fresh_relay_parents(list: &Vec<H256>, known: &VecMap<H256, PerRelayParentState>) -> (fresh: Vec<
    H256,
>)
    requires
        known.wf(),
    ensures
        fresh@ == fresh_among(list@, known@.map_values(|r: PerRelayParentState| r@)),
{
    let ghost views = known@.map_values(|r: PerRelayParentState| r@);
    let mut fresh: Vec<H256> = Vec::new();
    let mut i: usize = 0;
    while i < list.len()
        invariant
            i <= list.len(),
            known.wf(),
            views == known@.map_values(|r: PerRelayParentState| r@),
            fresh@ == fresh_among(list@.take(i as int), views),
        decreases list.len() - i,
    {
        proof {
            let next = list@.take(i + 1);
            assert(next.drop_last() =~= list@.take(i as int));
            assert(next.last() == list@[i as int]);
        }
        if !known.contains_key(&list[i]) {
            fresh.push(list[i]);
        }
        i += 1;
    }
    assert(list@.take(list@.len() as int) =~= list@);
    fresh
}

/// Takes the second step of an update of the active leaves; see
/// [`StateView::finish_activation`].
///
/// `answers` holds, for each candidate of `pending.membership_queries` that
/// was answered, the leaves whose fragment trees hold it, with its depths.
/// The result lists the relay parents whose state is to be built.
pub fn finish_leaf_activation(
    state: &mut State,
    pending: PendingLeaf,
    answers: &Vec<(CandidateHash, Vec<(H256, Vec<usize>)>)>,
) -> (fresh: Vec<H256>)
    requires
        old(state).wf(),
    ensures
        final(state).wf(),
        final(state)@ == old(state)@.finish_activation(
            pending.hash,
            pending.mode,
            membership_views(answers@),
        ).0,
        fresh@ == old(state)@.finish_activation(
            pending.hash,
            pending.mode,
            membership_views(answers@),
        ).1,
{
    let ghost before = state@;
    let leaf = pending.hash;
    let mut seconded_at_depth: VecMap<usize, CandidateHash> = VecMap::new();
    let fresh = match pending.mode {
        ProspectiveParachainsMode::Disabled => {
            let mut own: Vec<H256> = Vec::new();
            own.push(leaf);
            assert(own@ =~= seq![leaf]);
            fresh_relay_parents(&own, &state.per_relay_parent)
        },
        ProspectiveParachainsMode::Enabled => {
            let ghost views = membership_views(answers@);
            let mut i: usize = 0;
            while i < answers.len()
                invariant
                    i <= answers.len(),
                    seconded_at_depth.wf(),
                    views == membership_views(answers@),
                    seconded_at_depth@ == membership_depths(views.take(i as int), leaf),
                decreases answers.len() - i,
            {
                proof {
                    let next = views.take(i + 1);
                    assert(next.drop_last() =~= views.take(i as int));
                    assert(next.last() == (answers@[i as int].0, answer_views(answers@[i as int].1@)));
                }
                let depths = answered_depths(&answers[i].1, &leaf);
                mark(&mut seconded_at_depth, &depths, answers[i].0);
                i += 1;
            }
            assert(views.take(views.len() as int) =~= views);
            match state.implicit_view.known_allowed_relay_parents_under(&leaf) {
                Some(list) => fresh_relay_parents(list, &state.per_relay_parent),
                None => {
                    let mut own: Vec<H256> = Vec::new();
                    own.push(leaf);
                    assert(own@ =~= seq![leaf]);
                    fresh_relay_parents(&own, &state.per_relay_parent)
                },
            }
        },
    };
    let entry = ActiveLeafState { prospective_parachains_mode: pending.mode, seconded_at_depth };
    let ghost view = entry@;
    let ghost leaves = state.per_leaf@;
    state.per_leaf.insert(leaf, entry);
    proof {
        assert(state@.per_leaf =~= before.per_leaf.insert(leaf, view));
        assert(state@.per_relay_parent == before.per_relay_parent);
        assert forall|l: H256| #[trigger] state.per_leaf@.contains_key(l) implies state.per_leaf@[l].seconded_at_depth.wf() by {
            if l != leaf {
                assert(leaves.contains_key(l));
            }
        }
        assert(state@.implicit_view == before.implicit_view);
        lemma_inv_ignores_leaves(before, state@);
    }
    fresh
}

/// The invariant of the state is kept where nothing changes but that more
/// comes into view.
pub proof fn lemma_inv_ignores_leaves(before: StateView, after: StateView)
    requires
        before.inv(),
        after.per_relay_parent == before.per_relay_parent,
        after.per_candidate == before.per_candidate,
        forall|rp: H256| before.in_view(rp) ==> after.in_view(rp),
    ensures
        after.inv(),
{
    assert forall|rp: H256| #[trigger] after.per_relay_parent.contains_key(rp) implies {
        &&& after.per_relay_parent[rp].parent == rp
        &&& after.per_relay_parent[rp].inv()
        &&& after.in_view(rp)
    } by {
        assert(before.per_relay_parent.contains_key(rp));
        assert(before.in_view(rp));
    }
    assert forall|c: CandidateHash| #[trigger] after.per_candidate.contains_key(c) implies after.per_relay_parent.contains_key(
    after.per_candidate[c].relay_parent) by {
        assert(before.per_candidate.contains_key(c));
    }
}

/// Takes the third step of an update of the active leaves, once for each
/// new relay parent whose state could be built; see
/// [`StateView::with_relay_parent`].
pub fn insert_relay_parent(state: &mut State, relay_parent: H256, per: PerRelayParentState)
    requires
        old(state).wf(),
        per.wf(),
        per@.inv(),
        per@.parent == relay_parent,
    ensures
        final(state).wf(),
        final(state)@ == old(state)@.with_relay_parent(relay_parent, per@),
{
    let ghost before = state@;
    if !state.per_relay_parent.contains_key(&relay_parent) && (state.per_leaf.contains_key(
        &relay_parent,
    ) || state.implicit_view.is_allowed(&relay_parent)) {
        let ghost view = per@;
        state.per_relay_parent.insert(relay_parent, per);
        proof {
            assert(state@.per_relay_parent =~= before.per_relay_parent.insert(relay_parent, view));
            assert(state@.per_leaf == before.per_leaf);
            assert forall|rp: H256| #[trigger] state@.per_relay_parent.contains_key(rp) implies {
                &&& state@.per_relay_parent[rp].parent == rp
                &&& state@.per_relay_parent[rp].inv()
                &&& state@.in_view(rp)
            } by {
                if rp != relay_parent {
                    assert(before.per_relay_parent.contains_key(rp));
                    assert(before.in_view(rp));
                }
            }
            assert forall|c: CandidateHash| #[trigger]
                state@.per_candidate.contains_key(c) implies state@.per_relay_parent.contains_key(
                state@.per_candidate[c].relay_parent,
            ) by {
                assert(before.per_candidate.contains_key(c));
                assert(before.per_relay_parent.contains_key(before.per_candidate[c].relay_parent));
            }
        }
    }
}

} // verus!
