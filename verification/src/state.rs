//! The coordinator's state: what it keeps for each active leaf, for each
//! relay parent that candidates may be built on, and for each candidate.

use crate::collections::VecMap;
use crate::primitives::{CandidateHash, ParaId, H256};
use crate::relay_parent::{PerRelayParentState, RelayParentView};
use vstd::prelude::*;

verus! {

/// Whether a leaf supports backing that runs ahead of inclusion.
#[derive(Debug, Clone, Copy, PartialEq, Eq, Structural)]
pub enum ProspectiveParachainsMode {
    /// Candidates are built on the leaf itself, at depth 0.
    Disabled,
    /// Candidates may be built on recent ancestors of the leaf, at the
    /// depths that the fragment tree allows.
    Enabled,
}

impl ProspectiveParachainsMode {
    pub fn is_disabled(&self) -> (r: bool)
        ensures
            r == (*self == ProspectiveParachainsMode::Disabled),
    {
        match self {
            ProspectiveParachainsMode::Disabled => true,
            ProspectiveParachainsMode::Enabled => false,
        }
    }

    pub fn is_enabled(&self) -> (r: bool)
        ensures
            r == (*self == ProspectiveParachainsMode::Enabled),
    {
        match self {
            ProspectiveParachainsMode::Disabled => false,
            ProspectiveParachainsMode::Enabled => true,
        }
    }
}

/// What is kept for an active leaf.
pub struct ActiveLeafState {
    pub prospective_parachains_mode: ProspectiveParachainsMode,
    /// The candidates that this node has seconded, by their depth under
    /// this leaf. A candidate may be seconded only where its depth under
    /// every active leaf is free.
    pub seconded_at_depth: VecMap<usize, CandidateHash>,
}

/// The mathematical content of an [`ActiveLeafState`].
pub struct LeafView {
    pub mode: ProspectiveParachainsMode,
    pub seconded_at_depth: Map<usize, CandidateHash>,
}

impl View for ActiveLeafState {
    type V = LeafView;

    open spec fn view(&self) -> LeafView {
        LeafView {
            mode: self.prospective_parachains_mode,
            seconded_at_depth: self.seconded_at_depth@,
        }
    }
}

/// What is kept for a candidate that a table has accepted.
#[derive(Debug, Clone, Copy, PartialEq, Eq, Structural)]
pub struct PerCandidateState {
    /// The digest of the validation data that the candidate was built
    /// against.
    pub persisted_validation_data_hash: H256,
    /// Whether this node has seconded the candidate itself.
    pub seconded_locally: bool,
    pub para_id: ParaId,
    /// The relay parent whose table holds the candidate.
    pub relay_parent: H256,
}

/// Whether `hash` occurs in `list`.
pub fn contains_hash(list: &Vec<H256>, hash: &H256) -> (r: bool)
    ensures
        r == list@.contains(*hash),
{
    let mut i: usize = 0;
    while i < list.len()
        invariant
            i <= list.len(),
            forall|j: int| 0 <= j < i ==> list@[j] != *hash,
        decreases list.len() - i,
    {
        if list[i] == *hash {
            return true;
        }
        i += 1;
    }
    false
}

/// Whether `relay_parent` is the leaf or an allowed ancestor of one of the
/// leaves of `view`.
pub open spec fn allowed(view: Map<H256, Seq<H256>>, relay_parent: H256) -> bool {
    exists|leaf: H256| #[trigger] view.contains_key(leaf) && view[leaf].contains(relay_parent)
}

/// The relay parents that candidates may be built on, as they follow from
/// the active leaves that support building on ancestors.
///
/// For each such leaf it holds the leaf itself followed by its allowed
/// ancestors, newest first.
pub struct ImplicitView {
    pub leaves: VecMap<H256, Vec<H256>>,
}

impl View for ImplicitView {
    type V = Map<H256, Seq<H256>>;

    open spec fn view(&self) -> Map<H256, Seq<H256>> {
        self.leaves@.map_values(|list: Vec<H256>| list@)
    }
}

impl ImplicitView {
    pub open spec fn wf(&self) -> bool {
        self.leaves.wf()
    }

    pub fn new() -> (v: Self)
        ensures
            v.wf(),
            v@ == Map::<H256, Seq<H256>>::empty(),
    {
        let v = ImplicitView { leaves: VecMap::new() };
        assert(v@ =~= Map::<H256, Seq<H256>>::empty());
        v
    }

    /// Takes up `leaf` with its allowed `ancestors`, newest first. Answers
    /// `false`, and changes nothing, where the leaf is known already.
    pub fn activate_leaf(&mut self, leaf: H256, ancestors: Vec<H256>) -> (fresh: bool)
        requires
            old(self).wf(),
        ensures
            final(self).wf(),
            fresh == !old(self)@.contains_key(leaf),
            final(self)@ == if fresh {
                old(self)@.insert(leaf, seq![leaf] + ancestors@)
            } else {
                old(self)@
            },
    {
        if self.leaves.contains_key(&leaf) {
            return false;
        }
        let mut list: Vec<H256> = Vec::new();
        list.push(leaf);
        let mut ancestors = ancestors;
        let ghost tail = ancestors@;
        list.append(&mut ancestors);
        assert(list@ =~= seq![leaf] + tail);
        let ghost stored = list@;
        self.leaves.insert(leaf, list);
        assert(self@ =~= old(self)@.insert(leaf, stored));
        true
    }

    /// Lets go of `leaf` and of what only it allowed.
    pub fn deactivate_leaf(&mut self, leaf: H256)
        requires
            old(self).wf(),
        ensures
            final(self).wf(),
            final(self)@ == old(self)@.remove(leaf),
    {
        let _ = self.leaves.remove(&leaf);
        assert(self@ =~= old(self)@.remove(leaf));
    }

    /// Whether candidates may be built on `relay_parent`.
    pub fn is_allowed(&self, relay_parent: &H256) -> (r: bool)
        requires
            self.wf(),
        ensures
            r == allowed(self@, *relay_parent),
    {
        let n = self.leaves.len();
        let mut i: usize = 0;
        proof {
            self.leaves.lemma_keys();
        }
        while i < n
            invariant
                i <= n,
                n == self.leaves.keys().len(),
                self.wf(),
                forall|j: int|
                    0 <= j < i ==> !self@[self.leaves.keys()[j]].contains(*relay_parent),
            decreases n - i,
        {
            let list = self.leaves.value_at(i);
            proof {
                self.leaves.lemma_keys();
                assert(self.leaves.keys().contains(self.leaves.keys()[i as int]));
            }
            if contains_hash(list, relay_parent) {
                assert(self@.contains_key(self.leaves.keys()[i as int]));
                return true;
            }
            i += 1;
        }
        proof {
            self.leaves.lemma_keys();
            assert forall|leaf: H256| #[trigger] self@.contains_key(leaf) implies !self@[leaf].contains(
                *relay_parent,
            ) by {
                assert(self.leaves.keys().contains(leaf));
                let j = self.leaves.keys().index_of(leaf);
                assert(self.leaves.keys()[j] == leaf);
            }
        }
        false
    }

    /// The relay parents that `leaf` allows: itself and its allowed
    /// ancestors, newest first.
    pub fn known_allowed_relay_parents_under(&self, leaf: &H256) -> (r: Option<&Vec<H256>>)
        requires
            self.wf(),
        ensures
            match r {
                Some(list) => self@.contains_key(*leaf) && list@ == self@[*leaf],
                None => !self@.contains_key(*leaf),
            },
    {
        self.leaves.get(leaf)
    }
}

/// The mathematical content of a [`State`].
pub struct StateView {
    pub implicit_view: Map<H256, Seq<H256>>,
    pub per_leaf: Map<H256, LeafView>,
    pub per_relay_parent: Map<H256, RelayParentView>,
    pub per_candidate: Map<CandidateHash, PerCandidateState>,
}

impl StateView {
    pub open spec fn empty() -> StateView {
        StateView {
            implicit_view: Map::empty(),
            per_leaf: Map::empty(),
            per_relay_parent: Map::empty(),
            per_candidate: Map::empty(),
        }
    }

    /// Whether `relay_parent` is an active leaf or an allowed ancestor of
    /// one.
    pub open spec fn in_view(self, relay_parent: H256) -> bool {
        self.per_leaf.contains_key(relay_parent) || allowed(self.implicit_view, relay_parent)
    }

    /// What holds between any two events: every relay parent's state is
    /// filed under its own hash and keeps its invariant, backing work goes
    /// on only for relay parents in view, and every candidate is anchored at
    /// a relay parent that is kept.
    pub open spec fn inv(self) -> bool {
        &&& forall|rp: H256| #[trigger]
            self.per_relay_parent.contains_key(rp) ==> {
                &&& self.per_relay_parent[rp].parent == rp
                &&& self.per_relay_parent[rp].inv()
                &&& self.in_view(rp)
            }
        &&& forall|c: CandidateHash| #[trigger]
            self.per_candidate.contains_key(c) ==> self.per_relay_parent.contains_key(
                self.per_candidate[c].relay_parent,
            )
    }
}

/// The state of the coordinator.
pub struct State {
    /// The relay parents that the leaves allow beyond themselves. Only
    /// leaves that support building on ancestors are entered here.
    pub implicit_view: ImplicitView,
    /// The active leaves.
    pub per_leaf: VecMap<H256, ActiveLeafState>,
    /// The relay parents that backing work goes on for: the active leaves
    /// and their allowed ancestors.
    pub per_relay_parent: VecMap<H256, PerRelayParentState>,
    /// The candidates that a table of a kept relay parent has accepted.
    pub per_candidate: VecMap<CandidateHash, PerCandidateState>,
}

impl View for State {
    type V = StateView;

    open spec fn view(&self) -> StateView {
        StateView {
            implicit_view: self.implicit_view@,
            per_leaf: self.per_leaf@.map_values(|l: ActiveLeafState| l@),
            per_relay_parent: self.per_relay_parent@.map_values(|r: PerRelayParentState| r@),
            per_candidate: self.per_candidate@,
        }
    }
}

impl State {
    /// The collections are well formed.
    pub open spec fn shape(&self) -> bool {
        &&& self.implicit_view.wf()
        &&& self.per_leaf.wf()
        &&& forall|leaf: H256| #[trigger]
            self.per_leaf@.contains_key(leaf) ==> self.per_leaf@[leaf].seconded_at_depth.wf()
        &&& self.per_relay_parent.wf()
        &&& forall|rp: H256| #[trigger]
            self.per_relay_parent@.contains_key(rp) ==> self.per_relay_parent@[rp].wf()
        &&& self.per_candidate.wf()
    }

    /// The collections are well formed and the state keeps its invariant.
    pub open spec fn wf(&self) -> bool {
        self.shape() && self@.inv()
    }

    /// The state of a coordinator that has seen no leaf yet.
    pub fn new() -> (s: Self)
        ensures
            s.wf(),
            s@ == StateView::empty(),
    {
        let s = State {
            implicit_view: ImplicitView::new(),
            per_leaf: VecMap::new(),
            per_relay_parent: VecMap::new(),
            per_candidate: VecMap::new(),
        };
        assert(s@.per_leaf =~= Map::empty());
        assert(s@.per_relay_parent =~= Map::empty());
        s
    }
}

} // verus!
