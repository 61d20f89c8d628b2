//! The coordinator's answers to the messages it is sent and to the results
//! of its background validations. Each takes the state and an event, and
//! gives the actions to carry out; the state is changed in place.

use crate::backed::BackedCandidate;
use crate::collections::VecMap;
use crate::context::LocalValidator;
use crate::messages::{action_views, Action, ActionView, ValidatedCandidateCommand};
use crate::primitives::{
    CandidateHash, CandidateReceipt, PoV, SignedFullStatement, SigningContext, Statement,
    ValidatorSignature, H256,
};
use crate::relay_parent_laws::{
    lemma_frame_statement, lemma_frame_validated, lemma_second_keeps_inv, lemma_signs_once,
    lemma_statement_keeps_inv,
};
use crate::state::{
    allowed, ActiveLeafState, LeafView, PerCandidateState, ProspectiveParachainsMode, State,
    StateView,
};
use crate::statements::{
    backed_views, handle_get_backed_candidates_message, maybe_validate_and_import,
    on_validated_candidate_command, statement_to_sign, validate_and_second,
};
use vstd::prelude::*;

verus! {

/// The depths that were answered for `leaf`: those of the last answer that
/// names it, none where no answer does.
pub open spec fn depth_answers(answers: Seq<(H256, Seq<usize>)>, leaf: H256) -> Seq<usize>
    decreases answers.len(),
{
    if answers.len() == 0 {
        Seq::empty()
    } else if answers.last().0 == leaf {
        answers.last().1
    } else {
        depth_answers(answers.drop_last(), leaf)
    }
}

/// The content of a list of answers.
pub open spec fn answer_views(answers: Seq<(H256, Vec<usize>)>) -> Seq<(H256, Seq<usize>)> {
    answers.map_values(|a: (H256, Vec<usize>)| (a.0, a.1@))
}

/// The depths that a candidate built on `relay_parent` would have under a
/// leaf: depth 0 under the leaf that is its relay parent where the leaf
/// allows nothing else, and otherwise what was answered for the leaf.
pub open spec fn leaf_depths(
    leaf_hash: H256,
    mode: ProspectiveParachainsMode,
    relay_parent: H256,
    answers: Seq<(H256, Seq<usize>)>,
) -> Seq<usize> {
    match mode {
        ProspectiveParachainsMode::Disabled => if leaf_hash == relay_parent {
            seq![0usize]
        } else {
            Seq::empty()
        },
        ProspectiveParachainsMode::Enabled => depth_answers(answers, leaf_hash),
    }
}

/// Whether this node has seconded a candidate at one of `depths`.
pub open spec fn occupied(seconded_at_depth: Map<usize, CandidateHash>, depths: Seq<usize>) -> bool {
    exists|i: int| 0 <= i < depths.len() && seconded_at_depth.contains_key(#[trigger] depths[i])
}

/// `seconded_at_depth` with `hash` entered at each of `depths`.
pub open spec fn marked(
    seconded_at_depth: Map<usize, CandidateHash>,
    depths: Seq<usize>,
    hash: CandidateHash,
) -> Map<usize, CandidateHash>
    decreases depths.len(),
{
    if depths.len() == 0 {
        seconded_at_depth
    } else {
        marked(seconded_at_depth, depths.drop_last(), hash).insert(depths.last(), hash)
    }
}

impl StateView {
    /// Whether seconding a candidate built on `relay_parent` is refused
    /// because, under some active leaf, this node has seconded a candidate
    /// at a depth that the new one would have.
    pub open spec fn seconding_refused(self, relay_parent: H256, answers: Seq<(H256, Seq<usize>)>) -> bool {
        exists|leaf: H256| #[trigger]
            self.per_leaf.contains_key(leaf) && occupied(
                self.per_leaf[leaf].seconded_at_depth,
                leaf_depths(leaf, self.per_leaf[leaf].mode, relay_parent, answers),
            )
    }

    /// The leaves after this node seconded `hash` on `relay_parent`.
    pub open spec fn seconded_leaves(
        self,
        relay_parent: H256,
        answers: Seq<(H256, Seq<usize>)>,
        hash: CandidateHash,
    ) -> Map<H256, LeafView> {
        Map::new(
            |leaf: H256| self.per_leaf.contains_key(leaf),
            |leaf: H256|
                LeafView {
                    seconded_at_depth: marked(
                        self.per_leaf[leaf].seconded_at_depth,
                        leaf_depths(leaf, self.per_leaf[leaf].mode, relay_parent, answers),
                        hash,
                    ),
                    ..self.per_leaf[leaf]
                },
        )
    }

    /// Takes a peer's statement made under `relay_parent`.
    ///
    /// Under an unknown relay parent nothing happens. Otherwise the
    /// statement goes the way of
    /// [`crate::relay_parent::RelayParentView::maybe_validate_and_import`],
    /// and a candidate that the table accepts for the first time is
    /// entered among the candidates.
    pub open spec fn on_statement(self, relay_parent: H256, s: SignedFullStatement) -> (
        StateView,
        Seq<ActionView>,
    ) {
        if !self.per_relay_parent.contains_key(relay_parent) {
            (self, Seq::empty())
        } else {
            let rp = self.per_relay_parent[relay_parent];
            let (next, actions) = rp.maybe_validate_and_import(s);
            let per_candidate = match (rp.import_statement(s).1, s.payload) {
                (Some(summary), Statement::Seconded(c)) => if self.per_candidate.contains_key(
                    summary.candidate,
                ) {
                    self.per_candidate
                } else {
                    self.per_candidate.insert(
                        summary.candidate,
                        PerCandidateState {
                            persisted_validation_data_hash:
                                c.receipt.descriptor.persisted_validation_data_hash,
                            seconded_locally: false,
                            para_id: c.receipt.descriptor.para_id,
                            relay_parent,
                        },
                    )
                },
                _ => self.per_candidate,
            };
            (
                StateView {
                    per_relay_parent: self.per_relay_parent.insert(relay_parent, next),
                    per_candidate,
                    ..self
                },
                actions,
            )
        }
    }

    /// Whether a candidate that this node validated in order to second it
    /// has no place in any fragment tree: its relay parent is one that a
    /// leaf allows as an ancestor, and no depth was answered for it.
    pub open spec fn has_no_place(
        self,
        relay_parent: H256,
        command: ValidatedCandidateCommand,
        answers: Seq<(H256, Seq<usize>)>,
    ) -> bool {
        &&& command matches ValidatedCandidateCommand::Second(Ok(_))
        &&& allowed(self.implicit_view, relay_parent)
        &&& forall|i: int| 0 <= i < answers.len() ==> (#[trigger] answers[i]).1.len() == 0
    }

    /// Whether this node's `Seconded` statement is held back because the
    /// candidate has no place in any fragment tree.
    pub open spec fn rejects(
        self,
        relay_parent: H256,
        command: ValidatedCandidateCommand,
        signature: Option<ValidatorSignature>,
        answers: Seq<(H256, Seq<usize>)>,
    ) -> bool {
        &&& self.per_relay_parent.contains_key(relay_parent)
        &&& self.per_relay_parent[relay_parent].signed(command, signature).is_some()
        &&& self.has_no_place(relay_parent, command, answers)
    }

    /// Takes the result of a background validation under `relay_parent`.
    ///
    /// Under an unknown relay parent nothing happens: the relay parent went
    /// out of view while the validation ran. Otherwise the result goes the
    /// way of [`crate::relay_parent::RelayParentView::on_validated`]. Where
    /// this node has seconded the candidate by it, the candidate is entered
    /// as seconded locally, and its depths under each active leaf are taken.
    ///
    /// A candidate to second that has no place in any fragment tree is
    /// neither imported nor distributed nor noted as ruled on: the event
    /// only ends its validation.
    pub open spec fn on_validated(
        self,
        relay_parent: H256,
        command: ValidatedCandidateCommand,
        signature: Option<ValidatorSignature>,
        answers: Seq<(H256, Seq<usize>)>,
    ) -> (StateView, Seq<ActionView>) {
        if !self.per_relay_parent.contains_key(relay_parent) {
            (self, Seq::empty())
        } else {
            let (next, actions, seconded) = self.per_relay_parent[relay_parent].on_validated(
                command,
                if self.has_no_place(relay_parent, command, answers) {
                    None
                } else {
                    signature
                },
            );
            let base = StateView {
                per_relay_parent: self.per_relay_parent.insert(relay_parent, next),
                ..self
            };
            match (seconded, command) {
                (Some(hash), ValidatedCandidateCommand::Second(Ok(v))) => (
                    StateView {
                        per_leaf: self.seconded_leaves(relay_parent, answers, hash),
                        per_candidate: self.per_candidate.insert(
                            hash,
                            PerCandidateState {
                                persisted_validation_data_hash:
                                    v.candidate.descriptor.persisted_validation_data_hash,
                                seconded_locally: true,
                                para_id: v.candidate.descriptor.para_id,
                                relay_parent,
                            },
                        ),
                        ..base
                    },
                    actions,
                ),
                _ => (base, actions),
            }
        }
    }

    /// Takes the request to second `candidate`.
    ///
    /// Nothing happens where the candidate's relay parent is unknown, where
    /// the candidate is not of this node's parachain there, where this node
    /// has ruled on it before, or where seconding is refused for its depth.
    /// Otherwise a background validation is started unless one is running.
    pub open spec fn on_second(
        self,
        candidate: CandidateReceipt,
        pov: PoV,
        answers: Seq<(H256, Seq<usize>)>,
    ) -> (StateView, Seq<ActionView>) {
        let relay_parent = candidate.descriptor.relay_parent;
        if !self.per_relay_parent.contains_key(relay_parent) || self.seconding_refused(
            relay_parent,
            answers,
        ) {
            (self, Seq::empty())
        } else {
            let (next, actions) = self.per_relay_parent[relay_parent].second(candidate, pov);
            (
                StateView {
                    per_relay_parent: self.per_relay_parent.insert(relay_parent, next),
                    ..self
                },
                actions,
            )
        }
    }
}

/// Why an event was not taken to its end.
#[derive(Clone, Copy, Debug, PartialEq, Eq, Structural)]
pub enum Error {
    /// The candidate that this node was about to second has no place in any
    /// fragment tree. Its statement was not distributed.
    RejectedByProspectiveParachains,
}

/// What the keystore is asked to sign, and as whom.
pub struct SigningJob {
    pub validator: LocalValidator,
    pub context: SigningContext,
    pub statement: Statement,
}

/// The statement that `command` calls this node to sign under
/// `relay_parent`, if any, with the key and the context to sign it with.
/// The signature goes into [`handle_validated_candidate_command`].
pub fn signing_job(state: &State, relay_parent: H256, command: &ValidatedCandidateCommand) -> (job:
    Option<SigningJob>)
    requires
        state.wf(),
    ensures
        match job {
            Some(job) => {
                &&& state@.per_relay_parent.contains_key(relay_parent)
                &&& Some(job.statement) == state@.per_relay_parent[relay_parent].statement_to_sign(
                    *command,
                )
                &&& Some(job.validator) == state@.per_relay_parent[relay_parent].context.validator
                &&& job.context == (SigningContext {
                    parent_hash: state@.per_relay_parent[relay_parent].parent,
                    session_index: state@.per_relay_parent[relay_parent].session_index,
                })
            },
            None => !state@.per_relay_parent.contains_key(relay_parent)
                || state@.per_relay_parent[relay_parent].statement_to_sign(*command).is_none(),
        },
{
    match state.per_relay_parent.get(&relay_parent) {
        Some(rp_state) => {
            match (statement_to_sign(rp_state, command), rp_state.table_context.validator) {
                (Some(statement), Some(validator)) => Some(
                    SigningJob { validator, context: rp_state.signing_context(), statement },
                ),
                _ => None,
            }
        },
        None => None,
    }
}

/// Takes a peer's statement made under `relay_parent`; see
/// [`StateView::on_statement`].
pub fn handle_statement_message(state: &mut State, relay_parent: H256, statement: SignedFullStatement) -> (actions:
    Vec<Action>)
    requires
        old(state).wf(),
    ensures
        final(state).wf(),
        final(state)@ == old(state)@.on_statement(relay_parent, statement).0,
        action_views(actions@) == old(state)@.on_statement(relay_parent, statement).1,
{
    let mut actions: Vec<Action> = Vec::new();
    assert(action_views(actions@) =~= Seq::empty());
    let ghost before = *state;
    match state.per_relay_parent.remove(&relay_parent) {
        Some(rp_state) => {
            let mut rp_state = rp_state;
            let ghost rp = rp_state@;
            let entry = match statement.payload() {
                Statement::Seconded(c) => Some(
                    PerCandidateState {
                        persisted_validation_data_hash: c.descriptor().persisted_validation_data_hash,
                        seconded_locally: false,
                        para_id: c.descriptor().para_id,
                        relay_parent,
                    },
                ),
                Statement::Valid(_) => None,
            };
            let summary = maybe_validate_and_import(&mut rp_state, statement, &mut actions);
            let ghost next = rp_state@;
            state.per_relay_parent.insert(relay_parent, rp_state);
            match (summary, entry) {
                (Some(summary), Some(entry)) => {
                    if !state.per_candidate.contains_key(&summary.candidate) {
                        state.per_candidate.insert(summary.candidate, entry);
                    }
                },
                _ => {},
            }
            proof {
                assert(before@.per_relay_parent.contains_key(relay_parent));
                assert(before@.per_relay_parent[relay_parent] == rp);
                lemma_statement_keeps_inv(rp, statement);
                lemma_frame_statement(rp, statement);
                assert(state@.per_relay_parent =~= before@.per_relay_parent.insert(relay_parent, next));
                assert(state@.per_leaf == before@.per_leaf);
                assert(state@.implicit_view == before@.implicit_view);
                let target = before@.on_statement(relay_parent, statement).0;
                assert(state@ == target);
                lemma_inv_after_rp_step(before@, state@, relay_parent);
            }
        },
        None => {
            proof {
                assert(state.per_relay_parent@ =~= before.per_relay_parent@);
                assert(state@.per_relay_parent =~= before@.per_relay_parent);
            }
        },
    }
    actions
}

/// The invariant of the state is kept where one relay parent's state is
/// replaced by one that keeps its own invariant and hash, and candidates
/// are only added at relay parents that are kept.
pub proof fn lemma_inv_after_rp_step(before: StateView, after: StateView, relay_parent: H256)
    requires
        before.inv(),
        before.per_relay_parent.contains_key(relay_parent),
        after.per_relay_parent.contains_key(relay_parent),
        after.per_relay_parent == before.per_relay_parent.insert(
            relay_parent,
            after.per_relay_parent[relay_parent],
        ),
        after.per_relay_parent[relay_parent].inv(),
        after.per_relay_parent[relay_parent].parent == relay_parent,
        after.implicit_view == before.implicit_view,
        after.per_leaf.dom() == before.per_leaf.dom(),
        forall|c: CandidateHash| #[trigger]
            after.per_candidate.contains_key(c) ==> (before.per_candidate.contains_key(c)
                && after.per_candidate[c].relay_parent == before.per_candidate[c].relay_parent)
                || after.per_candidate[c].relay_parent == relay_parent,
    ensures
        after.inv(),
{
    assert forall|rp: H256| #[trigger] after.per_relay_parent.contains_key(rp) implies {
        &&& after.per_relay_parent[rp].parent == rp
        &&& after.per_relay_parent[rp].inv()
        &&& after.in_view(rp)
    } by {
        assert(before.per_relay_parent.contains_key(rp));
        assert(before.in_view(rp));
        assert(before.per_leaf.dom().contains(rp) == after.per_leaf.dom().contains(rp));
    }
    assert forall|c: CandidateHash| #[trigger] after.per_candidate.contains_key(c) implies after.per_relay_parent.contains_key(
    after.per_candidate[c].relay_parent) by {
        if before.per_candidate.contains_key(c) && after.per_candidate[c].relay_parent
            == before.per_candidate[c].relay_parent {
            assert(before.per_relay_parent.contains_key(before.per_candidate[c].relay_parent));
        }
    }
}

/// The depths that were answered for `leaf`, as a vector of their own.
pub fn answered_depths(answers: &Vec<(H256, Vec<usize>)>, leaf: &H256) -> (depths: Vec<usize>)
    ensures
        depths@ == depth_answers(answer_views(answers@), *leaf),
{
    let ghost views = answer_views(answers@);
    let mut i: usize = answers.len();
    assert(views.take(i as int) =~= views);
    while i > 0
        invariant
            i <= answers.len(),
            views == answer_views(answers@),
            depth_answers(views, *leaf) == depth_answers(views.take(i as int), *leaf),
        decreases i,
    {
        i -= 1;
        proof {
            let shorter = views.take(i + 1);
            assert(shorter.drop_last() =~= views.take(i as int));
            assert(shorter.last() == (answers@[i as int].0, answers@[i as int].1@));
        }
        if answers[i].0 == *leaf {
            let found = &answers[i].1;
            let mut depths: Vec<usize> = Vec::new();
            let mut j: usize = 0;
            while j < found.len()
                invariant
                    j <= found.len(),
                    depths@ == found@.take(j as int),
                decreases found.len() - j,
            {
                depths.push(found[j]);
                assert(found@.take(j + 1) =~= found@.take(j as int).push(found@[j as int]));
                j += 1;
            }
            assert(found@.take(found@.len() as int) =~= found@);
            return depths;
        }
    }
    Vec::new()
}

/// The depths that a candidate built on `relay_parent` would have under a
/// leaf; see [`leaf_depths`].
fn depths_under(
    leaf_hash: &H256,
    mode: ProspectiveParachainsMode,
    relay_parent: &H256,
    answers: &Vec<(H256, Vec<usize>)>,
) -> (depths: Vec<usize>)
    ensures
        depths@ == leaf_depths(*leaf_hash, mode, *relay_parent, answer_views(answers@)),
{
    match mode {
        ProspectiveParachainsMode::Disabled => {
            let mut depths: Vec<usize> = Vec::new();
            if *leaf_hash == *relay_parent {
                depths.push(0);
                assert(depths@ =~= seq![0usize]);
            }
            depths
        },
        ProspectiveParachainsMode::Enabled => answered_depths(answers, leaf_hash),
    }
}

/// Whether a candidate is entered at one of `depths`.
fn is_occupied(seconded_at_depth: &VecMap<usize, CandidateHash>, depths: &Vec<usize>) -> (r: bool)
    requires
        seconded_at_depth.wf(),
    ensures
        r == occupied(seconded_at_depth@, depths@),
{
    let mut i: usize = 0;
    while i < depths.len()
        invariant
            i <= depths.len(),
            seconded_at_depth.wf(),
            forall|j: int| 0 <= j < i ==> !seconded_at_depth@.contains_key(#[trigger] depths@[j]),
        decreases depths.len() - i,
    {
        if seconded_at_depth.contains_key(&depths[i]) {
            return true;
        }
        i += 1;
    }
    false
}

/// Whether seconding a candidate built on `relay_parent` is refused; see
/// [`StateView::seconding_refused`].
pub fn seconding_refused(state: &State, relay_parent: &H256, answers: &Vec<(H256, Vec<usize>)>) -> (r:
    bool)
    requires
        state.wf(),
    ensures
        r == state@.seconding_refused(*relay_parent, answer_views(answers@)),
{
    let n = state.per_leaf.len();
    let ghost views = answer_views(answers@);
    let mut i: usize = 0;
    while i < n
        invariant
            i <= n,
            n == state.per_leaf.keys().len(),
            state.wf(),
            views == answer_views(answers@),
            forall|j: int|
                0 <= j < i ==> !occupied(
                    state@.per_leaf[state.per_leaf.keys()[j]].seconded_at_depth,
                    leaf_depths(
                        state.per_leaf.keys()[j],
                        state@.per_leaf[state.per_leaf.keys()[j]].mode,
                        *relay_parent,
                        views,
                    ),
                ),
        decreases n - i,
    {
        let leaf_hash = state.per_leaf.key_at(i);
        let leaf = state.per_leaf.value_at(i);
        let depths = depths_under(&leaf_hash, leaf.prospective_parachains_mode, relay_parent, answers);
        if is_occupied(&leaf.seconded_at_depth, &depths) {
            assert(state@.per_leaf.contains_key(leaf_hash));
            return true;
        }
        i += 1;
    }
    proof {
        state.per_leaf.lemma_keys();
        assert forall|leaf: H256| #[trigger] state@.per_leaf.contains_key(leaf) implies !occupied(
            state@.per_leaf[leaf].seconded_at_depth,
            leaf_depths(leaf, state@.per_leaf[leaf].mode, *relay_parent, views),
        ) by {
            assert(state.per_leaf.keys().contains(leaf));
            let j = state.per_leaf.keys().index_of(leaf);
            assert(state.per_leaf.keys()[j] == leaf);
        }
    }
    false
}

/// Enters `hash` at each of `depths`.
pub fn mark(seconded_at_depth: &mut VecMap<usize, CandidateHash>, depths: &Vec<usize>, hash: CandidateHash)
    requires
        old(seconded_at_depth).wf(),
    ensures
        final(seconded_at_depth).wf(),
        final(seconded_at_depth)@ == marked(old(seconded_at_depth)@, depths@, hash),
{
    let mut i: usize = 0;
    while i < depths.len()
        invariant
            i <= depths.len(),
            seconded_at_depth.wf(),
            seconded_at_depth@ == marked(old(seconded_at_depth)@, depths@.take(i as int), hash),
        decreases depths.len() - i,
    {
        proof {
            let next = depths@.take(i + 1);
            assert(next.drop_last() =~= depths@.take(i as int));
            assert(next.last() == depths@[i as int]);
        }
        seconded_at_depth.insert(depths[i], hash);
        i += 1;
    }
    assert(depths@.take(depths@.len() as int) =~= depths@);
}

/// Enters `hash`, which this node has seconded on `relay_parent`, at its
/// depths under each active leaf.
fn record_seconded(
    per_leaf: &mut VecMap<H256, ActiveLeafState>,
    relay_parent: &H256,
    answers: &Vec<(H256, Vec<usize>)>,
    hash: CandidateHash,
)
    requires
        old(per_leaf).wf(),
        forall|leaf: H256| #[trigger]
            old(per_leaf)@.contains_key(leaf) ==> old(per_leaf)@[leaf].seconded_at_depth.wf(),
    ensures
        final(per_leaf).wf(),
        forall|leaf: H256| #[trigger]
            final(per_leaf)@.contains_key(leaf) ==> final(per_leaf)@[leaf].seconded_at_depth.wf(),
        forall|leaf: H256| final(per_leaf)@.contains_key(leaf) <==> old(per_leaf)@.contains_key(leaf),
        forall|leaf: H256| #[trigger]
            final(per_leaf)@.contains_key(leaf) ==> final(per_leaf)@[leaf]@ == (LeafView {
                seconded_at_depth: marked(
                    old(per_leaf)@[leaf]@.seconded_at_depth,
                    leaf_depths(
                        leaf,
                        old(per_leaf)@[leaf]@.mode,
                        *relay_parent,
                        answer_views(answers@),
                    ),
                    hash,
                ),
                ..old(per_leaf)@[leaf]@
            }),
{
    let ghost start = per_leaf@;
    let ghost views = answer_views(answers@);
    let mut rebuilt: VecMap<H256, ActiveLeafState> = VecMap::new();
    loop
        invariant
            per_leaf.wf(),
            rebuilt.wf(),
            views == answer_views(answers@),
            forall|leaf: H256| #[trigger]
                per_leaf@.contains_key(leaf) ==> start.contains_key(leaf) && per_leaf@[leaf]
                    == start[leaf],
            forall|leaf: H256| #[trigger]
                start.contains_key(leaf) ==> start[leaf].seconded_at_depth.wf(),
            forall|leaf: H256|
                start.contains_key(leaf) ==> (#[trigger] per_leaf@.contains_key(leaf)
                    || rebuilt@.contains_key(leaf)),
            forall|leaf: H256| #[trigger]
                rebuilt@.contains_key(leaf) ==> {
                    &&& start.contains_key(leaf)
                    &&& !per_leaf@.contains_key(leaf)
                    &&& rebuilt@[leaf].seconded_at_depth.wf()
                    &&& rebuilt@[leaf]@ == (LeafView {
                        seconded_at_depth: marked(
                            start[leaf]@.seconded_at_depth,
                            leaf_depths(leaf, start[leaf]@.mode, *relay_parent, views),
                            hash,
                        ),
                        ..start[leaf]@
                    })
                },
        ensures
            per_leaf.wf(),
            rebuilt.wf(),
            per_leaf@ == Map::<H256, ActiveLeafState>::empty(),
            forall|leaf: H256| start.contains_key(leaf) <==> rebuilt@.contains_key(leaf),
            forall|leaf: H256| #[trigger]
                rebuilt@.contains_key(leaf) ==> {
                    &&& rebuilt@[leaf].seconded_at_depth.wf()
                    &&& rebuilt@[leaf]@ == (LeafView {
                        seconded_at_depth: marked(
                            start[leaf]@.seconded_at_depth,
                            leaf_depths(leaf, start[leaf]@.mode, *relay_parent, views),
                            hash,
                        ),
                        ..start[leaf]@
                    })
                },
        decreases per_leaf@.dom().len(),
    {
        proof {
            per_leaf.lemma_keys();
        }
        match per_leaf.pop() {
            Some((leaf_hash, leaf)) => {
                let mut leaf = leaf;
                assert(start.contains_key(leaf_hash));
                let depths = depths_under(
                    &leaf_hash,
                    leaf.prospective_parachains_mode,
                    relay_parent,
                    answers,
                );
                mark(&mut leaf.seconded_at_depth, &depths, hash);
                rebuilt.insert(leaf_hash, leaf);
            },
            None => {
                proof {
                    assert forall|leaf: H256| start.contains_key(leaf) implies rebuilt@.contains_key(
                        leaf,
                    ) by {
                        assert(!per_leaf@.contains_key(leaf));
                    }
                }
                break ;
            },
        }
    }
    std::mem::swap(per_leaf, &mut rebuilt);
}

/// Takes the result of a background validation under `relay_parent`; see
/// [`StateView::on_validated`].
///
/// `signature` is the keystore's signature on the statement of
/// [`signing_job`], if it gave one. `answers` names, for each active leaf
/// that allows building on ancestors, the depths that the candidate has under
/// it.
pub fn handle_validated_candidate_command(
    state: &mut State,
    relay_parent: H256,
    command: ValidatedCandidateCommand,
    signature: Option<ValidatorSignature>,
    answers: &Vec<(H256, Vec<usize>)>,
) -> (r: Result<Vec<Action>, Error>)
    requires
        old(state).wf(),
    ensures
        final(state).wf(),
        final(state)@ == old(state)@.on_validated(
            relay_parent,
            command,
            signature,
            answer_views(answers@),
        ).0,
        match r {
            Ok(actions) => {
                &&& !old(state)@.rejects(relay_parent, command, signature, answer_views(answers@))
                &&& action_views(actions@) == old(state)@.on_validated(
                    relay_parent,
                    command,
                    signature,
                    answer_views(answers@),
                ).1
            },
            Err(e) => {
                &&& e == Error::RejectedByProspectiveParachains
                &&& old(state)@.rejects(relay_parent, command, signature, answer_views(answers@))
                &&& old(state)@.on_validated(
                    relay_parent,
                    command,
                    signature,
                    answer_views(answers@),
                ).1.len() == 0
            },
        },
{
    let mut actions: Vec<Action> = Vec::new();
    assert(action_views(actions@) =~= Seq::empty());
    let ghost before = *state;
    let no_place = match &command {
        ValidatedCandidateCommand::Second(Ok(_)) => state.implicit_view.is_allowed(&relay_parent)
            && no_depths(answers),
        _ => false,
    };
    assert(no_place == before@.has_no_place(relay_parent, command, answer_views(answers@)));
    let given = signature;
    let signature = if no_place {
        None
    } else {
        signature
    };
    let mut rejected = false;
    match state.per_relay_parent.remove(&relay_parent) {
        Some(rp_state) => {
            let mut rp_state = rp_state;
            let ghost rp = rp_state@;
            let receipt = match &command {
                ValidatedCandidateCommand::Second(Ok(v)) => Some(v.candidate),
                _ => None,
            };
            rejected = no_place && given.is_some() && statement_to_sign(&rp_state, &command).is_some();
            let seconded = on_validated_candidate_command(
                &mut rp_state,
                command,
                signature,
                &mut actions,
            );
            let ghost next = rp_state@;
            state.per_relay_parent.insert(relay_parent, rp_state);
            match (seconded, receipt) {
                (Some(hash), Some(receipt)) => {
                    record_seconded(&mut state.per_leaf, &relay_parent, answers, hash);
                    state.per_candidate.insert(
                        hash,
                        PerCandidateState {
                            persisted_validation_data_hash:
                                receipt.descriptor.persisted_validation_data_hash,
                            seconded_locally: true,
                            para_id: receipt.descriptor.para_id,
                            relay_parent,
                        },
                    );
                },
                _ => {},
            }
            proof {
                assert(before@.per_relay_parent.contains_key(relay_parent));
                assert(before@.per_relay_parent[relay_parent] == rp);
                lemma_signs_once(rp, command, signature);
                lemma_frame_validated(rp, command, signature);
                assert(state@.per_relay_parent =~= before@.per_relay_parent.insert(relay_parent, next));
                let target = before@.on_validated(
                    relay_parent,
                    command,
                    given,
                    answer_views(answers@),
                ).0;
                assert(state@.per_leaf =~= target.per_leaf);
                assert(state@ == target);
                assert(state@.per_leaf.dom() =~= before@.per_leaf.dom());
                lemma_inv_after_rp_step(before@, state@, relay_parent);
            }
        },
        None => {
            proof {
                assert(state.per_relay_parent@ =~= before.per_relay_parent@);
                assert(state@.per_relay_parent =~= before@.per_relay_parent);
            }
        },
    }
    if rejected {
        Err(Error::RejectedByProspectiveParachains)
    } else {
        Ok(actions)
    }
}

/// Whether no answer names a depth.
fn no_depths(answers: &Vec<(H256, Vec<usize>)>) -> (r: bool)
    ensures
        r == (forall|i: int|
            0 <= i < answer_views(answers@).len() ==> (#[trigger] answer_views(answers@)[i]).1.len()
                == 0),
{
    let ghost views = answer_views(answers@);
    let mut i: usize = 0;
    while i < answers.len()
        invariant
            i <= answers.len(),
            views == answer_views(answers@),
            forall|j: int| 0 <= j < i ==> (#[trigger] views[j]).1.len() == 0,
        decreases answers.len() - i,
    {
        if answers[i].1.len() > 0 {
            assert(views[i as int].1.len() > 0);
            return false;
        }
        assert(views[i as int].1.len() == 0);
        i += 1;
    }
    true
}

/// Takes the request to second `candidate` with its proof of validity; see
/// [`StateView::on_second`].
///
/// `answers` names, for each active leaf that allows building on ancestors,
/// the depths that the candidate would have under it.
pub fn handle_second_msg(
    state: &mut State,
    candidate: CandidateReceipt,
    pov: PoV,
    answers: &Vec<(H256, Vec<usize>)>,
) -> (actions: Vec<Action>)
    requires
        old(state).wf(),
    ensures
        final(state).wf(),
        final(state)@ == old(state)@.on_second(candidate, pov, answer_views(answers@)).0,
        action_views(actions@) == old(state)@.on_second(candidate, pov, answer_views(answers@)).1,
{
    let mut actions: Vec<Action> = Vec::new();
    assert(action_views(actions@) =~= Seq::empty());
    let ghost before = *state;
    let relay_parent = candidate.descriptor().relay_parent;
    if !state.per_relay_parent.contains_key(&relay_parent) || seconding_refused(
        state,
        &relay_parent,
        answers,
    ) {
        return actions;
    }
    match state.per_relay_parent.remove(&relay_parent) {
        Some(rp_state) => {
            let mut rp_state = rp_state;
            let ghost rp = rp_state@;
            validate_and_second(&mut rp_state, &candidate, pov, &mut actions);
            let ghost next = rp_state@;
            state.per_relay_parent.insert(relay_parent, rp_state);
            proof {
                assert(before@.per_relay_parent.contains_key(relay_parent));
                assert(before@.per_relay_parent[relay_parent] == rp);
                lemma_second_keeps_inv(rp, candidate, pov);
                assert(state@.per_relay_parent =~= before@.per_relay_parent.insert(relay_parent, next));
                assert(state@.per_leaf == before@.per_leaf);
                lemma_inv_after_rp_step(before@, state@, relay_parent);
            }
        },
        None => {
            assert(false);
        },
    }
    actions
}

/// The backed candidates of those among `requested` that are attested under
/// `relay_parent`, in the order of the request; none under an unknown relay
/// parent.
pub fn handle_get_backed_candidates(state: &State, relay_parent: H256, requested: &Vec<CandidateHash>) -> (backed:
    Vec<BackedCandidate>)
    requires
        state.wf(),
    ensures
        backed_views(backed@) == if state@.per_relay_parent.contains_key(relay_parent) {
            state@.per_relay_parent[relay_parent].backed_candidates(requested@)
        } else {
            Seq::empty()
        },
{
    match state.per_relay_parent.get(&relay_parent) {
        Some(rp_state) => handle_get_backed_candidates_message(rp_state, requested),
        None => {
            let backed: Vec<BackedCandidate> = Vec::new();
            assert(backed_views(backed@) =~= Seq::empty());
            backed
        },
    }
}

} // verus!
