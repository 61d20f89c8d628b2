//! The backing work under one relay parent: the statement table with its
//! context, and the record of what this node has ruled on, is validating,
//! and has seen backed.

use crate::backed::{backed, table_attested_to_backed, BackedCandidate, BackedView};
use crate::collections::{VecMap, VecSet};
use crate::context::{ContextView, TableContext};
use crate::messages::{
    action_views, emit, Action, ActionView, BackgroundValidationParams, CommandKind, PoVData,
    ValidatedCandidateCommand,
};
use crate::primitives::{
    CandidateHash, CandidateReceipt, CommittedCandidateReceipt, ParaId, PoV, SessionIndex,
    SignedFullStatement, SigningContext, Statement, ValidatorIndex, ValidatorSignature, H256,
};
use crate::table::{Misbehavior, SignedStatement, Summary, Table, TableView};
use vstd::prelude::*;

verus! {

/// What is needed to validate a candidate that a peer seconded, and to try
/// again with another validator where the first does not send the proof of
/// validity.
pub struct AttestingData {
    /// The candidate to attest.
    pub candidate: CandidateReceipt,
    /// The digest of the proof of validity to fetch.
    pub pov_hash: H256,
    /// The validator that is asked for the proof of validity.
    pub from_validator: ValidatorIndex,
    /// Other validators that vouched for the candidate, to ask next.
    pub backing: Vec<ValidatorIndex>,
}

/// The mathematical content of an [`AttestingData`].
pub struct AttestingView {
    pub candidate: CandidateReceipt,
    pub pov_hash: H256,
    pub from_validator: ValidatorIndex,
    pub backing: Seq<ValidatorIndex>,
}

impl View for AttestingData {
    type V = AttestingView;

    open spec fn view(&self) -> AttestingView {
        AttestingView {
            candidate: self.candidate,
            pov_hash: self.pov_hash,
            from_validator: self.from_validator,
            backing: self.backing@,
        }
    }
}

/// The statement in the form that the table takes.
pub open spec fn spec_statement_to_table(s: SignedFullStatement) -> SignedStatement {
    SignedStatement { statement: s.payload, signature: s.signature, sender: s.validator_index }
}

/// Puts a signed statement into the form that the table takes.
pub fn primitive_statement_to_table(s: &SignedFullStatement) -> (t: SignedStatement)
    ensures
        t == spec_statement_to_table(*s),
{
    let statement = match s.payload() {
        Statement::Seconded(c) => Statement::Seconded(c.clone()),
        Statement::Valid(h) => Statement::Valid(*h),
    };
    SignedStatement { statement, signature: *s.signature(), sender: s.validator_index() }
}

/// One report to the provisioner for each pending report of the table.
pub open spec fn report_actions(
    relay_parent: H256,
    reports: Seq<(ValidatorIndex, Misbehavior)>,
) -> Seq<ActionView> {
    reports.map_values(
        |r: (ValidatorIndex, Misbehavior)|
            ActionView::ReportMisbehavior { relay_parent, validator: r.0, report: r.1 },
    )
}

/// The mathematical content of a [`PerRelayParentState`].
pub struct RelayParentView {
    pub parent: H256,
    pub session_index: SessionIndex,
    pub assignment: Option<ParaId>,
    pub backed: Set<CandidateHash>,
    pub table: TableView,
    pub context: ContextView,
    pub issued: Set<CandidateHash>,
    pub awaiting: Set<CandidateHash>,
    pub fallbacks: Map<CandidateHash, AttestingView>,
}

impl RelayParentView {
    /// What holds between any two events: the table is consistent and has
    /// no pending report, every voter is a member of its candidate's group,
    /// and no candidate that this node has ruled on is being validated.
    pub open spec fn inv(self) -> bool {
        &&& self.table.inv()
        &&& self.table.voters_are_members(self.context)
        &&& self.table.misbehaviors.len() == 0
        &&& self.awaiting.disjoint(self.issued)
    }

    /// Whether the sender's index is within the validator set.
    pub open spec fn sender_known(self, s: SignedFullStatement) -> bool {
        (s.validator_index.0 as int) < self.context.validators.len()
    }

    /// The receipt that a statement is about: its own for `Seconded`, the
    /// table's for `Valid`.
    pub open spec fn dispute_receipt(self, s: SignedFullStatement) -> Option<CandidateReceipt> {
        match s.payload {
            Statement::Seconded(c) => Some(c.receipt),
            Statement::Valid(h) => if self.table.candidates.contains_key(h) {
                Some(self.table.candidates[h].candidate.receipt)
            } else {
                None
            },
        }
    }

    /// The notification of the dispute coordinator for a statement whose
    /// sender is known.
    pub open spec fn dispute_actions(self, s: SignedFullStatement) -> Seq<ActionView> {
        match self.dispute_receipt(s) {
            Some(receipt) => seq![
                ActionView::ImportDisputeStatement {
                    relay_parent: self.parent,
                    candidate_hash: s.payload.spec_candidate_hash(),
                    candidate_receipt: receipt,
                    session: self.session_index,
                    statement: s,
                    validator_index: s.validator_index,
                    validator_public: self.context.validators[s.validator_index.0 as int],
                },
            ],
            None => Seq::empty(),
        }
    }

    /// The candidate whose vote was just summarised, where it is attested
    /// now and was not backed before.
    pub open spec fn newly_backed(self, table: TableView, summary: Option<Summary>) -> Option<
        CandidateHash,
    > {
        match summary {
            Some(summary) => if table.attested(self.context, summary.candidate).is_some()
                && !self.backed.contains(summary.candidate) {
                Some(summary.candidate)
            } else {
                None
            },
            None => None,
        }
    }

    /// The message to the provisioner for a newly backed candidate.
    pub open spec fn backed_actions(self, table: TableView, candidate: Option<CandidateHash>) -> Seq<
        ActionView,
    > {
        match candidate {
            Some(hash) => match backed(table.attested(self.context, hash).unwrap(), self.context) {
                Some(b) => seq![ActionView::ProvideBacked { relay_parent: self.parent, candidate: b }],
                None => Seq::empty(),
            },
            None => Seq::empty(),
        }
    }

    /// Imports a statement into the table.
    ///
    /// A statement whose sender is not in the validator set is dropped. Any
    /// other is made known to the dispute coordinator, where its receipt is
    /// known, and imported. If the vote makes the candidate attested and it
    /// was not backed before, it is backed from now on and goes to the
    /// provisioner. The table's reports go to the provisioner too.
    pub open spec fn import_statement(self, s: SignedFullStatement) -> (
        RelayParentView,
        Option<Summary>,
        Seq<ActionView>,
    ) {
        if !self.sender_known(s) {
            (self, None, Seq::empty())
        } else {
            let (table, summary) = self.table.import(self.context, spec_statement_to_table(s));
            let fresh = self.newly_backed(table, summary);
            let next = RelayParentView {
                table: table.drained(),
                backed: match fresh {
                    Some(hash) => self.backed.insert(hash),
                    None => self.backed,
                },
                ..self
            };
            (
                next,
                summary,
                self.dispute_actions(s) + self.backed_actions(table, fresh) + report_actions(
                    self.parent,
                    table.misbehaviors,
                ),
            )
        }
    }

    /// Starts a background validation unless one is running for the
    /// candidate.
    pub open spec fn background_validate(self, params: BackgroundValidationParams) -> (
        RelayParentView,
        Seq<ActionView>,
    ) {
        let hash = params.candidate.hash;
        if self.awaiting.contains(hash) {
            (self, Seq::empty())
        } else {
            (
                RelayParentView { awaiting: self.awaiting.insert(hash), ..self },
                seq![ActionView::Validate(params)],
            )
        }
    }

    /// The parameters of a validation that fetches the proof of validity
    /// from `from_validator`.
    pub open spec fn attest_params(self, attesting: AttestingView) -> BackgroundValidationParams {
        BackgroundValidationParams {
            candidate: attesting.candidate,
            relay_parent: self.parent,
            pov: PoVData::FetchFromValidator {
                from_validator: attesting.from_validator,
                candidate_hash: attesting.candidate.hash,
                pov_hash: attesting.pov_hash,
            },
            n_validators: self.context.validators.len() as usize,
            make_command: CommandKind::Attest,
        }
    }

    /// Starts validating a peer's candidate unless this node has ruled on
    /// it already.
    pub open spec fn kick_off(self, attesting: AttestingView) -> (RelayParentView, Seq<ActionView>) {
        if self.issued.contains(attesting.candidate.hash) {
            (self, Seq::empty())
        } else {
            self.background_validate(self.attest_params(attesting))
        }
    }

    /// This node's own index, where it is a validator.
    pub open spec fn our_index(self) -> Option<ValidatorIndex> {
        match self.context.validator {
            Some(v) => Some(v.index),
            None => None,
        }
    }

    /// What follows the import of a peer's statement that was accepted for
    /// a candidate of this node's own parachain.
    pub open spec fn follow_up(self, s: SignedFullStatement, summary: Summary) -> (
        RelayParentView,
        Seq<ActionView>,
    ) {
        match s.payload {
            Statement::Seconded(receipt) => {
                let attesting = AttestingView {
                    candidate: self.table.candidates[summary.candidate].candidate.receipt,
                    pov_hash: receipt.receipt.descriptor.pov_hash,
                    from_validator: s.validator_index,
                    backing: Seq::empty(),
                };
                RelayParentView {
                    fallbacks: self.fallbacks.insert(summary.candidate, attesting),
                    ..self
                }.kick_off(attesting)
            },
            Statement::Valid(hash) => {
                if !self.fallbacks.contains_key(hash) || self.our_index() == Some(
                    s.validator_index,
                ) {
                    (self, Seq::empty())
                } else if self.awaiting.contains(hash) {
                    let attesting = self.fallbacks[hash];
                    (
                        RelayParentView {
                            fallbacks: self.fallbacks.insert(
                                hash,
                                AttestingView {
                                    backing: attesting.backing.push(s.validator_index),
                                    ..attesting
                                },
                            ),
                            ..self
                        },
                        Seq::empty(),
                    )
                } else {
                    let attesting = AttestingView {
                        from_validator: s.validator_index,
                        ..self.fallbacks[hash]
                    };
                    RelayParentView {
                        fallbacks: self.fallbacks.insert(hash, attesting),
                        ..self
                    }.kick_off(attesting)
                }
            },
        }
    }

    /// Imports a peer's statement and starts validation work where the
    /// candidate is of this node's own parachain.
    pub open spec fn maybe_validate_and_import(self, s: SignedFullStatement) -> (
        RelayParentView,
        Seq<ActionView>,
    ) {
        let (next, summary, actions) = self.import_statement(s);
        match summary {
            Some(summary) => if Some(summary.group_id) != next.assignment {
                (next, actions)
            } else {
                let (last, more) = next.follow_up(s, summary);
                (last, actions + more)
            },
            None => (next, actions),
        }
    }

    /// The statement that a result of background validation calls this node
    /// to sign: none where it has ruled on the candidate before, where it is
    /// no validator, or where validation failed.
    pub open spec fn statement_to_sign(self, command: ValidatedCandidateCommand) -> Option<
        Statement,
    > {
        if self.issued.contains(command.spec_candidate_hash()) || self.context.validator.is_none() {
            None
        } else {
            match command {
                ValidatedCandidateCommand::Second(Ok(v)) => Some(
                    Statement::Seconded(
                        CommittedCandidateReceipt {
                            receipt: v.candidate,
                            commitments: v.commitments.body,
                        },
                    ),
                ),
                ValidatedCandidateCommand::Attest(Ok(v)) => Some(Statement::Valid(v.candidate.hash)),
                _ => None,
            }
        }
    }

    /// This node's statement, where it is called for and the keystore gave
    /// a signature.
    pub open spec fn signed(
        self,
        command: ValidatedCandidateCommand,
        signature: Option<ValidatorSignature>,
    ) -> Option<SignedFullStatement> {
        match (self.statement_to_sign(command), signature) {
            (Some(payload), Some(signature)) => Some(
                SignedFullStatement {
                    payload,
                    validator_index: self.context.validator.unwrap().index,
                    signature,
                },
            ),
            _ => None,
        }
    }

    /// Imports this node's own statement and hands it to statement
    /// distribution.
    pub open spec fn import_and_distribute(self, s: SignedFullStatement) -> (
        RelayParentView,
        Seq<ActionView>,
    ) {
        let (next, _summary, actions) = self.import_statement(s);
        (next, actions.push(ActionView::Share { relay_parent: self.parent, statement: s }))
    }

    /// Takes the result of a background validation. `signature` is the
    /// keystore's signature on [`Self::statement_to_sign`], if it gave one.
    ///
    /// The third component is the candidate that this node has seconded by
    /// this event, if any.
    pub open spec fn on_validated(
        self,
        command: ValidatedCandidateCommand,
        signature: Option<ValidatorSignature>,
    ) -> (RelayParentView, Seq<ActionView>, Option<CandidateHash>) {
        let hash = command.spec_candidate_hash();
        let idle = RelayParentView { awaiting: self.awaiting.remove(hash), ..self };
        match command {
            ValidatedCandidateCommand::Second(Ok(_)) => match idle.signed(command, signature) {
                Some(statement) => {
                    let (next, actions) = idle.import_and_distribute(statement);
                    (
                        RelayParentView { issued: next.issued.insert(hash), ..next },
                        actions.push(
                            ActionView::NotifySeconded { relay_parent: self.parent, statement },
                        ),
                        Some(hash),
                    )
                },
                None => (idle, Seq::empty(), None),
            },
            ValidatedCandidateCommand::Second(Err(candidate)) => (
                idle,
                seq![ActionView::NotifyInvalid { relay_parent: self.parent, receipt: candidate }],
                None,
            ),
            ValidatedCandidateCommand::Attest(_) => {
                let done = RelayParentView { fallbacks: idle.fallbacks.remove(hash), ..idle };
                if done.issued.contains(hash) {
                    (done, Seq::empty(), None)
                } else {
                    let (next, actions) = match done.signed(command, signature) {
                        Some(statement) => done.import_and_distribute(statement),
                        None => (done, Seq::empty()),
                    };
                    (RelayParentView { issued: next.issued.insert(hash), ..next }, actions, None)
                }
            },
            ValidatedCandidateCommand::AttestNoPoV(_) => {
                if idle.fallbacks.contains_key(hash) && idle.fallbacks[hash].backing.len() > 0 {
                    let attesting = idle.fallbacks[hash];
                    let retry = AttestingView {
                        from_validator: attesting.backing.last(),
                        backing: attesting.backing.drop_last(),
                        ..attesting
                    };
                    let (next, actions) = RelayParentView {
                        fallbacks: idle.fallbacks.insert(hash, retry),
                        ..idle
                    }.kick_off(retry);
                    (next, actions, None)
                } else {
                    (idle, Seq::empty(), None)
                }
            },
        }
    }

    /// Starts validating a collation that this node was asked to second:
    /// only for its own parachain, and not where it has ruled on the
    /// candidate before.
    pub open spec fn second(self, candidate: CandidateReceipt, pov: PoV) -> (
        RelayParentView,
        Seq<ActionView>,
    ) {
        if Some(candidate.descriptor.para_id) != self.assignment || self.issued.contains(
            candidate.hash,
        ) {
            (self, Seq::empty())
        } else {
            self.background_validate(
                BackgroundValidationParams {
                    candidate,
                    relay_parent: self.parent,
                    pov: PoVData::Ready(pov),
                    n_validators: self.context.validators.len() as usize,
                    make_command: CommandKind::Second,
                },
            )
        }
    }

    /// The backed candidate of `hash`, where it is attested.
    pub open spec fn backed_candidate(self, hash: CandidateHash) -> Option<BackedView> {
        match self.table.attested(self.context, hash) {
            Some(attested) => backed(attested, self.context),
            None => None,
        }
    }

    /// The backed candidates of those among `requested` that are attested,
    /// in the order of the request.
    pub open spec fn backed_candidates(self, requested: Seq<CandidateHash>) -> Seq<BackedView>
        decreases requested.len(),
    {
        if requested.len() == 0 {
            Seq::empty()
        } else {
            let earlier = self.backed_candidates(requested.drop_last());
            match self.backed_candidate(requested.last()) {
                Some(b) => earlier.push(b),
                None => earlier,
            }
        }
    }
}

/// The state of the backing work under one relay parent.
pub struct PerRelayParentState {
    /// The relay parent that the work is done under.
    pub parent: H256,
    /// The session of the relay parent's child.
    pub session_index: SessionIndex,
    /// The parachain that this node is assigned to at this relay parent.
    pub assignment: Option<ParaId>,
    /// The candidates that have been seen backed.
    pub backed: VecSet<CandidateHash>,
    /// The table of candidates and statements.
    pub table: Table,
    /// The validators and groups that the table goes by.
    pub table_context: TableContext,
    /// The candidates that this node has ruled on.
    pub issued_statements: VecSet<CandidateHash>,
    /// The candidates that are being validated in the background.
    pub awaiting_validation: VecSet<CandidateHash>,
    /// What is needed to try another validator where a proof of validity
    /// does not come.
    pub fallbacks: VecMap<CandidateHash, AttestingData>,
}

impl View for PerRelayParentState {
    type V = RelayParentView;

    open spec fn view(&self) -> RelayParentView {
        RelayParentView {
            parent: self.parent,
            session_index: self.session_index,
            assignment: self.assignment,
            backed: self.backed@,
            table: self.table@,
            context: self.table_context@,
            issued: self.issued_statements@,
            awaiting: self.awaiting_validation@,
            fallbacks: self.fallbacks@.map_values(|a: AttestingData| a@),
        }
    }
}

impl PerRelayParentState {
    /// The collections are well formed.
    pub open spec fn wf(&self) -> bool {
        &&& self.backed.wf()
        &&& self.table.wf()
        &&& self.table_context.wf()
        &&& self.issued_statements.wf()
        &&& self.awaiting_validation.wf()
        &&& self.fallbacks.wf()
    }

    /// The state that backing work under `parent` starts from.
    pub fn new(
        parent: H256,
        session_index: SessionIndex,
        assignment: Option<ParaId>,
        table_context: TableContext,
    ) -> (s: Self)
        requires
            table_context.wf(),
        ensures
            s.wf(),
            s@ == (RelayParentView {
                parent,
                session_index,
                assignment,
                backed: Set::empty(),
                table: TableView::empty(),
                context: table_context@,
                issued: Set::empty(),
                awaiting: Set::empty(),
                fallbacks: Map::empty(),
            }),
    {
        let s = PerRelayParentState {
            parent,
            session_index,
            assignment,
            backed: VecSet::new(),
            table: Table::new(),
            table_context,
            issued_statements: VecSet::new(),
            awaiting_validation: VecSet::new(),
            fallbacks: VecMap::new(),
        };
        assert(s@.fallbacks =~= Map::empty());
        s
    }

    /// The signing context of statements made under this relay parent.
    pub fn signing_context(&self) -> (c: SigningContext)
        ensures
            c == (SigningContext { parent_hash: self.parent, session_index: self.session_index }),
    {
        SigningContext { parent_hash: self.parent, session_index: self.session_index }
    }
}

/// Lets the dispute coordinator know of a statement that is about to be
/// imported. The receipt comes from the statement itself or, for a validity
/// vote, from the table; without a receipt nothing is sent.
///
/// Answers `false`, and does nothing, where the sender's index is not
/// within the validator set.
pub fn dispatch_new_statement_to_dispute_coordinator(
    rp_state: &PerRelayParentState,
    candidate_hash: CandidateHash,
    statement: &SignedFullStatement,
    actions: &mut Vec<Action>,
) -> (in_bounds: bool)
    requires
        rp_state.wf(),
        candidate_hash == statement.payload.spec_candidate_hash(),
    ensures
        in_bounds == rp_state@.sender_known(*statement),
        action_views(final(actions)@) == action_views(old(actions)@) + (if in_bounds {
            rp_state@.dispute_actions(*statement)
        } else {
            Seq::empty()
        }),
{
    let validator_index = statement.validator_index();
    let index = validator_index.0 as usize;
    if index >= rp_state.table_context.validators.len() {
        assert(action_views(actions@) =~= action_views(actions@) + Seq::empty());
        return false;
    }
    let validator_public = rp_state.table_context.validators[index];
    let maybe_candidate_receipt = match statement.payload() {
        Statement::Seconded(receipt) => Some(receipt.to_plain()),
        Statement::Valid(candidate_hash) => match rp_state.table.get_candidate(candidate_hash) {
            Some(c) => Some(c.to_plain()),
            None => None,
        },
    };
    match maybe_candidate_receipt {
        Some(candidate_receipt) => {
            let ghost before = action_views(actions@);
            emit(
                actions,
                Action::ImportDisputeStatement {
                    relay_parent: rp_state.parent,
                    candidate_hash,
                    candidate_receipt,
                    session: rp_state.session_index,
                    statement: statement.clone(),
                    validator_index,
                    validator_public,
                },
            );
            assert(action_views(actions@) =~= before + rp_state@.dispute_actions(*statement));
        },
        None => {
            assert(action_views(actions@) =~= action_views(actions@) + Seq::empty());
        },
    }
    true
}

/// Hands the table's pending reports to the provisioner.
pub fn issue_new_misbehaviors(relay_parent: H256, table: &mut Table, actions: &mut Vec<Action>)
    requires
        old(table).wf(),
    ensures
        final(table).wf(),
        final(table)@ == old(table)@.drained(),
        action_views(final(actions)@) == action_views(old(actions)@) + report_actions(
            relay_parent,
            old(table)@.misbehaviors,
        ),
{
    let ghost all = table@.misbehaviors;
    let ghost start = action_views(actions@);
    let mut misbehaviors = table.drain_misbehaviors();
    let ghost mut done: Seq<(ValidatorIndex, Misbehavior)> = Seq::empty();
    assert(start =~= start + report_actions(relay_parent, done));
    while misbehaviors.len() > 0
        invariant
            all == done + misbehaviors@,
            action_views(actions@) == start + report_actions(relay_parent, done),
        decreases misbehaviors.len(),
    {
        let ghost pending = misbehaviors@;
        let (validator, report) = misbehaviors.remove(0);
        proof {
            assert(done.push(pending[0]) + misbehaviors@ =~= done + pending);
            assert(report_actions(relay_parent, done.push(pending[0])) =~= report_actions(
                relay_parent,
                done,
            ).push(ActionView::ReportMisbehavior { relay_parent, validator, report }));
            done = done.push(pending[0]);
        }
        emit(actions, Action::ReportMisbehavior { relay_parent, validator, report });
        assert(action_views(actions@) =~= start + report_actions(relay_parent, done));
    }
    assert(done =~= all);
}

/// Imports a statement into the table and says what follows from it; see
/// [`RelayParentView::import_statement`].
pub fn import_statement(
    rp_state: &mut PerRelayParentState,
    statement: &SignedFullStatement,
    actions: &mut Vec<Action>,
) -> (summary: Option<Summary>)
    requires
        old(rp_state).wf(),
    ensures
        final(rp_state).wf(),
        final(rp_state)@ == old(rp_state)@.import_statement(*statement).0,
        summary == old(rp_state)@.import_statement(*statement).1,
        action_views(final(actions)@) == action_views(old(actions)@) + old(
            rp_state,
        )@.import_statement(*statement).2,
{
    let ghost start = action_views(actions@);
    let ghost model = rp_state@;
    let candidate_hash = statement.payload().candidate_hash();
    if !dispatch_new_statement_to_dispute_coordinator(rp_state, candidate_hash, statement, actions) {
        assert(action_views(actions@) =~= start + Seq::empty());
        return None;
    }
    let stmt = primitive_statement_to_table(statement);
    let summary = rp_state.table.import_statement(&rp_state.table_context, stmt);
    let ghost table = rp_state.table@;
    let attested = match &summary {
        Some(s) => rp_state.table.attested_candidate(&s.candidate, &rp_state.table_context),
        None => None,
    };
    let ghost fresh = model.newly_backed(table, summary);
    let ghost after_dispute = action_views(actions@);
    match attested {
        Some(attested) => {
            let candidate_hash = attested.candidate.hash();
            assert(candidate_hash == summary.unwrap().candidate);
            if rp_state.backed.insert(candidate_hash) {
                match table_attested_to_backed(attested, &rp_state.table_context) {
                    Some(backed) => {
                        emit(
                            actions,
                            Action::ProvideBacked { relay_parent: rp_state.parent, candidate: backed },
                        );
                    },
                    None => {},
                }
            }
        },
        None => {},
    }
    assert(action_views(actions@) =~= after_dispute + model.backed_actions(table, fresh));
    issue_new_misbehaviors(rp_state.parent, &mut rp_state.table, actions);
    proof {
        let target = model.import_statement(*statement);
        assert(rp_state@.backed =~= target.0.backed);
        assert(action_views(actions@) =~= start + target.2);
    }
    summary
}

/// Starts a background validation unless one is running for the candidate:
/// entering the candidate among those awaited decides it.
pub fn background_validate_and_make_available(
    rp_state: &mut PerRelayParentState,
    params: BackgroundValidationParams,
    actions: &mut Vec<Action>,
)
    requires
        old(rp_state).wf(),
    ensures
        final(rp_state).wf(),
        final(rp_state)@ == old(rp_state)@.background_validate(params).0,
        action_views(final(actions)@) == action_views(old(actions)@) + old(
            rp_state,
        )@.background_validate(params).1,
{
    let ghost start = action_views(actions@);
    let candidate_hash = params.candidate.hash();
    if rp_state.awaiting_validation.insert(candidate_hash) {
        emit(actions, Action::Validate(params));
        assert(action_views(actions@) =~= start + seq![ActionView::Validate(params)]);
    } else {
        assert(rp_state@.awaiting =~= old(rp_state)@.awaiting);
        assert(action_views(actions@) =~= start + Seq::empty());
    }
}

/// Starts validating a candidate that a peer seconded, fetching the proof
/// of validity from `attesting.from_validator`, unless this node has ruled
/// on the candidate already.
pub fn kick_off_validation_work(
    rp_state: &mut PerRelayParentState,
    attesting: &AttestingData,
    actions: &mut Vec<Action>,
)
    requires
        old(rp_state).wf(),
    ensures
        final(rp_state).wf(),
        final(rp_state)@ == old(rp_state)@.kick_off(attesting@).0,
        action_views(final(actions)@) == action_views(old(actions)@) + old(rp_state)@.kick_off(
            attesting@,
        ).1,
{
    let candidate_hash = attesting.candidate.hash();
    if rp_state.issued_statements.contains(&candidate_hash) {
        assert(action_views(actions@) =~= action_views(actions@) + Seq::empty());
        return ;
    }
    let pov = PoVData::FetchFromValidator {
        from_validator: attesting.from_validator,
        candidate_hash,
        pov_hash: attesting.pov_hash,
    };
    let params = BackgroundValidationParams {
        candidate: attesting.candidate,
        relay_parent: rp_state.parent,
        pov,
        n_validators: rp_state.table_context.validators.len(),
        make_command: CommandKind::Attest,
    };
    background_validate_and_make_available(rp_state, params, actions)
}

} // verus!
