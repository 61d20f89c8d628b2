//! What the coordinator is told and what it asks its surroundings to do.

use crate::backed::{BackedCandidate, BackedView};
use crate::primitives::{
    CandidateCommitments, CandidateHash, CandidateReceipt, H256, PoV, SessionIndex,
    SignedFullStatement, ValidatorId, ValidatorIndex,
};
use crate::table::Misbehavior;
use vstd::prelude::*;

verus! {

/// Where the proof of validity of a candidate comes from.
#[derive(Debug, PartialEq, Eq)]
pub enum PoVData {
    /// It is at hand: the collation came with it.
    Ready(PoV),
    /// It has to be fetched from a validator that vouched for the candidate.
    FetchFromValidator { from_validator: ValidatorIndex, candidate_hash: CandidateHash, pov_hash: H256 },
}

/// The command that a background validation wraps its result in.
#[derive(Clone, Copy, Debug, PartialEq, Eq, Structural)]
pub enum CommandKind {
    Second,
    Attest,
}

/// What a background validation is started with.
#[derive(Debug, PartialEq, Eq)]
pub struct BackgroundValidationParams {
    pub candidate: CandidateReceipt,
    pub relay_parent: H256,
    pub pov: PoVData,
    pub n_validators: usize,
    pub make_command: CommandKind,
}

/// A candidate that passed validation, with what validation produced.
#[derive(Debug, PartialEq, Eq)]
pub struct Validated {
    pub candidate: CandidateReceipt,
    pub commitments: CandidateCommitments,
    pub pov: PoV,
}

/// The result of a background validation: the validated candidate, or the
/// receipt of the candidate that this node will not vouch for.
pub type BackgroundValidationResult = Result<Validated, CandidateReceipt>;

/// What a background validation reports back.
#[derive(Debug, PartialEq, Eq)]
pub enum ValidatedCandidateCommand {
    /// The result for a candidate that this node was asked to second.
    Second(BackgroundValidationResult),
    /// The result for a candidate that a peer seconded.
    Attest(BackgroundValidationResult),
    /// The validator that was asked for the proof of validity did not send it.
    AttestNoPoV(CandidateHash),
}

impl ValidatedCandidateCommand {
    pub open spec fn spec_candidate_hash(&self) -> CandidateHash {
        match self {
            ValidatedCandidateCommand::Second(Ok(v)) => v.candidate.hash,
            ValidatedCandidateCommand::Second(Err(c)) => c.hash,
            ValidatedCandidateCommand::Attest(Ok(v)) => v.candidate.hash,
            ValidatedCandidateCommand::Attest(Err(c)) => c.hash,
            ValidatedCandidateCommand::AttestNoPoV(h) => *h,
        }
    }

    /// The candidate that the command is about.
    #[verifier::when_used_as_spec(spec_candidate_hash)]
    pub fn candidate_hash(&self) -> (h: CandidateHash)
        ensures
            h == self.spec_candidate_hash(),
    {
        match self {
            ValidatedCandidateCommand::Second(Ok(v)) => v.candidate.hash(),
            ValidatedCandidateCommand::Second(Err(c)) => c.hash(),
            ValidatedCandidateCommand::Attest(Ok(v)) => v.candidate.hash(),
            ValidatedCandidateCommand::Attest(Err(c)) => c.hash(),
            ValidatedCandidateCommand::AttestNoPoV(h) => *h,
        }
    }
}

/// Something the coordinator asks its surroundings to do. The actions of one
/// event are carried out in the order in which they are listed.
#[derive(Debug, PartialEq, Eq)]
pub enum Action {
    /// Tell the provisioner, without waiting, of a candidate that is now
    /// backed.
    ProvideBacked { relay_parent: H256, candidate: BackedCandidate },
    /// Tell the provisioner, without waiting, of a misbehaving validator.
    ReportMisbehavior { relay_parent: H256, validator: ValidatorIndex, report: Misbehavior },
    /// Hand this node's own statement to statement distribution, without
    /// waiting.
    Share { relay_parent: H256, statement: SignedFullStatement },
    /// Tell the dispute coordinator of a backing statement made under
    /// `relay_parent` in `session`, once the signature is found to be by
    /// `validator_public`.
    ImportDisputeStatement {
        relay_parent: H256,
        candidate_hash: CandidateHash,
        candidate_receipt: CandidateReceipt,
        session: SessionIndex,
        statement: SignedFullStatement,
        validator_index: ValidatorIndex,
        validator_public: ValidatorId,
    },
    /// Tell the collator protocol that the collation was seconded.
    NotifySeconded { relay_parent: H256, statement: SignedFullStatement },
    /// Tell the collator protocol that the collation is invalid.
    NotifyInvalid { relay_parent: H256, receipt: CandidateReceipt },
    /// Start a background validation.
    Validate(BackgroundValidationParams),
}

/// The mathematical content of an [`Action`].
pub enum ActionView {
    ProvideBacked { relay_parent: H256, candidate: BackedView },
    ReportMisbehavior { relay_parent: H256, validator: ValidatorIndex, report: Misbehavior },
    Share { relay_parent: H256, statement: SignedFullStatement },
    ImportDisputeStatement {
        relay_parent: H256,
        candidate_hash: CandidateHash,
        candidate_receipt: CandidateReceipt,
        session: SessionIndex,
        statement: SignedFullStatement,
        validator_index: ValidatorIndex,
        validator_public: ValidatorId,
    },
    NotifySeconded { relay_parent: H256, statement: SignedFullStatement },
    NotifyInvalid { relay_parent: H256, receipt: CandidateReceipt },
    Validate(BackgroundValidationParams),
}

impl View for Action {
    type V = ActionView;

    open spec fn view(&self) -> ActionView {
        match *self {
            Action::ProvideBacked { relay_parent, candidate } => ActionView::ProvideBacked {
                relay_parent,
                candidate: candidate@,
            },
            Action::ReportMisbehavior { relay_parent, validator, report } => ActionView::ReportMisbehavior {
                relay_parent,
                validator,
                report,
            },
            Action::Share { relay_parent, statement } => ActionView::Share { relay_parent, statement },
            Action::ImportDisputeStatement {
                relay_parent,
                candidate_hash,
                candidate_receipt,
                session,
                statement,
                validator_index,
                validator_public,
            } => ActionView::ImportDisputeStatement {
                relay_parent,
                candidate_hash,
                candidate_receipt,
                session,
                statement,
                validator_index,
                validator_public,
            },
            Action::NotifySeconded { relay_parent, statement } => ActionView::NotifySeconded {
                relay_parent,
                statement,
            },
            Action::NotifyInvalid { relay_parent, receipt } => ActionView::NotifyInvalid {
                relay_parent,
                receipt,
            },
            Action::Validate(params) => ActionView::Validate(params),
        }
    }
}

/// The content of a list of actions.
pub open spec fn action_views(actions: Seq<Action>) -> Seq<ActionView> {
    actions.map_values(|a: Action| a@)
}

/// Appends `action` to `actions`.
pub fn emit(actions: &mut Vec<Action>, action: Action)
    ensures
        action_views(final(actions)@) == action_views(old(actions)@).push(action@),
{
    actions.push(action);
    assert(action_views(actions@) =~= action_views(old(actions)@).push(action@));
}

} // verus!
