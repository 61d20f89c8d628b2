//! The background validation of one candidate, as a task that is advanced
//! by the answers to what it asks: it gets the proof of validity, has the
//! candidate validated, checks the erasure root, has the data stored for
//! availability, and reports back.
//!
//! The task never touches the coordinator's state: all it hands back is a
//! command for the relay parent that it was started under.

use crate::messages::{
    BackgroundValidationParams, CommandKind, PoVData, Validated, ValidatedCandidateCommand,
};
use crate::primitives::{
    CandidateCommitments, CandidateHash, CandidateReceipt, PersistedValidationData, PoV,
    ValidatorIndex, H256,
};
use vstd::prelude::*;

verus! {

/// The time that validating a candidate for backing may take, in seconds.
pub const BACKING_EXECUTION_TIMEOUT_SECS: u64 = 2;

/// Why a candidate was found invalid.
#[derive(Clone, Copy, Debug, PartialEq, Eq, Structural)]
pub enum InvalidCandidate {
    /// Validation produced other commitments than the receipt names.
    CommitmentsHashMismatch,
    /// Any other reason.
    Other,
}

/// The verdict of candidate validation.
#[derive(Debug, PartialEq, Eq)]
pub enum ValidationResult {
    Valid(CandidateCommitments, PersistedValidationData),
    Invalid(InvalidCandidate),
}

/// Why a background validation ended without a command.
#[derive(Clone, Copy, Debug, PartialEq, Eq, Structural)]
pub enum PipelineError {
    /// Candidate validation could not be carried out.
    ValidationFailed,
    /// The erasure coding of the data failed.
    ErasureCoding,
    /// The data could not be stored for availability.
    StoreAvailableData,
    /// An answer came that the task had not asked for.
    UnexpectedAnswer,
}

/// What a task waits for.
#[derive(Debug, PartialEq, Eq)]
pub enum Stage {
    /// The proof of validity, from a validator.
    FetchingPoV,
    /// The verdict of candidate validation.
    Validating { pov: PoV },
    /// The erasure root of the data to be made available.
    CheckingErasure {
        pov: PoV,
        commitments: CandidateCommitments,
        validation_data: PersistedValidationData,
    },
    /// The availability store's word that it has the data.
    Storing { pov: PoV, commitments: CandidateCommitments },
}

/// A background validation that is under way.
#[derive(Debug, PartialEq, Eq)]
pub struct ValidationTask {
    pub candidate: CandidateReceipt,
    pub relay_parent: H256,
    pub n_validators: usize,
    pub make_command: CommandKind,
    pub stage: Stage,
}

/// What a task asks of its surroundings.
#[derive(Debug, PartialEq, Eq)]
pub enum Request {
    /// Ask availability distribution to fetch the proof of validity.
    FetchPoV {
        relay_parent: H256,
        from_validator: ValidatorIndex,
        candidate_hash: CandidateHash,
        pov_hash: H256,
    },
    /// Ask candidate validation to validate the candidate against the chain
    /// state, within `timeout_secs`.
    Validate { candidate: CandidateReceipt, pov: PoV, timeout_secs: u64 },
    /// Compute the erasure root of the data for `n_chunks` validators.
    ErasureRoot { n_chunks: usize, pov: PoV, validation_data: PersistedValidationData },
    /// Ask the availability store to store the data.
    Store {
        candidate_hash: CandidateHash,
        n_validators: u32,
        pov: PoV,
        validation_data: PersistedValidationData,
    },
    /// Hand the command to the coordinator; the task is over.
    Deliver { relay_parent: H256, command: ValidatedCandidateCommand },
    /// Give up; the task is over.
    Fail(PipelineError),
}

/// An answer to a request.
#[derive(Debug, PartialEq, Eq)]
pub enum Answer {
    /// The proof of validity, or `None` where the fetch failed.
    PoV(Option<PoV>),
    /// The verdict, or `None` where validation could not be carried out.
    Validation(Option<ValidationResult>),
    /// The erasure root, or `None` where the coding failed.
    ErasureRoot(Option<H256>),
    /// Whether the data was stored.
    Stored(bool),
}

/// The command that carries `result` back, as the task was told to make it.
pub open spec fn spec_make_command(
    kind: CommandKind,
    result: Result<Validated, CandidateReceipt>,
) -> ValidatedCandidateCommand {
    match kind {
        CommandKind::Second => ValidatedCandidateCommand::Second(result),
        CommandKind::Attest => ValidatedCandidateCommand::Attest(result),
    }
}

/// The command that carries `result` back.
#[verifier::when_used_as_spec(spec_make_command)]
pub fn make_command(kind: CommandKind, result: Result<Validated, CandidateReceipt>) -> (c:
    ValidatedCandidateCommand)
    ensures
        c == spec_make_command(kind, result),
{
    match kind {
        CommandKind::Second => ValidatedCandidateCommand::Second(result),
        CommandKind::Attest => ValidatedCandidateCommand::Attest(result),
    }
}

/// The request for the validation of `candidate` with `pov`.
pub open spec fn validation_request(candidate: CandidateReceipt, pov: PoV) -> Request {
    Request::Validate { candidate, pov, timeout_secs: BACKING_EXECUTION_TIMEOUT_SECS }
}

/// How a task starts: with the validation where the proof of validity is at
/// hand, and else with fetching it.
pub open spec fn started(params: BackgroundValidationParams) -> (ValidationTask, Request) {
    match params.pov {
        PoVData::Ready(pov) => (
            ValidationTask {
                candidate: params.candidate,
                relay_parent: params.relay_parent,
                n_validators: params.n_validators,
                make_command: params.make_command,
                stage: Stage::Validating { pov },
            },
            validation_request(params.candidate, pov),
        ),
        PoVData::FetchFromValidator { from_validator, candidate_hash, pov_hash } => (
            ValidationTask {
                candidate: params.candidate,
                relay_parent: params.relay_parent,
                n_validators: params.n_validators,
                make_command: params.make_command,
                stage: Stage::FetchingPoV,
            },
            Request::FetchPoV {
                relay_parent: params.relay_parent,
                from_validator,
                candidate_hash,
                pov_hash,
            },
        ),
    }
}

/// How a task goes on when an answer comes.
///
/// A proof of validity that does not come is reported as such, so that
/// another validator can be asked. A candidate that is found invalid, or
/// whose erasure root is not the one that its receipt names, is reported as
/// a candidate that this node will not vouch for. A candidate is reported as
/// validated only after its data has been stored. Where validation, erasure
/// coding or storing fails, the task gives up.
pub open spec fn advanced(task: ValidationTask, answer: Answer) -> (Option<ValidationTask>, Request) {
    match (task.stage, answer) {
        (Stage::FetchingPoV, Answer::PoV(Some(pov))) => (
            Some(ValidationTask { stage: Stage::Validating { pov }, ..task }),
            validation_request(task.candidate, pov),
        ),
        (Stage::FetchingPoV, Answer::PoV(None)) => (
            None,
            Request::Deliver {
                relay_parent: task.relay_parent,
                command: ValidatedCandidateCommand::AttestNoPoV(task.candidate.hash),
            },
        ),
        (
            Stage::Validating { pov },
            Answer::Validation(Some(ValidationResult::Valid(commitments, validation_data))),
        ) => (
            Some(
                ValidationTask {
                    stage: Stage::CheckingErasure { pov, commitments, validation_data },
                    ..task
                },
            ),
            Request::ErasureRoot { n_chunks: task.n_validators, pov, validation_data },
        ),
        (Stage::Validating { pov }, Answer::Validation(Some(ValidationResult::Invalid(_)))) => (
            None,
            Request::Deliver {
                relay_parent: task.relay_parent,
                command: spec_make_command(task.make_command, Err(task.candidate)),
            },
        ),
        (Stage::Validating { pov }, Answer::Validation(None)) => (
            None,
            Request::Fail(PipelineError::ValidationFailed),
        ),
        (
            Stage::CheckingErasure { pov, commitments, validation_data },
            Answer::ErasureRoot(Some(root)),
        ) => if root == task.candidate.descriptor.erasure_root {
            (
                Some(ValidationTask { stage: Stage::Storing { pov, commitments }, ..task }),
                Request::Store {
                    candidate_hash: task.candidate.hash,
                    n_validators: task.n_validators as u32,
                    pov,
                    validation_data,
                },
            )
        } else {
            (
                None,
                Request::Deliver {
                    relay_parent: task.relay_parent,
                    command: spec_make_command(task.make_command, Err(task.candidate)),
                },
            )
        },
        (Stage::CheckingErasure { .. }, Answer::ErasureRoot(None)) => (
            None,
            Request::Fail(PipelineError::ErasureCoding),
        ),
        (Stage::Storing { pov, commitments }, Answer::Stored(true)) => (
            None,
            Request::Deliver {
                relay_parent: task.relay_parent,
                command: spec_make_command(
                    task.make_command,
                    Ok(Validated { candidate: task.candidate, commitments, pov }),
                ),
            },
        ),
        (Stage::Storing { .. }, Answer::Stored(false)) => (
            None,
            Request::Fail(PipelineError::StoreAvailableData),
        ),
        _ => (None, Request::Fail(PipelineError::UnexpectedAnswer)),
    }
}

/// Starts the background validation of a candidate; see [`started`].
pub fn validate_and_make_available(params: BackgroundValidationParams) -> (r: (ValidationTask, Request))
    ensures
        r == started(params),
{
    let BackgroundValidationParams { candidate, relay_parent, pov, n_validators, make_command } =
        params;
    match pov {
        PoVData::Ready(pov) => {
            let request = request_candidate_validation(candidate, pov.clone());
            (
                ValidationTask {
                    candidate,
                    relay_parent,
                    n_validators,
                    make_command,
                    stage: Stage::Validating { pov },
                },
                request,
            )
        },
        PoVData::FetchFromValidator { from_validator, candidate_hash, pov_hash } => (
            ValidationTask {
                candidate,
                relay_parent,
                n_validators,
                make_command,
                stage: Stage::FetchingPoV,
            },
            request_pov(relay_parent, from_validator, candidate_hash, pov_hash),
        ),
    }
}

/// The request to fetch a proof of validity from a validator.
pub fn request_pov(
    relay_parent: H256,
    from_validator: ValidatorIndex,
    candidate_hash: CandidateHash,
    pov_hash: H256,
) -> (r: Request)
    ensures
        r == (Request::FetchPoV { relay_parent, from_validator, candidate_hash, pov_hash }),
{
    Request::FetchPoV { relay_parent, from_validator, candidate_hash, pov_hash }
}

/// The request to validate a candidate within the time allowed for backing.
pub fn request_candidate_validation(candidate_receipt: CandidateReceipt, pov: PoV) -> (r: Request)
    ensures
        r == validation_request(candidate_receipt, pov),
{
    Request::Validate {
        candidate: candidate_receipt,
        pov,
        timeout_secs: BACKING_EXECUTION_TIMEOUT_SECS,
    }
}

/// The request to store the data of a candidate for availability.
pub fn store_available_data(
    n_validators: u32,
    candidate_hash: CandidateHash,
    pov: PoV,
    validation_data: PersistedValidationData,
) -> (r: Request)
    ensures
        r == (Request::Store { candidate_hash, n_validators, pov, validation_data }),
{
    Request::Store { candidate_hash, n_validators, pov, validation_data }
}

/// What follows the erasure root of a candidate's data: the data is stored
/// where the root is the one that the receipt names; else there is nothing
/// to store.
pub fn make_pov_available(
    n_validators: usize,
    pov: PoV,
    candidate_hash: CandidateHash,
    validation_data: PersistedValidationData,
    expected_erasure_root: H256,
    erasure_root: H256,
) -> (r: Option<Request>)
    ensures
        r == if erasure_root == expected_erasure_root {
            Some(
                Request::Store {
                    candidate_hash,
                    n_validators: n_validators as u32,
                    pov,
                    validation_data,
                },
            )
        } else {
            None
        },
{
    if erasure_root != expected_erasure_root {
        return None;
    }
    Some(
        store_available_data(
            #[verifier::truncate]
            (n_validators as u32),
            candidate_hash,
            pov,
            validation_data,
        ),
    )
}

/// Advances a background validation by an answer; see [`advanced`].
pub fn advance(task: ValidationTask, answer: Answer) -> (r: (Option<ValidationTask>, Request))
    ensures
        r == advanced(task, answer),
{
    let ValidationTask { candidate, relay_parent, n_validators, make_command: kind, stage } = task;
    match (stage, answer) {
        (Stage::FetchingPoV, Answer::PoV(Some(pov))) => {
            let request = request_candidate_validation(candidate, pov.clone());
            (
                Some(
                    ValidationTask {
                        candidate,
                        relay_parent,
                        n_validators,
                        make_command: kind,
                        stage: Stage::Validating { pov },
                    },
                ),
                request,
            )
        },
        (Stage::FetchingPoV, Answer::PoV(None)) => (
            None,
            Request::Deliver {
                relay_parent,
                command: ValidatedCandidateCommand::AttestNoPoV(candidate.hash()),
            },
        ),
        (Stage::Validating { pov }, Answer::Validation(Some(v))) => match v {
            ValidationResult::Valid(commitments, validation_data) => {
                let request = Request::ErasureRoot {
                    n_chunks: n_validators,
                    pov: pov.clone(),
                    validation_data: validation_data.clone(),
                };
                (
                    Some(
                        ValidationTask {
                            candidate,
                            relay_parent,
                            n_validators,
                            make_command: kind,
                            stage: Stage::CheckingErasure { pov, commitments, validation_data },
                        },
                    ),
                    request,
                )
            },
            ValidationResult::Invalid(_) => (
                None,
                Request::Deliver { relay_parent, command: make_command(kind, Err(candidate)) },
            ),
        },
        (Stage::Validating { pov }, Answer::Validation(None)) => (
            None,
            Request::Fail(PipelineError::ValidationFailed),
        ),
        (
            Stage::CheckingErasure { pov, commitments, validation_data },
            Answer::ErasureRoot(Some(root)),
        ) => {
            match make_pov_available(
                n_validators,
                pov.clone(),
                candidate.hash(),
                validation_data,
                candidate.descriptor.erasure_root,
                root,
            ) {
                Some(request) => (
                    Some(
                        ValidationTask {
                            candidate,
                            relay_parent,
                            n_validators,
                            make_command: kind,
                            stage: Stage::Storing { pov, commitments },
                        },
                    ),
                    request,
                ),
                None => (
                    None,
                    Request::Deliver { relay_parent, command: make_command(kind, Err(candidate)) },
                ),
            }
        },
        (Stage::CheckingErasure { .. }, Answer::ErasureRoot(None)) => (
            None,
            Request::Fail(PipelineError::ErasureCoding),
        ),
        (Stage::Storing { pov, commitments }, Answer::Stored(true)) => (
            None,
            Request::Deliver {
                relay_parent,
                command: make_command(kind, Ok(Validated { candidate, commitments, pov })),
            },
        ),
        (Stage::Storing { .. }, Answer::Stored(false)) => (
            None,
            Request::Fail(PipelineError::StoreAvailableData),
        ),
        _ => (None, Request::Fail(PipelineError::UnexpectedAnswer)),
    }
}

} // verus!
