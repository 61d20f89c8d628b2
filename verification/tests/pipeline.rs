use candidate_backing::messages::{
    BackgroundValidationParams, CommandKind, PoVData, Validated, ValidatedCandidateCommand,
};
use candidate_backing::pipeline::{
    advance, make_command, make_pov_available, request_candidate_validation, request_pov,
    store_available_data, validate_and_make_available, Answer, InvalidCandidate, PipelineError,
    Request, Stage, ValidationResult, ValidationTask, BACKING_EXECUTION_TIMEOUT_SECS,
};
use candidate_backing::primitives::{
    CandidateCommitments, CandidateDescriptor, CandidateHash, CandidateReceipt, ParaId,
    PersistedValidationData, PoV, PublicKey, Signature, ValidatorIndex, H256,
};
use std::sync::Arc;

fn hash(n: u128) -> H256 {
    H256 { hi: 0, lo: n }
}

fn candidate() -> CandidateReceipt {
    CandidateReceipt {
        hash: CandidateHash(hash(10)),
        descriptor: CandidateDescriptor {
            para_id: ParaId(1),
            relay_parent: hash(1),
            collator: PublicKey { hi: 0, lo: 7 },
            persisted_validation_data_hash: hash(11),
            pov_hash: hash(12),
            erasure_root: hash(13),
            signature: Signature { q0: 0, q1: 0, q2: 0, q3: 9 },
            para_head: hash(14),
            validation_code_hash: hash(15),
        },
        commitments_hash: hash(16),
    }
}

fn pov() -> PoV {
    PoV { block_data: Arc::new(vec![1, 2, 3]) }
}

fn commitments() -> CandidateCommitments {
    CandidateCommitments { body: Arc::new(vec![4]) }
}

fn validation_data() -> PersistedValidationData {
    PersistedValidationData { body: Arc::new(vec![5, 6]) }
}

fn task(kind: CommandKind, stage: Stage) -> ValidationTask {
    ValidationTask {
        candidate: candidate(),
        relay_parent: hash(1),
        n_validators: 7,
        make_command: kind,
        stage,
    }
}

fn deliver(command: ValidatedCandidateCommand) -> Request {
    Request::Deliver { relay_parent: hash(1), command }
}

#[test]
fn a_task_with_the_proof_at_hand_starts_with_validation() {
    let (started, request) = validate_and_make_available(BackgroundValidationParams {
        candidate: candidate(),
        relay_parent: hash(1),
        pov: PoVData::Ready(pov()),
        n_validators: 7,
        make_command: CommandKind::Second,
    });
    assert_eq!(started, task(CommandKind::Second, Stage::Validating { pov: pov() }));
    assert_eq!(
        request,
        Request::Validate { candidate: candidate(), pov: pov(), timeout_secs: 2 }
    );
    assert_eq!(BACKING_EXECUTION_TIMEOUT_SECS, 2);
    assert_eq!(request_candidate_validation(candidate(), pov()), request);
}

#[test]
fn a_task_without_the_proof_starts_with_fetching_it() {
    let (started, request) = validate_and_make_available(BackgroundValidationParams {
        candidate: candidate(),
        relay_parent: hash(1),
        pov: PoVData::FetchFromValidator {
            from_validator: ValidatorIndex(3),
            candidate_hash: candidate().hash,
            pov_hash: hash(12),
        },
        n_validators: 7,
        make_command: CommandKind::Attest,
    });
    assert_eq!(started, task(CommandKind::Attest, Stage::FetchingPoV));
    assert_eq!(request, request_pov(hash(1), ValidatorIndex(3), candidate().hash, hash(12)));
    assert_eq!(
        request,
        Request::FetchPoV {
            relay_parent: hash(1),
            from_validator: ValidatorIndex(3),
            candidate_hash: candidate().hash,
            pov_hash: hash(12),
        }
    );

    let (next, request) = advance(started, Answer::PoV(Some(pov())));
    assert_eq!(next, Some(task(CommandKind::Attest, Stage::Validating { pov: pov() })));
    assert_eq!(
        request,
        Request::Validate { candidate: candidate(), pov: pov(), timeout_secs: 2 }
    );
}

#[test]
fn a_missing_proof_is_reported_for_a_retry() {
    let (next, request) = advance(task(CommandKind::Attest, Stage::FetchingPoV), Answer::PoV(None));
    assert_eq!(next, None);
    assert_eq!(request, deliver(ValidatedCandidateCommand::AttestNoPoV(candidate().hash)));
}

#[test]
fn an_invalid_candidate_is_not_vouched_for() {
    for reason in [InvalidCandidate::CommitmentsHashMismatch, InvalidCandidate::Other] {
        let (next, request) = advance(
            task(CommandKind::Second, Stage::Validating { pov: pov() }),
            Answer::Validation(Some(ValidationResult::Invalid(reason))),
        );
        assert_eq!(next, None);
        assert_eq!(request, deliver(ValidatedCandidateCommand::Second(Err(candidate()))));
    }
    let (next, request) = advance(
        task(CommandKind::Attest, Stage::Validating { pov: pov() }),
        Answer::Validation(Some(ValidationResult::Invalid(InvalidCandidate::Other))),
    );
    assert_eq!(next, None);
    assert_eq!(request, deliver(ValidatedCandidateCommand::Attest(Err(candidate()))));
}

#[test]
fn a_valid_candidate_has_its_erasure_root_checked() {
    let (next, request) = advance(
        task(CommandKind::Second, Stage::Validating { pov: pov() }),
        Answer::Validation(Some(ValidationResult::Valid(commitments(), validation_data()))),
    );
    assert_eq!(
        next,
        Some(task(
            CommandKind::Second,
            Stage::CheckingErasure {
                pov: pov(),
                commitments: commitments(),
                validation_data: validation_data(),
            }
        ))
    );
    assert_eq!(
        request,
        Request::ErasureRoot { n_chunks: 7, pov: pov(), validation_data: validation_data() }
    );
}

#[test]
fn the_data_is_stored_where_the_erasure_root_matches() {
    let checking = || {
        task(
            CommandKind::Attest,
            Stage::CheckingErasure {
                pov: pov(),
                commitments: commitments(),
                validation_data: validation_data(),
            },
        )
    };
    let (next, request) = advance(checking(), Answer::ErasureRoot(Some(hash(13))));
    assert_eq!(
        next,
        Some(task(CommandKind::Attest, Stage::Storing { pov: pov(), commitments: commitments() }))
    );
    assert_eq!(
        request,
        Request::Store {
            candidate_hash: candidate().hash,
            n_validators: 7,
            pov: pov(),
            validation_data: validation_data(),
        }
    );
    assert_eq!(store_available_data(7, candidate().hash, pov(), validation_data()), request);

    let (next, request) = advance(checking(), Answer::ErasureRoot(Some(hash(99))));
    assert_eq!(next, None);
    assert_eq!(request, deliver(ValidatedCandidateCommand::Attest(Err(candidate()))));

    assert_eq!(
        make_pov_available(7, pov(), candidate().hash, validation_data(), hash(13), hash(13)),
        Some(Request::Store {
            candidate_hash: candidate().hash,
            n_validators: 7,
            pov: pov(),
            validation_data: validation_data(),
        })
    );
    assert_eq!(
        make_pov_available(7, pov(), candidate().hash, validation_data(), hash(13), hash(14)),
        None
    );
}

#[test]
fn a_stored_candidate_is_reported_as_validated() {
    let storing = |kind| task(kind, Stage::Storing { pov: pov(), commitments: commitments() });
    let validated = || Validated { candidate: candidate(), commitments: commitments(), pov: pov() };
    let (next, request) = advance(storing(CommandKind::Second), Answer::Stored(true));
    assert_eq!(next, None);
    assert_eq!(request, deliver(ValidatedCandidateCommand::Second(Ok(validated()))));
    let (next, request) = advance(storing(CommandKind::Attest), Answer::Stored(true));
    assert_eq!(next, None);
    assert_eq!(request, deliver(ValidatedCandidateCommand::Attest(Ok(validated()))));
    assert_eq!(
        make_command(CommandKind::Attest, Ok(validated())),
        ValidatedCandidateCommand::Attest(Ok(validated()))
    );
    assert_eq!(
        make_command(CommandKind::Second, Err(candidate())),
        ValidatedCandidateCommand::Second(Err(candidate()))
    );
}

#[test]
fn each_failure_ends_the_task_with_its_error() {
    let (next, request) = advance(
        task(CommandKind::Second, Stage::Validating { pov: pov() }),
        Answer::Validation(None),
    );
    assert_eq!((next, request), (None, Request::Fail(PipelineError::ValidationFailed)));

    let (next, request) = advance(
        task(
            CommandKind::Second,
            Stage::CheckingErasure {
                pov: pov(),
                commitments: commitments(),
                validation_data: validation_data(),
            },
        ),
        Answer::ErasureRoot(None),
    );
    assert_eq!((next, request), (None, Request::Fail(PipelineError::ErasureCoding)));

    let (next, request) = advance(
        task(CommandKind::Second, Stage::Storing { pov: pov(), commitments: commitments() }),
        Answer::Stored(false),
    );
    assert_eq!((next, request), (None, Request::Fail(PipelineError::StoreAvailableData)));

    let (next, request) = advance(task(CommandKind::Second, Stage::FetchingPoV), Answer::Stored(true));
    assert_eq!((next, request), (None, Request::Fail(PipelineError::UnexpectedAnswer)));
    let (next, request) = advance(
        task(CommandKind::Second, Stage::Validating { pov: pov() }),
        Answer::PoV(Some(pov())),
    );
    assert_eq!((next, request), (None, Request::Fail(PipelineError::UnexpectedAnswer)));
}

#[test]
fn the_command_names_its_candidate() {
    let validated = Validated { candidate: candidate(), commitments: commitments(), pov: pov() };
    assert_eq!(ValidatedCandidateCommand::Second(Ok(validated)).candidate_hash(), candidate().hash);
    assert_eq!(ValidatedCandidateCommand::Second(Err(candidate())).candidate_hash(), candidate().hash);
    assert_eq!(ValidatedCandidateCommand::Attest(Err(candidate())).candidate_hash(), candidate().hash);
    assert_eq!(
        ValidatedCandidateCommand::AttestNoPoV(CandidateHash(hash(77))).candidate_hash(),
        CandidateHash(hash(77))
    );
}
