use candidate_backing::assignment::{
    construct_per_relay_parent_state, CoreState, GroupRotationInfo, LocalIdentity, RuntimeAnswers,
    ScheduledCore,
};
use candidate_backing::context::LocalValidator;
use candidate_backing::coordinator::{
    handle_get_backed_candidates, handle_validated_candidate_command, signing_job, Error,
};
use candidate_backing::leaves::{
    finish_leaf_activation, insert_relay_parent, ActivatedLeaf, ActiveLeavesUpdate,
};
use candidate_backing::messages::{
    Action, BackgroundValidationParams, CommandKind, PoVData, Validated, ValidatedCandidateCommand,
};
use candidate_backing::overseer::{
    run_iteration, CandidateBackingMessage, Event, Outcome, OverseerSignal,
};
use candidate_backing::pipeline::{
    advance, validate_and_make_available, Answer, InvalidCandidate, PipelineError, Request,
    ValidationResult,
};
use candidate_backing::primitives::{
    CandidateCommitments, CandidateDescriptor, CandidateHash, CandidateReceipt,
    CommittedCandidateReceipt, ParaId, PersistedValidationData, PoV, PublicKey, Signature,
    SignedFullStatement, SigningContext, Statement, ValidatorIndex, ValidityAttestation, H256,
};
use candidate_backing::state::{ProspectiveParachainsMode, State};
use candidate_backing::table::{Misbehavior, ValidityVote};
use std::sync::Arc;

const PARA_P: ParaId = ParaId(1);
const PARA_Q: ParaId = ParaId(2);

fn hash(n: u128) -> H256 {
    H256 { hi: 0, lo: n }
}

fn key(n: u128) -> PublicKey {
    PublicKey { hi: 0, lo: n }
}

fn sig(n: u128) -> Signature {
    Signature { q0: 0, q1: 0, q2: 0, q3: n }
}

fn leaf() -> H256 {
    hash(5000)
}

fn receipt(n: u128, para: ParaId, relay_parent: H256) -> CandidateReceipt {
    CandidateReceipt {
        hash: CandidateHash(hash(n)),
        descriptor: CandidateDescriptor {
            para_id: para,
            relay_parent,
            collator: key(7),
            persisted_validation_data_hash: hash(n + 1),
            pov_hash: hash(n + 2),
            erasure_root: hash(n + 3),
            signature: sig(9),
            para_head: hash(n + 4),
            validation_code_hash: hash(n + 5),
        },
        commitments_hash: hash(n + 6),
    }
}

fn commitments() -> CandidateCommitments {
    CandidateCommitments { body: Arc::new(vec![1, 2, 3]) }
}

fn validation_data() -> PersistedValidationData {
    PersistedValidationData { body: Arc::new(vec![9, 9]) }
}

fn pov() -> PoV {
    PoV { block_data: Arc::new(vec![42; 8]) }
}

fn committed(r: CandidateReceipt) -> CommittedCandidateReceipt {
    CommittedCandidateReceipt { receipt: r, commitments: commitments().body }
}

fn runtime() -> RuntimeAnswers {
    RuntimeAnswers {
        validators: Some(vec![key(100), key(101), key(102), key(103), key(104)]),
        groups: Some((
            vec![
                vec![ValidatorIndex(0), ValidatorIndex(1)],
                vec![ValidatorIndex(2), ValidatorIndex(3), ValidatorIndex(4)],
            ],
            GroupRotationInfo { session_start_block: 0, group_rotation_frequency: 100, now: 1 },
        )),
        session_index: Some(3),
        cores: Some(vec![
            CoreState::Scheduled(ScheduledCore { para_id: PARA_P, collator: None }),
            CoreState::Scheduled(ScheduledCore { para_id: PARA_Q, collator: None }),
        ]),
    }
}

fn us(index: u32) -> LocalIdentity {
    LocalIdentity::Validator(LocalValidator {
        index: ValidatorIndex(index),
        key: key(100 + index as u128),
    })
}

fn actions(outcome: Outcome) -> Vec<Action> {
    match outcome {
        Outcome::Actions(actions) => actions,
        _ => panic!("the event gives actions"),
    }
}

/// A coordinator with the one leaf active, in the mode that allows nothing
/// but the leaf, and this node as the validator of the given index.
fn with_leaf(index: u32) -> State {
    let mut state = State::new();
    let update = ActiveLeavesUpdate {
        activated: Some(ActivatedLeaf {
            hash: leaf(),
            mode: ProspectiveParachainsMode::Disabled,
            ancestors: None,
        }),
        deactivated: Vec::new(),
    };
    let pending = match run_iteration(&mut state, Event::Signal(OverseerSignal::ActiveLeaves(update)))
    {
        Outcome::LeavesUpdated(Some(pending)) => pending,
        _ => panic!("the leaf is to be finished"),
    };
    assert_eq!(pending.hash, leaf());
    assert!(pending.membership_queries.is_empty());
    let fresh = finish_leaf_activation(&mut state, pending, &Vec::new());
    assert_eq!(fresh, vec![leaf()]);
    let per = construct_per_relay_parent_state(leaf(), runtime(), us(index))
        .expect("the runtime answered");
    insert_relay_parent(&mut state, leaf(), per);
    state
}

fn statement(payload: Statement, index: u32, signature: u128) -> SignedFullStatement {
    SignedFullStatement { payload, validator_index: ValidatorIndex(index), signature: sig(signature) }
}

fn send(state: &mut State, s: SignedFullStatement) -> Vec<Action> {
    actions(run_iteration(
        state,
        Event::Communication {
            message: CandidateBackingMessage::Statement(leaf(), s),
            answers: Vec::new(),
        },
    ))
}

fn second(state: &mut State, candidate: CandidateReceipt) -> Vec<Action> {
    actions(run_iteration(
        state,
        Event::Communication {
            message: CandidateBackingMessage::Second(leaf(), candidate, pov()),
            answers: Vec::new(),
        },
    ))
}

fn validated(state: &mut State, command: ValidatedCandidateCommand, signature: Option<u128>) -> Vec<Action> {
    actions(run_iteration(
        state,
        Event::Validated {
            relay_parent: leaf(),
            command,
            signature: signature.map(sig),
            answers: Vec::new(),
        },
    ))
}

/// Runs a background validation whose every step succeeds.
fn run_pipeline(params: BackgroundValidationParams, fetched: Option<PoV>) -> ValidatedCandidateCommand {
    let erasure_root = params.candidate.descriptor.erasure_root;
    let (mut task, mut request) = validate_and_make_available(params);
    loop {
        let answer = match request {
            Request::FetchPoV { .. } => Answer::PoV(fetched.clone()),
            Request::Validate { timeout_secs, .. } => {
                assert_eq!(timeout_secs, 2);
                Answer::Validation(Some(ValidationResult::Valid(commitments(), validation_data())))
            },
            Request::ErasureRoot { .. } => Answer::ErasureRoot(Some(erasure_root)),
            Request::Store { .. } => Answer::Stored(true),
            Request::Deliver { relay_parent, command } => {
                assert_eq!(relay_parent, leaf());
                return command;
            },
            Request::Fail(e) => panic!("the validation failed: {:?}", e),
        };
        let (next, asked) = advance(task, answer);
        request = asked;
        task = match next {
            Some(task) => task,
            None => match request {
                Request::Deliver { relay_parent, command } => {
                    assert_eq!(relay_parent, leaf());
                    return command;
                },
                _ => panic!("a task ends with a command"),
            },
        };
    }
}

fn only_validation(actions: Vec<Action>) -> BackgroundValidationParams {
    let mut found = None;
    for action in actions {
        if let Action::Validate(params) = action {
            assert!(found.is_none());
            found = Some(params);
        }
    }
    found.expect("a validation is started")
}

#[test]
fn this_node_is_assigned_to_the_parachain_of_its_group() {
    let state = with_leaf(0);
    let rp = state.per_relay_parent.get(&leaf()).expect("the leaf has a state");
    assert_eq!(rp.parent, leaf());
    assert_eq!(rp.session_index, 3);
    assert_eq!(rp.assignment, Some(PARA_P));
    assert_eq!(rp.signing_context(), SigningContext { parent_hash: leaf(), session_index: 3 });
    assert_eq!(
        rp.table_context.group(&PARA_Q),
        Some(&vec![ValidatorIndex(2), ValidatorIndex(3), ValidatorIndex(4)])
    );
    let leaf_state = state.per_leaf.get(&leaf()).expect("the leaf is active");
    assert!(leaf_state.prospective_parachains_mode.is_disabled());
    assert!(!leaf_state.prospective_parachains_mode.is_enabled());
    assert_eq!(leaf_state.seconded_at_depth.len(), 0);
}

#[test]
fn seconding_a_collation_oneself() {
    let mut state = with_leaf(0);
    let candidate = receipt(10, PARA_P, leaf());

    let started = second(&mut state, candidate);
    assert_eq!(
        started,
        vec![Action::Validate(BackgroundValidationParams {
            candidate,
            relay_parent: leaf(),
            pov: PoVData::Ready(pov()),
            n_validators: 5,
            make_command: CommandKind::Second,
        })]
    );
    // a validation is running: asking again starts none
    assert!(second(&mut state, candidate).is_empty());

    let command = run_pipeline(only_validation(started), None);
    assert_eq!(
        command,
        ValidatedCandidateCommand::Second(Ok(Validated {
            candidate,
            commitments: commitments(),
            pov: pov(),
        }))
    );

    let job = signing_job(&state, leaf(), &command).expect("there is a statement to sign");
    assert_eq!(job.statement, Statement::Seconded(committed(candidate)));
    assert_eq!(job.validator.index, ValidatorIndex(0));
    assert_eq!(job.context, SigningContext { parent_hash: leaf(), session_index: 3 });

    let ours = statement(Statement::Seconded(committed(candidate)), 0, 77);
    let done = validated(&mut state, command, Some(77));
    assert_eq!(
        done,
        vec![
            Action::ImportDisputeStatement {
                relay_parent: leaf(),
                candidate_hash: candidate.hash,
                candidate_receipt: candidate,
                session: 3,
                statement: ours.clone(),
                validator_index: ValidatorIndex(0),
                validator_public: key(100),
            },
            Action::Share { relay_parent: leaf(), statement: ours.clone() },
            Action::NotifySeconded { relay_parent: leaf(), statement: ours.clone() },
        ]
    );

    let rp = state.per_relay_parent.get(&leaf()).expect("the leaf has a state");
    assert!(rp.issued_statements.contains(&candidate.hash));
    assert!(!rp.awaiting_validation.contains(&candidate.hash));
    assert!(!rp.backed.contains(&candidate.hash));
    let data = rp.table.candidate_votes.get(&candidate.hash).expect("the table has the candidate");
    assert_eq!(data.validity_votes.len(), 1);
    assert_eq!(data.validity_votes.get(&ValidatorIndex(0)), Some(&ValidityVote::Issued(sig(77))));
    assert!(rp.table.attested_candidate(&candidate.hash, &rp.table_context).is_none());
    assert!(handle_get_backed_candidates(&state, leaf(), &vec![candidate.hash]).is_empty());

    let entry = state.per_candidate.get(&candidate.hash).expect("the candidate is kept");
    assert!(entry.seconded_locally);
    assert_eq!(entry.para_id, PARA_P);
    assert_eq!(entry.relay_parent, leaf());
    assert_eq!(
        state.per_leaf.get(&leaf()).expect("active").seconded_at_depth.get(&0),
        Some(&candidate.hash)
    );
}

#[test]
fn the_second_vote_backs_the_candidate_once() {
    let mut state = with_leaf(0);
    let candidate = receipt(10, PARA_P, leaf());
    let command = run_pipeline(only_validation(second(&mut state, candidate)), None);
    validated(&mut state, command, Some(77));

    let vote = statement(Statement::Valid(candidate.hash), 1, 88);
    let done = send(&mut state, vote.clone());
    assert_eq!(done.len(), 2);
    assert_eq!(
        done[0],
        Action::ImportDisputeStatement {
            relay_parent: leaf(),
            candidate_hash: candidate.hash,
            candidate_receipt: candidate,
            session: 3,
            statement: vote.clone(),
            validator_index: ValidatorIndex(1),
            validator_public: key(101),
        }
    );
    match &done[1] {
        Action::ProvideBacked { relay_parent, candidate: backed } => {
            assert_eq!(*relay_parent, leaf());
            assert_eq!(backed.candidate, committed(candidate));
            assert_eq!(backed.validator_indices.to_vec(), vec![true, true]);
            assert_eq!(
                backed.validity_votes,
                vec![ValidityAttestation::Implicit(sig(77)), ValidityAttestation::Explicit(sig(88))]
            );
        },
        other => panic!("a backed candidate is provided, not {:?}", other),
    }
    assert!(state.per_relay_parent.get(&leaf()).expect("kept").backed.contains(&candidate.hash));

    // the same statement again: the dispute coordinator hears of it, nothing else happens
    let again = send(&mut state, vote);
    assert_eq!(again.len(), 1);
    assert!(matches!(again[0], Action::ImportDisputeStatement { .. }));

    let backed = handle_get_backed_candidates(
        &state,
        leaf(),
        &vec![CandidateHash(hash(999)), candidate.hash],
    );
    assert_eq!(backed.len(), 1);
    assert_eq!(backed[0].candidate, committed(candidate));
    assert_eq!(backed[0].validator_indices.to_vec(), vec![true, true]);
    assert!(handle_get_backed_candidates(&state, hash(1), &vec![candidate.hash]).is_empty());
}

#[test]
fn another_validator_is_asked_when_the_proof_of_validity_does_not_come() {
    let mut state = with_leaf(4);
    assert_eq!(state.per_relay_parent.get(&leaf()).expect("kept").assignment, Some(PARA_Q));
    let candidate = receipt(20, PARA_Q, leaf());

    // validator 2 seconds the candidate
    let first = send(&mut state, statement(Statement::Seconded(committed(candidate)), 2, 1));
    assert_eq!(first.len(), 2);
    assert!(matches!(first[0], Action::ImportDisputeStatement { .. }));
    let params = only_validation(first);
    assert_eq!(
        params,
        BackgroundValidationParams {
            candidate,
            relay_parent: leaf(),
            pov: PoVData::FetchFromValidator {
                from_validator: ValidatorIndex(2),
                candidate_hash: candidate.hash,
                pov_hash: candidate.descriptor.pov_hash,
            },
            n_validators: 5,
            make_command: CommandKind::Attest,
        }
    );
    let entry = state.per_candidate.get(&candidate.hash).expect("the candidate is kept");
    assert!(!entry.seconded_locally);
    assert_eq!(entry.relay_parent, leaf());

    // the fetch fails
    let (task, request) = validate_and_make_available(params);
    assert_eq!(
        request,
        Request::FetchPoV {
            relay_parent: leaf(),
            from_validator: ValidatorIndex(2),
            candidate_hash: candidate.hash,
            pov_hash: candidate.descriptor.pov_hash,
        }
    );
    let (task, request) = advance(task, Answer::PoV(None));
    assert!(task.is_none());
    let command = match request {
        Request::Deliver { relay_parent, command } => {
            assert_eq!(relay_parent, leaf());
            command
        },
        _ => panic!("the failure is reported"),
    };
    assert_eq!(command, ValidatedCandidateCommand::AttestNoPoV(candidate.hash));
    assert!(signing_job(&state, leaf(), &command).is_none());

    // nobody else to ask: nothing is started
    assert!(validated(&mut state, command, None).is_empty());
    {
        let rp = state.per_relay_parent.get(&leaf()).expect("kept");
        assert!(!rp.awaiting_validation.contains(&candidate.hash));
        assert!(!rp.issued_statements.contains(&candidate.hash));
        assert_eq!(
            rp.fallbacks.get(&candidate.hash).expect("kept").from_validator,
            ValidatorIndex(2)
        );
    }

    // validator 3 votes: it is asked next
    let next = send(&mut state, statement(Statement::Valid(candidate.hash), 3, 2));
    let params = only_validation(next);
    assert_eq!(
        params.pov,
        PoVData::FetchFromValidator {
            from_validator: ValidatorIndex(3),
            candidate_hash: candidate.hash,
            pov_hash: candidate.descriptor.pov_hash,
        }
    );
    assert_eq!(params.make_command, CommandKind::Attest);

    let command = run_pipeline(params, Some(pov()));
    assert_eq!(
        command,
        ValidatedCandidateCommand::Attest(Ok(Validated {
            candidate,
            commitments: commitments(),
            pov: pov(),
        }))
    );
    let job = signing_job(&state, leaf(), &command).expect("there is a statement to sign");
    assert_eq!(job.statement, Statement::Valid(candidate.hash));
    assert_eq!(job.validator.index, ValidatorIndex(4));

    let ours = statement(Statement::Valid(candidate.hash), 4, 3);
    let done = validated(&mut state, command, Some(3));
    assert_eq!(done.len(), 2);
    assert!(matches!(done[0], Action::ImportDisputeStatement { .. }));
    assert_eq!(done[1], Action::Share { relay_parent: leaf(), statement: ours });
    let rp = state.per_relay_parent.get(&leaf()).expect("kept");
    assert!(rp.issued_statements.contains(&candidate.hash));
    assert!(!rp.fallbacks.contains_key(&candidate.hash));
    assert!(!rp.awaiting_validation.contains(&candidate.hash));
}

#[test]
fn validators_that_vote_while_a_validation_runs_are_queued() {
    let mut state = with_leaf(4);
    let candidate = receipt(20, PARA_Q, leaf());
    let params = only_validation(send(
        &mut state,
        statement(Statement::Seconded(committed(candidate)), 2, 1),
    ));
    // a vote while the validation runs starts nothing
    let queued = send(&mut state, statement(Statement::Valid(candidate.hash), 3, 2));
    assert!(queued.iter().all(|a| !matches!(a, Action::Validate(_))));
    assert_eq!(
        state.per_relay_parent.get(&leaf()).expect("kept").fallbacks.get(&candidate.hash).expect("kept").backing,
        vec![ValidatorIndex(3)]
    );

    let (task, _) = validate_and_make_available(params);
    let (_, request) = advance(task, Answer::PoV(None));
    let command = match request {
        Request::Deliver { command, .. } => command,
        _ => panic!("the failure is reported"),
    };
    let retry = only_validation(validated(&mut state, command, None));
    assert_eq!(
        retry.pov,
        PoVData::FetchFromValidator {
            from_validator: ValidatorIndex(3),
            candidate_hash: candidate.hash,
            pov_hash: candidate.descriptor.pov_hash,
        }
    );
    let rp = state.per_relay_parent.get(&leaf()).expect("kept");
    assert!(rp.awaiting_validation.contains(&candidate.hash));
    let fallback = rp.fallbacks.get(&candidate.hash).expect("kept");
    assert_eq!(fallback.from_validator, ValidatorIndex(3));
    assert!(fallback.backing.is_empty());
}

#[test]
fn a_wrong_erasure_root_makes_the_collation_invalid() {
    let mut state = with_leaf(0);
    let candidate = receipt(10, PARA_P, leaf());
    let params = only_validation(second(&mut state, candidate));

    let (task, _) = validate_and_make_available(params);
    let (task, request) = advance(
        task,
        Answer::Validation(Some(ValidationResult::Valid(commitments(), validation_data()))),
    );
    assert_eq!(
        request,
        Request::ErasureRoot { n_chunks: 5, pov: pov(), validation_data: validation_data() }
    );
    let (task, request) = advance(task.expect("the task goes on"), Answer::ErasureRoot(Some(hash(1))));
    assert!(task.is_none());
    let command = match request {
        Request::Deliver { relay_parent, command } => {
            assert_eq!(relay_parent, leaf());
            command
        },
        _ => panic!("the mismatch is reported"),
    };
    assert_eq!(command, ValidatedCandidateCommand::Second(Err(candidate)));
    assert!(signing_job(&state, leaf(), &command).is_none());

    let done = validated(&mut state, command, Some(77));
    assert_eq!(done, vec![Action::NotifyInvalid { relay_parent: leaf(), receipt: candidate }]);
    let rp = state.per_relay_parent.get(&leaf()).expect("kept");
    assert!(!rp.issued_statements.contains(&candidate.hash));
    assert!(!rp.awaiting_validation.contains(&candidate.hash));
    assert!(rp.table.get_candidate(&candidate.hash).is_none());

    // the node has not ruled: a peer's statement about the candidate is still taken up
    let peer = send(&mut state, statement(Statement::Seconded(committed(candidate)), 1, 5));
    assert!(peer.iter().any(|a| matches!(a, Action::Validate(_))));
}

#[test]
fn two_proposals_by_one_validator_are_reported() {
    let mut state = with_leaf(4);
    let c = receipt(10, PARA_P, leaf());
    let d = receipt(30, PARA_P, leaf());
    let first = send(&mut state, statement(Statement::Seconded(committed(c)), 1, 1));
    assert_eq!(first.len(), 1);
    assert!(matches!(first[0], Action::ImportDisputeStatement { .. }));

    let second = send(&mut state, statement(Statement::Seconded(committed(d)), 1, 2));
    assert_eq!(second.len(), 2);
    assert!(matches!(second[0], Action::ImportDisputeStatement { .. }));
    assert_eq!(
        second[1],
        Action::ReportMisbehavior {
            relay_parent: leaf(),
            validator: ValidatorIndex(1),
            report: Misbehavior::MultipleCandidates {
                first: committed(c),
                first_signature: sig(1),
                second: committed(d),
                second_signature: sig(2),
            },
        }
    );
    let rp = state.per_relay_parent.get(&leaf()).expect("kept");
    assert!(rp.table.get_candidate(&c.hash).is_some());
    assert!(rp.table.get_candidate(&d.hash).is_none());
    assert!(rp.table.detected_misbehavior.is_empty());
    assert!(state.per_candidate.contains_key(&c.hash));
    assert!(!state.per_candidate.contains_key(&d.hash));
}

#[test]
fn a_statement_from_an_unknown_validator_is_dropped() {
    let mut state = with_leaf(0);
    let c = receipt(10, PARA_P, leaf());
    assert!(send(&mut state, statement(Statement::Seconded(committed(c)), 5, 1)).is_empty());
    let rp = state.per_relay_parent.get(&leaf()).expect("kept");
    assert!(rp.table.get_candidate(&c.hash).is_none());
    assert!(rp.table.detected_misbehavior.is_empty());
    assert!(!state.per_candidate.contains_key(&c.hash));
}

#[test]
fn a_vote_without_a_proposal_reaches_nobody() {
    let mut state = with_leaf(0);
    let c = receipt(10, PARA_P, leaf());
    assert!(send(&mut state, statement(Statement::Valid(c.hash), 1, 1)).is_empty());
}

#[test]
fn events_under_an_unknown_relay_parent_are_ignored() {
    let mut state = with_leaf(0);
    let elsewhere = receipt(10, PARA_P, hash(1));
    assert!(second(&mut state, elsewhere).is_empty());
    let outcome = run_iteration(
        &mut state,
        Event::Communication {
            message: CandidateBackingMessage::Statement(
                hash(1),
                statement(Statement::Seconded(committed(elsewhere)), 1, 1),
            ),
            answers: Vec::new(),
        },
    );
    assert!(actions(outcome).is_empty());
    let late = handle_validated_candidate_command(
        &mut state,
        hash(1),
        ValidatedCandidateCommand::AttestNoPoV(elsewhere.hash),
        None,
        &Vec::new(),
    );
    assert_eq!(late, Ok(Vec::new()));
    assert!(signing_job(&state, hash(1), &ValidatedCandidateCommand::AttestNoPoV(elsewhere.hash))
        .is_none());
}

#[test]
fn a_collation_of_another_parachain_is_not_seconded() {
    let mut state = with_leaf(0);
    assert!(second(&mut state, receipt(10, PARA_Q, leaf())).is_empty());
    let rp = state.per_relay_parent.get(&leaf()).expect("kept");
    assert_eq!(rp.awaiting_validation.len(), 0);
}

#[test]
fn only_one_candidate_is_seconded_under_a_leaf() {
    let mut state = with_leaf(0);
    let first = receipt(10, PARA_P, leaf());
    let command = run_pipeline(only_validation(second(&mut state, first)), None);
    assert_eq!(validated(&mut state, command, Some(77)).len(), 3);
    // depth 0 under the leaf is taken
    assert!(second(&mut state, receipt(30, PARA_P, leaf())).is_empty());
    assert!(second(&mut state, first).is_empty());
}

#[test]
fn without_a_signature_nothing_is_distributed() {
    let mut state = with_leaf(0);
    let candidate = receipt(10, PARA_P, leaf());
    let command = run_pipeline(only_validation(second(&mut state, candidate)), None);
    assert!(validated(&mut state, command, None).is_empty());
    let rp = state.per_relay_parent.get(&leaf()).expect("kept");
    assert!(!rp.issued_statements.contains(&candidate.hash));
    assert!(!rp.awaiting_validation.contains(&candidate.hash));
    assert!(rp.table.get_candidate(&candidate.hash).is_none());
}

#[test]
fn a_statement_is_signed_once_for_a_candidate() {
    let mut state = with_leaf(0);
    let candidate = receipt(10, PARA_P, leaf());
    let command = run_pipeline(only_validation(second(&mut state, candidate)), None);
    let again = ValidatedCandidateCommand::Second(Ok(Validated {
        candidate,
        commitments: commitments(),
        pov: pov(),
    }));
    let first = validated(&mut state, command, Some(77));
    assert_eq!(first.iter().filter(|a| matches!(a, Action::Share { .. })).count(), 1);
    assert!(signing_job(&state, leaf(), &again).is_none());
    assert!(validated(&mut state, again, Some(78)).is_empty());
}

#[test]
fn a_failed_validation_of_a_peers_candidate_counts_as_a_ruling() {
    let mut state = with_leaf(4);
    let candidate = receipt(20, PARA_Q, leaf());
    only_validation(send(&mut state, statement(Statement::Seconded(committed(candidate)), 2, 1)));
    let command = ValidatedCandidateCommand::Attest(Err(candidate));
    assert!(signing_job(&state, leaf(), &command).is_none());
    assert!(validated(&mut state, command, Some(3)).is_empty());
    let rp = state.per_relay_parent.get(&leaf()).expect("kept");
    assert!(rp.issued_statements.contains(&candidate.hash));
    assert!(!rp.fallbacks.contains_key(&candidate.hash));
    // a later vote starts no validation
    let later = send(&mut state, statement(Statement::Valid(candidate.hash), 3, 2));
    assert!(later.iter().all(|a| !matches!(a, Action::Validate(_))));
}

#[test]
fn a_candidate_without_a_place_in_a_fragment_tree_is_rejected() {
    let ancestor = hash(4000);
    let mut state = State::new();
    let update = ActiveLeavesUpdate {
        activated: Some(ActivatedLeaf {
            hash: leaf(),
            mode: ProspectiveParachainsMode::Enabled,
            ancestors: Some(vec![ancestor]),
        }),
        deactivated: Vec::new(),
    };
    let pending = match run_iteration(&mut state, Event::Signal(OverseerSignal::ActiveLeaves(update)))
    {
        Outcome::LeavesUpdated(Some(pending)) => pending,
        _ => panic!("the leaf is to be finished"),
    };
    assert_eq!(finish_leaf_activation(&mut state, pending, &Vec::new()), vec![leaf(), ancestor]);
    for rp in [leaf(), ancestor] {
        let per = construct_per_relay_parent_state(rp, runtime(), us(0)).expect("built");
        insert_relay_parent(&mut state, rp, per);
    }
    let candidate = receipt(10, PARA_P, ancestor);
    let command = ValidatedCandidateCommand::Second(Ok(Validated {
        candidate,
        commitments: commitments(),
        pov: pov(),
    }));
    let refused = handle_validated_candidate_command(
        &mut state,
        ancestor,
        command,
        Some(sig(77)),
        &vec![(leaf(), Vec::new())],
    );
    assert_eq!(refused, Err(Error::RejectedByProspectiveParachains));
    let rp = state.per_relay_parent.get(&ancestor).expect("kept");
    assert!(!rp.issued_statements.contains(&candidate.hash));
    assert!(rp.table.get_candidate(&candidate.hash).is_none());
    assert!(!state.per_candidate.contains_key(&candidate.hash));

    let command = ValidatedCandidateCommand::Second(Ok(Validated {
        candidate,
        commitments: commitments(),
        pov: pov(),
    }));
    let accepted = handle_validated_candidate_command(
        &mut state,
        ancestor,
        command,
        Some(sig(77)),
        &vec![(leaf(), vec![1])],
    )
    .expect("the candidate has a place");
    assert_eq!(accepted.len(), 3);
    assert_eq!(
        state.per_leaf.get(&leaf()).expect("active").seconded_at_depth.get(&1),
        Some(&candidate.hash)
    );
    // depth 1 under the leaf is taken now
    let other = receipt(30, PARA_P, ancestor);
    let refused = run_iteration(
        &mut state,
        Event::Communication {
            message: CandidateBackingMessage::Second(ancestor, other, pov()),
            answers: vec![(leaf(), vec![1])],
        },
    );
    assert!(actions(refused).is_empty());
    let free = run_iteration(
        &mut state,
        Event::Communication {
            message: CandidateBackingMessage::Second(ancestor, other, pov()),
            answers: vec![(leaf(), vec![2])],
        },
    );
    assert_eq!(actions(free).len(), 1);
}

#[test]
fn the_loop_ends_on_conclude_and_ignores_finality() {
    let mut state = with_leaf(0);
    assert!(matches!(
        run_iteration(&mut state, Event::Signal(OverseerSignal::Conclude)),
        Outcome::Conclude
    ));
    let outcome =
        run_iteration(&mut state, Event::Signal(OverseerSignal::BlockFinalized(hash(1), 7)));
    assert!(actions(outcome).is_empty());
    assert!(state.per_relay_parent.contains_key(&leaf()));
}

#[test]
fn a_validation_that_cannot_be_carried_out_ends_the_task() {
    let params = BackgroundValidationParams {
        candidate: receipt(10, PARA_P, leaf()),
        relay_parent: leaf(),
        pov: PoVData::Ready(pov()),
        n_validators: 5,
        make_command: CommandKind::Attest,
    };
    let (task, request) = validate_and_make_available(params);
    assert_eq!(
        request,
        Request::Validate { candidate: receipt(10, PARA_P, leaf()), pov: pov(), timeout_secs: 2 }
    );
    let (gone, request) = advance(task, Answer::Validation(None));
    assert!(gone.is_none());
    assert_eq!(request, Request::Fail(PipelineError::ValidationFailed));
}

fn nothing_ruled_on_is_being_validated(state: &State) -> bool {
    (0..state.per_relay_parent.len()).all(|i| {
        let rp = state.per_relay_parent.value_at(i);
        (0..rp.awaiting_validation.len())
            .all(|j| !rp.issued_statements.contains(&rp.awaiting_validation.item_at(j)))
    })
}

#[test]
fn no_candidate_is_validated_after_this_node_has_ruled_on_it() {
    let mut state = with_leaf(4);
    let seconded_by_peer = receipt(20, PARA_Q, leaf());
    let to_second = receipt(40, PARA_Q, leaf());

    let attest = only_validation(send(
        &mut state,
        statement(Statement::Seconded(committed(seconded_by_peer)), 2, 1),
    ));
    assert!(nothing_ruled_on_is_being_validated(&state));
    let own = only_validation(second(&mut state, to_second));
    assert!(nothing_ruled_on_is_being_validated(&state));
    assert_eq!(state.per_relay_parent.get(&leaf()).expect("kept").awaiting_validation.len(), 2);

    let command = run_pipeline(own, None);
    validated(&mut state, command, Some(5));
    assert!(nothing_ruled_on_is_being_validated(&state));
    let command = run_pipeline(attest, Some(pov()));
    validated(&mut state, command, Some(6));
    assert!(nothing_ruled_on_is_being_validated(&state));
    let rp = state.per_relay_parent.get(&leaf()).expect("kept");
    assert_eq!(rp.awaiting_validation.len(), 0);
    assert_eq!(rp.issued_statements.len(), 2);

    // neither a request nor a statement starts a validation for them again
    assert!(second(&mut state, to_second).is_empty());
    let later = send(&mut state, statement(Statement::Valid(seconded_by_peer.hash), 3, 2));
    assert!(later.iter().all(|a| !matches!(a, Action::Validate(_))));
    let later = send(&mut state, statement(Statement::Seconded(committed(to_second)), 3, 3));
    assert!(later.iter().all(|a| !matches!(a, Action::Validate(_))));
    assert!(nothing_ruled_on_is_being_validated(&state));
}

#[test]
fn a_candidate_of_another_parachain_is_tallied_but_not_validated() {
    let mut state = with_leaf(4);
    let candidate = receipt(10, PARA_P, leaf());
    let first = send(&mut state, statement(Statement::Seconded(committed(candidate)), 0, 1));
    assert_eq!(first.len(), 1);
    assert!(matches!(first[0], Action::ImportDisputeStatement { .. }));
    let second_vote = send(&mut state, statement(Statement::Valid(candidate.hash), 1, 2));
    assert_eq!(second_vote.len(), 2);
    assert!(matches!(second_vote[1], Action::ProvideBacked { .. }));
    let rp = state.per_relay_parent.get(&leaf()).expect("kept");
    assert!(!rp.fallbacks.contains_key(&candidate.hash));
    assert_eq!(rp.awaiting_validation.len(), 0);
}

#[test]
fn a_node_that_is_no_validator_signs_nothing() {
    let mut state = State::new();
    let update = ActiveLeavesUpdate {
        activated: Some(ActivatedLeaf {
            hash: leaf(),
            mode: ProspectiveParachainsMode::Disabled,
            ancestors: None,
        }),
        deactivated: Vec::new(),
    };
    let pending = match run_iteration(&mut state, Event::Signal(OverseerSignal::ActiveLeaves(update)))
    {
        Outcome::LeavesUpdated(Some(pending)) => pending,
        _ => panic!("the leaf is to be finished"),
    };
    finish_leaf_activation(&mut state, pending, &Vec::new());
    let per = construct_per_relay_parent_state(leaf(), runtime(), LocalIdentity::NotAValidator)
        .expect("the runtime answered");
    insert_relay_parent(&mut state, leaf(), per);

    let candidate = receipt(20, PARA_Q, leaf());
    let command = ValidatedCandidateCommand::Attest(Ok(Validated {
        candidate,
        commitments: commitments(),
        pov: pov(),
    }));
    assert!(signing_job(&state, leaf(), &command).is_none());
    assert!(validated(&mut state, command, Some(5)).is_empty());
    let rp = state.per_relay_parent.get(&leaf()).expect("kept");
    assert!(rp.issued_statements.contains(&candidate.hash));
    assert!(rp.table.get_candidate(&candidate.hash).is_none());
}

#[test]
fn a_relay_parent_out_of_view_gets_no_state() {
    let mut state = with_leaf(0);
    let per = construct_per_relay_parent_state(hash(1), runtime(), us(0)).expect("built");
    insert_relay_parent(&mut state, hash(1), per);
    assert!(!state.per_relay_parent.contains_key(&hash(1)));
    // nor is the state of a known relay parent replaced
    let candidate = receipt(10, PARA_P, leaf());
    send(&mut state, statement(Statement::Seconded(committed(candidate)), 1, 1));
    let per = construct_per_relay_parent_state(leaf(), runtime(), us(0)).expect("built");
    insert_relay_parent(&mut state, leaf(), per);
    let rp = state.per_relay_parent.get(&leaf()).expect("kept");
    assert!(rp.table.get_candidate(&candidate.hash).is_some());
}
