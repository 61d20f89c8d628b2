//! What the coordinator does under one relay parent when a peer's statement
//! arrives, when a background validation reports back, and when it is asked
//! to second a collation or to hand out backed candidates.

use crate::backed::{table_attested_to_backed, BackedCandidate, BackedView};
use crate::messages::{
    action_views, emit, Action, ActionView, BackgroundValidationParams, CommandKind, PoVData,
    ValidatedCandidateCommand,
};
use crate::primitives::{
    CandidateHash, CandidateReceipt, CommittedCandidateReceipt, PoV, SignedFullStatement, Statement,
    ValidatorIndex, ValidatorSignature,
};
use crate::relay_parent::{
    background_validate_and_make_available, import_statement, kick_off_validation_work,
    spec_statement_to_table, AttestingData, AttestingView, PerRelayParentState, RelayParentView,
};
use crate::table::Summary;
use crate::table_laws::lemma_import_outcome;
use vstd::prelude::*;

verus! {

/// Imports a peer's statement and, where the candidate belongs to this
/// node's own parachain, starts or queues the validation work that the
/// statement calls for; see [`RelayParentView::maybe_validate_and_import`].
///
/// A `Seconded` statement makes the sender the validator to fetch the proof
/// of validity from. A `Valid` statement by another validator, for a
/// candidate with such a record, queues its sender while a validation is
/// running, and otherwise starts a validation that fetches from it.
pub fn maybe_validate_and_import(
    rp_state: &mut PerRelayParentState,
    statement: SignedFullStatement,
    actions: &mut Vec<Action>,
) -> (summary: Option<Summary>)
    requires
        old(rp_state).wf(),
    ensures
        final(rp_state).wf(),
        final(rp_state)@ == old(rp_state)@.maybe_validate_and_import(statement).0,
        action_views(final(actions)@) == action_views(old(actions)@) + old(
            rp_state,
        )@.maybe_validate_and_import(statement).1,
        summary == old(rp_state)@.import_statement(statement).1,
{
    let ghost start = action_views(actions@);
    let ghost model = rp_state@;
    let summary = import_statement(rp_state, &statement, actions);
    let ghost imported = rp_state@;
    let ghost mid = action_views(actions@);
    let summary = match summary {
        Some(s) => s,
        None => {
            return None;
        },
    };
    let ours = match rp_state.assignment {
        Some(para) => para == summary.group_id,
        None => false,
    };
    if !ours {
        return Some(summary);
    }
    proof {
        lemma_import_outcome(model.table, model.context, spec_statement_to_table(statement));
        assert(imported.table.candidates.contains_key(summary.candidate));
    }
    let sender = statement.validator_index();
    match statement.payload() {
        Statement::Seconded(receipt) => {
            let candidate = match rp_state.table.get_candidate(&summary.candidate) {
                Some(c) => c.to_plain(),
                None => {
                    assert(false);
                    return Some(summary);
                },
            };
            let pov_hash = receipt.descriptor().pov_hash;
            let attesting = AttestingData {
                candidate,
                pov_hash,
                from_validator: sender,
                backing: Vec::new(),
            };
            let probe = AttestingData { candidate, pov_hash, from_validator: sender, backing: Vec::new() };
            rp_state.fallbacks.insert(summary.candidate, attesting);
            proof {
                assert(rp_state@.fallbacks =~= imported.fallbacks.insert(summary.candidate, probe@));
            }
            kick_off_validation_work(rp_state, &probe, actions);
        },
        Statement::Valid(candidate_hash) => {
            let our_index = match rp_state.table_context.validator {
                Some(v) => Some(v.index),
                None => None,
            };
            let own = match our_index {
                Some(i) => i == sender,
                None => false,
            };
            if own || !rp_state.fallbacks.contains_key(candidate_hash) {
                assert(action_views(actions@) =~= mid + Seq::empty());
                return Some(summary);
            }
            let running = rp_state.awaiting_validation.contains(candidate_hash);
            match rp_state.fallbacks.remove(candidate_hash) {
                Some(attesting) => {
                    let mut attesting = attesting;
                    if running {
                        attesting.backing.push(sender);
                        rp_state.fallbacks.insert(*candidate_hash, attesting);
                        proof {
                            let recorded = imported.fallbacks[*candidate_hash];
                            assert(rp_state@.fallbacks =~= imported.fallbacks.insert(
                                *candidate_hash,
                                AttestingView { backing: recorded.backing.push(sender), ..recorded },
                            ));
                            assert(action_views(actions@) =~= mid + Seq::empty());
                        }
                    } else {
                        attesting.from_validator = sender;
                        let probe = AttestingData {
                            candidate: attesting.candidate,
                            pov_hash: attesting.pov_hash,
                            from_validator: sender,
                            backing: Vec::new(),
                        };
                        let ghost next = attesting@;
                        rp_state.fallbacks.insert(*candidate_hash, attesting);
                        proof {
                            assert(rp_state@.fallbacks =~= imported.fallbacks.insert(
                                *candidate_hash,
                                next,
                            ));
                        }
                        kick_off_validation_work(rp_state, &probe, actions);
                    }
                },
                None => {
                    assert(false);
                },
            }
        },
    }
    proof {
        assert(action_views(actions@) =~= start + model.maybe_validate_and_import(statement).1);
    }
    Some(summary)
}

/// This node's signed statement, where it is a validator and the keystore
/// gave a signature on `statement`.
pub fn sign_statement(
    rp_state: &PerRelayParentState,
    statement: Statement,
    signature: Option<ValidatorSignature>,
) -> (signed: Option<SignedFullStatement>)
    ensures
        signed == (match (rp_state@.context.validator, signature) {
            (Some(validator), Some(signature)) => Some(
                SignedFullStatement { payload: statement, validator_index: validator.index, signature },
            ),
            _ => None,
        }),
{
    match (rp_state.table_context.validator, signature) {
        (Some(validator), Some(signature)) => Some(
            SignedFullStatement { payload: statement, validator_index: validator.index, signature },
        ),
        _ => None,
    }
}

/// Signs `statement` with the signature that the keystore gave, imports it
/// into the table and hands it to statement distribution. Without a
/// signature, or where this node is no validator, nothing happens.
pub fn sign_import_and_distribute_statement(
    rp_state: &mut PerRelayParentState,
    statement: Statement,
    signature: Option<ValidatorSignature>,
    actions: &mut Vec<Action>,
) -> (signed: Option<SignedFullStatement>)
    requires
        old(rp_state).wf(),
    ensures
        final(rp_state).wf(),
        signed == (match (old(rp_state)@.context.validator, signature) {
            (Some(validator), Some(signature)) => Some(
                SignedFullStatement { payload: statement, validator_index: validator.index, signature },
            ),
            _ => None,
        }),
        match signed {
            Some(s) => {
                &&& final(rp_state)@ == old(rp_state)@.import_and_distribute(s).0
                &&& action_views(final(actions)@) == action_views(old(actions)@) + old(
                    rp_state,
                )@.import_and_distribute(s).1
            },
            None => {
                &&& final(rp_state)@ == old(rp_state)@
                &&& action_views(final(actions)@) == action_views(old(actions)@)
            },
        },
{
    let ghost start = action_views(actions@);
    let ghost model = rp_state@;
    match sign_statement(rp_state, statement, signature) {
        Some(signed_statement) => {
            let _ = import_statement(rp_state, &signed_statement, actions);
            emit(
                actions,
                Action::Share { relay_parent: rp_state.parent, statement: signed_statement.clone() },
            );
            proof {
                assert(action_views(actions@) =~= start + model.import_and_distribute(
                    signed_statement,
                ).1);
            }
            Some(signed_statement)
        },
        None => None,
    }
}

/// The statement that `command` calls this node to sign; see
/// [`RelayParentView::statement_to_sign`].
pub fn statement_to_sign(rp_state: &PerRelayParentState, command: &ValidatedCandidateCommand) -> (r:
    Option<Statement>)
    requires
        rp_state.wf(),
    ensures
        r == rp_state@.statement_to_sign(*command),
{
    let candidate_hash = command.candidate_hash();
    if rp_state.issued_statements.contains(&candidate_hash)
        || rp_state.table_context.validator.is_none() {
        return None;
    }
    match command {
        ValidatedCandidateCommand::Second(Ok(v)) => Some(
            Statement::Seconded(
                CommittedCandidateReceipt {
                    receipt: v.candidate,
                    commitments: v.commitments.body.clone(),
                },
            ),
        ),
        ValidatedCandidateCommand::Attest(Ok(v)) => Some(Statement::Valid(v.candidate.hash())),
        _ => None,
    }
}

/// Takes the result of a background validation under this relay parent; see
/// [`RelayParentView::on_validated`].
///
/// A candidate to second that passed is signed as `Seconded`, imported,
/// distributed and noted as ruled on, and the collator protocol hears of
/// it; one that failed is reported to the collator protocol as invalid. A
/// peer's candidate that passed is signed as `Valid`, imported and
/// distributed; passed or not, it is noted as ruled on and its retry record
/// is dropped. Where the proof of validity did not come, the next validator
/// of the retry record is asked, if there is one.
pub fn on_validated_candidate_command(
    rp_state: &mut PerRelayParentState,
    command: ValidatedCandidateCommand,
    signature: Option<ValidatorSignature>,
    actions: &mut Vec<Action>,
) -> (seconded: Option<CandidateHash>)
    requires
        old(rp_state).wf(),
    ensures
        final(rp_state).wf(),
        final(rp_state)@ == old(rp_state)@.on_validated(command, signature).0,
        action_views(final(actions)@) == action_views(old(actions)@) + old(rp_state)@.on_validated(
            command,
            signature,
        ).1,
        seconded == old(rp_state)@.on_validated(command, signature).2,
{
    let ghost start = action_views(actions@);
    let ghost model = rp_state@;
    let candidate_hash = command.candidate_hash();
    rp_state.awaiting_validation.remove(&candidate_hash);
    let ghost idle = rp_state@;
    let parent = rp_state.parent;
    match command {
        ValidatedCandidateCommand::Second(res) => match res {
            Ok(v) => {
                if !rp_state.issued_statements.contains(&candidate_hash) {
                    let statement = Statement::Seconded(
                        CommittedCandidateReceipt {
                            receipt: v.candidate,
                            commitments: v.commitments.body,
                        },
                    );
                    match sign_import_and_distribute_statement(
                        rp_state,
                        statement,
                        signature,
                        actions,
                    ) {
                        Some(stmt) => {
                            rp_state.issued_statements.insert(candidate_hash);
                            emit(actions, Action::NotifySeconded { relay_parent: parent, statement: stmt });
                            proof {
                                assert(action_views(actions@) =~= start + model.on_validated(
                                    command,
                                    signature,
                                ).1);
                            }
                            return Some(candidate_hash);
                        },
                        None => {},
                    }
                }
                assert(action_views(actions@) =~= start + Seq::empty());
                None
            },
            Err(candidate) => {
                emit(actions, Action::NotifyInvalid { relay_parent: parent, receipt: candidate });
                assert(action_views(actions@) =~= start + seq![
                    ActionView::NotifyInvalid { relay_parent: parent, receipt: candidate },
                ]);
                None
            },
        },
        ValidatedCandidateCommand::Attest(res) => {
            let _ = rp_state.fallbacks.remove(&candidate_hash);
            proof {
                assert(rp_state@.fallbacks =~= idle.fallbacks.remove(candidate_hash));
            }
            if !rp_state.issued_statements.contains(&candidate_hash) {
                if res.is_ok() {
                    let _ = sign_import_and_distribute_statement(
                        rp_state,
                        Statement::Valid(candidate_hash),
                        signature,
                        actions,
                    );
                }
                rp_state.issued_statements.insert(candidate_hash);
            }
            proof {
                assert(action_views(actions@) =~= start + model.on_validated(command, signature).1);
            }
            None
        },
        ValidatedCandidateCommand::AttestNoPoV(_) => {
            let retry = match rp_state.fallbacks.get(&candidate_hash) {
                Some(attesting) => attesting.backing.len() > 0,
                None => false,
            };
            if retry {
                match rp_state.fallbacks.remove(&candidate_hash) {
                    Some(attesting) => {
                        let mut attesting = attesting;
                        match attesting.backing.pop() {
                            Some(index) => {
                                attesting.from_validator = index;
                                let probe = AttestingData {
                                    candidate: attesting.candidate,
                                    pov_hash: attesting.pov_hash,
                                    from_validator: index,
                                    backing: Vec::new(),
                                };
                                let ghost next = attesting@;
                                rp_state.fallbacks.insert(candidate_hash, attesting);
                                proof {
                                    assert(rp_state@.fallbacks =~= idle.fallbacks.insert(
                                        candidate_hash,
                                        next,
                                    ));
                                }
                                kick_off_validation_work(rp_state, &probe, actions);
                            },
                            None => {
                                assert(false);
                            },
                        }
                    },
                    None => {
                        assert(false);
                    },
                }
            } else {
                assert(action_views(actions@) =~= start + Seq::empty());
            }
            None
        },
    }
}

/// Starts validating a collation that this node was asked to second; see
/// [`RelayParentView::second`].
pub fn validate_and_second(
    rp_state: &mut PerRelayParentState,
    candidate: &CandidateReceipt,
    pov: PoV,
    actions: &mut Vec<Action>,
)
    requires
        old(rp_state).wf(),
    ensures
        final(rp_state).wf(),
        final(rp_state)@ == old(rp_state)@.second(*candidate, pov).0,
        action_views(final(actions)@) == action_views(old(actions)@) + old(rp_state)@.second(
            *candidate,
            pov,
        ).1,
{
    let ours = match rp_state.assignment {
        Some(para) => para == candidate.descriptor().para_id,
        None => false,
    };
    if !ours || rp_state.issued_statements.contains(&candidate.hash()) {
        assert(action_views(actions@) =~= action_views(actions@) + Seq::empty());
        return ;
    }
    let params = BackgroundValidationParams {
        candidate: *candidate,
        relay_parent: rp_state.parent,
        pov: PoVData::Ready(pov),
        n_validators: rp_state.table_context.validators.len(),
        make_command: CommandKind::Second,
    };
    background_validate_and_make_available(rp_state, params, actions)
}

/// The content of a list of backed candidates.
pub open spec fn backed_views(candidates: Seq<BackedCandidate>) -> Seq<BackedView> {
    candidates.map_values(|b: BackedCandidate| b@)
}

/// The backed candidates of those among `requested` that are attested now,
/// in the order of the request; the others are left out.
pub fn handle_get_backed_candidates_message(
    rp_state: &PerRelayParentState,
    requested: &Vec<CandidateHash>,
) -> (backed: Vec<BackedCandidate>)
    requires
        rp_state.wf(),
    ensures
        backed_views(backed@) == rp_state@.backed_candidates(requested@),
{
    let mut backed: Vec<BackedCandidate> = Vec::new();
    let mut i: usize = 0;
    assert(backed_views(backed@) =~= Seq::empty());
    while i < requested.len()
        invariant
            i <= requested.len(),
            rp_state.wf(),
            backed_views(backed@) == rp_state@.backed_candidates(requested@.take(i as int)),
        decreases requested.len() - i,
    {
        proof {
            let next = requested@.take(i + 1);
            assert(next.drop_last() =~= requested@.take(i as int));
            assert(next.last() == requested@[i as int]);
        }
        let ghost before = backed_views(backed@);
        match rp_state.table.attested_candidate(&requested[i], &rp_state.table_context) {
            Some(attested) => match table_attested_to_backed(attested, &rp_state.table_context) {
                Some(b) => {
                    let ghost view = b@;
                    backed.push(b);
                    assert(backed_views(backed@) =~= before.push(view));
                },
                None => {},
            },
            None => {},
        }
        i += 1;
    }
    assert(requested@.take(requested@.len() as int) =~= requested@);
    backed
}

} // verus!
