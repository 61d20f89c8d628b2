//! One turn of the coordinator's loop: an event comes in, the state moves
//! on, and what is to be done comes out.
//!
//! The loop itself, the channels and the waiting are left to the caller. It
//! feeds the events in the order in which they arrive; between two events
//! nothing else touches the state.

use crate::backed::BackedCandidate;
use crate::coordinator::{
    answer_views, handle_get_backed_candidates, handle_second_msg, handle_statement_message,
    handle_validated_candidate_command, Error,
};
use crate::leaves::{handle_active_leaves_update, is_query_list, ActiveLeavesUpdate, PendingLeaf};
use crate::messages::{action_views, Action, ValidatedCandidateCommand};
use crate::primitives::{
    BlockNumber, CandidateHash, CandidateReceipt, PoV, SignedFullStatement, ValidatorSignature,
    H256,
};
use crate::state::{ProspectiveParachainsMode, State};
use crate::statements::backed_views;
use vstd::prelude::*;

verus! {

/// A signal of the overseer.
pub enum OverseerSignal {
    /// The set of active leaves has changed.
    ActiveLeaves(ActiveLeavesUpdate),
    /// A block was finalized.
    BlockFinalized(H256, BlockNumber),
    /// The subsystem is to stop.
    Conclude,
}

/// A message to the coordinator.
pub enum CandidateBackingMessage {
    /// Second the candidate, which comes with its proof of validity. The
    /// relay parent that matters is the one that the candidate names.
    Second(H256, CandidateReceipt, PoV),
    /// A peer's statement, made under the given relay parent.
    Statement(H256, SignedFullStatement),
    /// Hand out the backed candidates of those among the given candidates
    /// that are attested under the given relay parent.
    GetBackedCandidates(H256, Vec<CandidateHash>),
}

/// What the loop has to deal with in one turn.
pub enum Event {
    /// A background validation reports back. `signature` is the keystore's
    /// signature on the statement that the command calls for, and `answers`
    /// the depths of the candidate under the leaves.
    Validated {
        relay_parent: H256,
        command: ValidatedCandidateCommand,
        signature: Option<ValidatorSignature>,
        answers: Vec<(H256, Vec<usize>)>,
    },
    /// The overseer signals.
    Signal(OverseerSignal),
    /// A message has come. `answers` holds the depths that the candidate of
    /// a `Second` message would have under the leaves.
    Communication { message: CandidateBackingMessage, answers: Vec<(H256, Vec<usize>)> },
}

/// What a turn of the loop leaves to be done.
pub enum Outcome {
    /// Leave the loop.
    Conclude,
    /// Carry out the actions, in order.
    Actions(Vec<Action>),
    /// Answer the request with these backed candidates.
    BackedCandidates(Vec<BackedCandidate>),
    /// The first step of an update of the leaves is done; finish the
    /// activation of the leaf, if one is named.
    LeavesUpdated(Option<PendingLeaf>),
    /// The event was not taken to its end.
    Failed(Error),
}

/// Takes a message to the coordinator.
pub fn handle_communication(
    state: &mut State,
    message: CandidateBackingMessage,
    answers: &Vec<(H256, Vec<usize>)>,
) -> (outcome: Outcome)
    requires
        old(state).wf(),
    ensures
        final(state).wf(),
        match message {
            CandidateBackingMessage::Second(_, candidate, pov) => {
                &&& final(state)@ == old(state)@.on_second(candidate, pov, answer_views(answers@)).0
                &&& outcome matches Outcome::Actions(actions)
                &&& action_views(actions@) == old(state)@.on_second(
                    candidate,
                    pov,
                    answer_views(answers@),
                ).1
            },
            CandidateBackingMessage::Statement(relay_parent, statement) => {
                &&& final(state)@ == old(state)@.on_statement(relay_parent, statement).0
                &&& outcome matches Outcome::Actions(actions)
                &&& action_views(actions@) == old(state)@.on_statement(relay_parent, statement).1
            },
            CandidateBackingMessage::GetBackedCandidates(relay_parent, requested) => {
                &&& final(state)@ == old(state)@
                &&& outcome matches Outcome::BackedCandidates(backed)
                &&& backed_views(backed@) == if old(state)@.per_relay_parent.contains_key(
                    relay_parent,
                ) {
                    old(state)@.per_relay_parent[relay_parent].backed_candidates(requested@)
                } else {
                    Seq::empty()
                }
            },
        },
{
    match message {
        CandidateBackingMessage::Second(_relay_parent, candidate, pov) => Outcome::Actions(
            handle_second_msg(state, candidate, pov, answers),
        ),
        CandidateBackingMessage::Statement(relay_parent, statement) => Outcome::Actions(
            handle_statement_message(state, relay_parent, statement),
        ),
        CandidateBackingMessage::GetBackedCandidates(relay_parent, requested) => Outcome::BackedCandidates(
            handle_get_backed_candidates(state, relay_parent, &requested),
        ),
    }
}

/// Takes one event.
///
/// The result of a background validation goes to
/// [`handle_validated_candidate_command`], a change of the leaves to
/// [`handle_active_leaves_update`], a message to [`handle_communication`]. A
/// finalized block changes nothing. The signal to stop ends the loop and
/// changes nothing.
pub fn run_iteration(state: &mut State, event: Event) -> (outcome: Outcome)
    requires
        old(state).wf(),
    ensures
        final(state).wf(),
        match event {
            Event::Validated { relay_parent, command, signature, answers } => {
                &&& final(state)@ == old(state)@.on_validated(
                    relay_parent,
                    command,
                    signature,
                    answer_views(answers@),
                ).0
                &&& match outcome {
                    Outcome::Actions(actions) => {
                        &&& !old(state)@.rejects(
                            relay_parent,
                            command,
                            signature,
                            answer_views(answers@),
                        )
                        &&& action_views(actions@) == old(state)@.on_validated(
                            relay_parent,
                            command,
                            signature,
                            answer_views(answers@),
                        ).1
                    },
                    Outcome::Failed(e) => e == Error::RejectedByProspectiveParachains
                        && old(state)@.rejects(
                        relay_parent,
                        command,
                        signature,
                        answer_views(answers@),
                    ),
                    _ => false,
                }
            },
            Event::Signal(OverseerSignal::ActiveLeaves(update)) => {
                &&& final(state)@ == old(state)@.begin_update(update@).0
                &&& outcome matches Outcome::LeavesUpdated(pending)
                &&& match pending {
                    Some(p) => {
                        &&& old(state)@.begin_update(update@).1 == Some((p.hash, p.mode))
                        &&& match p.mode {
                            ProspectiveParachainsMode::Disabled => p.membership_queries@.len() == 0,
                            ProspectiveParachainsMode::Enabled => is_query_list(
                                final(state)@.per_candidate,
                                p.membership_queries@,
                            ),
                        }
                    },
                    None => old(state)@.begin_update(update@).1.is_none(),
                }
            },
            Event::Signal(OverseerSignal::BlockFinalized(_, _)) => {
                &&& final(state)@ == old(state)@
                &&& outcome matches Outcome::Actions(actions)
                &&& actions@.len() == 0
            },
            Event::Signal(OverseerSignal::Conclude) => {
                &&& final(state)@ == old(state)@
                &&& outcome is Conclude
            },
            Event::Communication { message, answers } => match message {
                CandidateBackingMessage::Second(_, candidate, pov) => {
                    &&& final(state)@ == old(state)@.on_second(
                        candidate,
                        pov,
                        answer_views(answers@),
                    ).0
                    &&& outcome matches Outcome::Actions(actions)
                    &&& action_views(actions@) == old(state)@.on_second(
                        candidate,
                        pov,
                        answer_views(answers@),
                    ).1
                },
                CandidateBackingMessage::Statement(relay_parent, statement) => {
                    &&& final(state)@ == old(state)@.on_statement(relay_parent, statement).0
                    &&& outcome matches Outcome::Actions(actions)
                    &&& action_views(actions@) == old(state)@.on_statement(
                        relay_parent,
                        statement,
                    ).1
                },
                CandidateBackingMessage::GetBackedCandidates(relay_parent, requested) => {
                    &&& final(state)@ == old(state)@
                    &&& outcome matches Outcome::BackedCandidates(backed)
                    &&& backed_views(backed@) == if old(state)@.per_relay_parent.contains_key(
                        relay_parent,
                    ) {
                        old(state)@.per_relay_parent[relay_parent].backed_candidates(requested@)
                    } else {
                        Seq::empty()
                    }
                },
            },
        },
{
    match event {
        Event::Validated { relay_parent, command, signature, answers } => {
            match handle_validated_candidate_command(state, relay_parent, command, signature, &answers) {
                Ok(actions) => Outcome::Actions(actions),
                Err(e) => Outcome::Failed(e),
            }
        },
        Event::Signal(signal) => match signal {
            OverseerSignal::ActiveLeaves(update) => Outcome::LeavesUpdated(
                handle_active_leaves_update(state, update),
            ),
            OverseerSignal::BlockFinalized(_, _) => Outcome::Actions(Vec::new()),
            OverseerSignal::Conclude => Outcome::Conclude,
        },
        Event::Communication { message, answers } => handle_communication(state, message, &answers),
    }
}

} // verus!
