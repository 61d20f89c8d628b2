//! Candidate backing for a parachain validator.
//!
//! A candidate is a parachain block that a collator has produced. Before
//! the relay chain admits it, validators of the group assigned to the
//! parachain have to vouch for it. This library holds what one validator
//! decides on the way: which candidates it may vouch for, what it signs and
//! when, how the statements of its peers are tallied, when a candidate has
//! the votes that back it, and which equivocations it has seen.
//!
//! It is written as functions from a state and an event to the next state
//! and a list of actions. Waiting, sending and signing are left to the
//! caller: it feeds the events in and carries the actions out.
//!
//! - [`table`], [`context`]: the statement table of a relay parent and the
//!   validator groups it goes by.
//! - [`backed`], [`bitfield`]: the backed candidate that an attested
//!   candidate gives, with its bit field.
//! - [`relay_parent`], [`statements`]: the backing work under one relay
//!   parent.
//! - [`state`], [`leaves`], [`assignment`]: the coordinator's state, how it
//!   follows the active leaves, and how the state of a new relay parent is
//!   built.
//! - [`coordinator`], [`overseer`]: the coordinator's answers to messages
//!   and results, and one turn of its loop.
//! - [`pipeline`]: the background validation of one candidate.
//! - [`table_laws`], [`backed_laws`], [`relay_parent_laws`],
//!   [`coordinator_laws`], [`leaves_laws`], [`trace_laws`]: what holds over
//!   any sequence of events.
//! - [`collections`], [`primitives`], [`messages`]: maps and sets, plain
//!   values, and the events and actions.

pub mod assignment;
pub mod backed;
pub mod backed_laws;
pub mod bitfield;
pub mod collections;
pub mod context;
pub mod coordinator;
pub mod coordinator_laws;
pub mod leaves;
pub mod leaves_laws;
pub mod messages;
pub mod overseer;
pub mod pipeline;
pub mod primitives;
pub mod relay_parent;
pub mod relay_parent_laws;
pub mod state;
pub mod statements;
pub mod table;
pub mod table_laws;
pub mod trace_laws;
