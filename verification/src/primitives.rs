//! Plain-value forms of the chain's identifiers, receipts and statements.
//!
//! Digests and keys are carried as fixed-width integers, payloads as shared
//! byte strings. The coordinator never looks inside a payload: it stores it
//! and hands it on.

use crate::collections::Key;
use std::sync::Arc;
use vstd::prelude::*;

verus! {

/// A payload that the coordinator carries without reading it.
pub type Blob = Arc<Vec<u8>>;

/// A 32-byte content identifier, as two big-endian halves.
#[derive(Clone, Copy, Debug, PartialEq, Eq, Structural)]
pub struct H256 {
    pub hi: u128,
    pub lo: u128,
}

/// The identifier of a candidate: the digest of its receipt.
#[derive(Clone, Copy, Debug, PartialEq, Eq, Structural)]
pub struct CandidateHash(pub H256);

/// Index of a validator in the session's validator set.
#[derive(Clone, Copy, Debug, PartialEq, Eq, Structural)]
pub struct ValidatorIndex(pub u32);

/// Identifier of a parachain.
#[derive(Clone, Copy, Debug, PartialEq, Eq, Structural)]
pub struct ParaId(pub u32);

/// Index of an availability core.
#[derive(Clone, Copy, Debug, PartialEq, Eq, Structural)]
pub struct CoreIndex(pub u32);

/// Index of a validator group.
#[derive(Clone, Copy, Debug, PartialEq, Eq, Structural)]
pub struct GroupIndex(pub u32);

pub type SessionIndex = u32;

pub type BlockNumber = u32;

/// A 32-byte public key.
#[derive(Clone, Copy, Debug, PartialEq, Eq, Structural)]
pub struct PublicKey {
    pub hi: u128,
    pub lo: u128,
}

/// A 64-byte signature, as four big-endian quarters.
#[derive(Clone, Copy, Debug, PartialEq, Eq, Structural)]
pub struct Signature {
    pub q0: u128,
    pub q1: u128,
    pub q2: u128,
    pub q3: u128,
}

pub type ValidatorId = PublicKey;

pub type CollatorId = PublicKey;

pub type ValidatorSignature = Signature;

pub type CollatorSignature = Signature;

impl Key for H256 {
    fn same(&self, other: &Self) -> (r: bool) {
        *self == *other
    }
}

impl Key for CandidateHash {
    fn same(&self, other: &Self) -> (r: bool) {
        *self == *other
    }
}

impl Key for ValidatorIndex {
    fn same(&self, other: &Self) -> (r: bool) {
        *self == *other
    }
}

impl Key for ParaId {
    fn same(&self, other: &Self) -> (r: bool) {
        *self == *other
    }
}

/// The signing context of a statement: the relay parent it is made under and
/// the session of that block's child.
#[derive(Clone, Copy, Debug, PartialEq, Eq, Structural)]
pub struct SigningContext {
    pub parent_hash: H256,
    pub session_index: SessionIndex,
}

/// The descriptor of a candidate.
#[derive(Clone, Copy, Debug, PartialEq, Eq, Structural)]
pub struct CandidateDescriptor {
    pub para_id: ParaId,
    pub relay_parent: H256,
    pub collator: CollatorId,
    pub persisted_validation_data_hash: H256,
    pub pov_hash: H256,
    pub erasure_root: H256,
    pub signature: CollatorSignature,
    pub para_head: H256,
    pub validation_code_hash: H256,
}

/// A candidate receipt together with the digest that identifies it.
///
/// The digest is taken where the receipt enters the node; here it is the
/// receipt's identity and is never recomputed.
#[derive(Clone, Copy, Debug, PartialEq, Eq, Structural)]
pub struct CandidateReceipt {
    pub hash: CandidateHash,
    pub descriptor: CandidateDescriptor,
    pub commitments_hash: H256,
}

impl CandidateReceipt {
    pub fn hash(&self) -> (h: CandidateHash)
        ensures
            h == self.hash,
    {
        self.hash
    }

    pub fn descriptor(&self) -> (d: &CandidateDescriptor)
        ensures
            *d == self.descriptor,
    {
        &self.descriptor
    }
}

/// A candidate receipt with the commitments that its `commitments_hash`
/// stands for.
#[derive(Debug, PartialEq, Eq)]
pub struct CommittedCandidateReceipt {
    pub receipt: CandidateReceipt,
    pub commitments: Blob,
}

impl Clone for CommittedCandidateReceipt {
    fn clone(&self) -> (r: Self)
        ensures
            r == *self,
    {
        CommittedCandidateReceipt { receipt: self.receipt, commitments: self.commitments.clone() }
    }
}

impl CommittedCandidateReceipt {
    pub open spec fn spec_hash(&self) -> CandidateHash {
        self.receipt.hash
    }

    #[verifier::when_used_as_spec(spec_hash)]
    pub fn hash(&self) -> (h: CandidateHash)
        ensures
            h == self.receipt.hash,
    {
        self.receipt.hash
    }

    pub fn descriptor(&self) -> (d: &CandidateDescriptor)
        ensures
            *d == self.receipt.descriptor,
    {
        &self.receipt.descriptor
    }

    /// The receipt without its commitments.
    pub fn to_plain(&self) -> (r: CandidateReceipt)
        ensures
            r == self.receipt,
    {
        self.receipt
    }
}

/// What a validator states about a candidate.
#[derive(Debug, PartialEq, Eq)]
pub enum Statement {
    /// The validator proposes the candidate and vouches for it.
    Seconded(CommittedCandidateReceipt),
    /// The validator has checked a candidate that somebody else proposed.
    Valid(CandidateHash),
}

impl Clone for Statement {
    fn clone(&self) -> (r: Self)
        ensures
            r == *self,
    {
        match self {
            Statement::Seconded(c) => Statement::Seconded(c.clone()),
            Statement::Valid(h) => Statement::Valid(*h),
        }
    }
}

impl Statement {
    pub open spec fn spec_candidate_hash(&self) -> CandidateHash {
        match self {
            Statement::Seconded(c) => c.receipt.hash,
            Statement::Valid(h) => *h,
        }
    }

    /// The candidate that the statement is about.
    #[verifier::when_used_as_spec(spec_candidate_hash)]
    pub fn candidate_hash(&self) -> (h: CandidateHash)
        ensures
            h == self.spec_candidate_hash(),
    {
        match self {
            Statement::Seconded(c) => c.hash(),
            Statement::Valid(h) => *h,
        }
    }
}

/// A statement with the index of the validator that signed it.
#[derive(Debug, PartialEq, Eq)]
pub struct SignedFullStatement {
    pub payload: Statement,
    pub validator_index: ValidatorIndex,
    pub signature: ValidatorSignature,
}

impl Clone for SignedFullStatement {
    fn clone(&self) -> (r: Self)
        ensures
            r == *self,
    {
        SignedFullStatement {
            payload: self.payload.clone(),
            validator_index: self.validator_index,
            signature: self.signature,
        }
    }
}

impl SignedFullStatement {
    pub fn payload(&self) -> (p: &Statement)
        ensures
            *p == self.payload,
    {
        &self.payload
    }

    pub fn validator_index(&self) -> (i: ValidatorIndex)
        ensures
            i == self.validator_index,
    {
        self.validator_index
    }

    pub fn signature(&self) -> (s: &ValidatorSignature)
        ensures
            *s == self.signature,
    {
        &self.signature
    }
}

/// A validator's attestation as it appears in a backed candidate.
#[derive(Clone, Copy, Debug, PartialEq, Eq, Structural)]
pub enum ValidityAttestation {
    /// Implied by having seconded the candidate.
    Implicit(ValidatorSignature),
    /// An explicit statement of validity.
    Explicit(ValidatorSignature),
}

/// A proof of validity: the witness needed to check a candidate.
#[derive(Debug, PartialEq, Eq)]
pub struct PoV {
    pub block_data: Blob,
}

impl Clone for PoV {
    fn clone(&self) -> (r: Self)
        ensures
            r == *self,
    {
        PoV { block_data: self.block_data.clone() }
    }
}

/// The commitments that validating a candidate produced.
#[derive(Debug, PartialEq, Eq)]
pub struct CandidateCommitments {
    pub body: Blob,
}

impl Clone for CandidateCommitments {
    fn clone(&self) -> (r: Self)
        ensures
            r == *self,
    {
        CandidateCommitments { body: self.body.clone() }
    }
}

/// The validation data that a candidate was checked against.
#[derive(Debug, PartialEq, Eq)]
pub struct PersistedValidationData {
    pub body: Blob,
}

impl Clone for PersistedValidationData {
    fn clone(&self) -> (r: Self)
        ensures
            r == *self,
    {
        PersistedValidationData { body: self.body.clone() }
    }
}

} // verus!
