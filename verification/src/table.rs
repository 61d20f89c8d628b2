//! The statement table of one relay parent: who proposed which candidate,
//! who voted for it, and which equivocations were seen.

use crate::collections::VecMap;
use crate::context::{occurs_before, ContextView, TableContext};
use crate::primitives::{
    CandidateHash, CommittedCandidateReceipt, ParaId, Statement, ValidatorIndex,
    ValidatorSignature, ValidityAttestation,
};
use vstd::prelude::*;

verus! {

/// A vote on a candidate, as the table records it.
#[derive(Clone, Copy, Debug, PartialEq, Eq, Structural)]
pub enum ValidityVote {
    /// Implied by proposing the candidate.
    Issued(ValidatorSignature),
    /// An explicit statement of validity.
    Valid(ValidatorSignature),
}

impl ValidityVote {
    pub open spec fn spec_signature(self) -> ValidatorSignature {
        match self {
            ValidityVote::Issued(s) => s,
            ValidityVote::Valid(s) => s,
        }
    }

    #[verifier::when_used_as_spec(spec_signature)]
    pub fn signature(self) -> (s: ValidatorSignature)
        ensures
            s == self.spec_signature(),
    {
        match self {
            ValidityVote::Issued(s) => s,
            ValidityVote::Valid(s) => s,
        }
    }

    pub open spec fn spec_attestation(self) -> ValidityAttestation {
        match self {
            ValidityVote::Issued(s) => ValidityAttestation::Implicit(s),
            ValidityVote::Valid(s) => ValidityAttestation::Explicit(s),
        }
    }

    /// The attestation that stands for this vote in a backed candidate.
    #[verifier::when_used_as_spec(spec_attestation)]
    pub fn attestation(self) -> (a: ValidityAttestation)
        ensures
            a == self.spec_attestation(),
    {
        match self {
            ValidityVote::Issued(s) => ValidityAttestation::Implicit(s),
            ValidityVote::Valid(s) => ValidityAttestation::Explicit(s),
        }
    }
}

/// A statement as the table takes it: with its signature and sender.
#[derive(Debug, PartialEq, Eq)]
pub struct SignedStatement {
    pub statement: Statement,
    pub signature: ValidatorSignature,
    pub sender: ValidatorIndex,
}

/// A provable equivocation or an unauthorized statement.
#[derive(Debug, PartialEq, Eq)]
pub enum Misbehavior {
    /// The validator both proposed the candidate and voted on it, under
    /// different signatures.
    ValidityDoubleVote {
        candidate: CommittedCandidateReceipt,
        issued: ValidatorSignature,
        digest: CandidateHash,
        valid: ValidatorSignature,
    },
    /// The validator proposed two candidates at one relay parent.
    MultipleCandidates {
        first: CommittedCandidateReceipt,
        first_signature: ValidatorSignature,
        second: CommittedCandidateReceipt,
        second_signature: ValidatorSignature,
    },
    /// The validator is not in the group that the candidate belongs to.
    UnauthorizedStatement(SignedStatement),
    /// Two signatures by the validator on one proposal.
    DoubleSignOnSeconded {
        candidate: CommittedCandidateReceipt,
        recorded: ValidatorSignature,
        offered: ValidatorSignature,
    },
    /// Two signatures by the validator on one validity vote.
    DoubleSignOnValidity {
        digest: CandidateHash,
        recorded: ValidatorSignature,
        offered: ValidatorSignature,
    },
}

/// What an accepted vote leaves behind: the candidate, its group and the
/// number of votes it has now.
#[derive(Clone, Copy, Debug, PartialEq, Eq, Structural)]
pub struct Summary {
    pub candidate: CandidateHash,
    pub group_id: ParaId,
    pub validity_votes: usize,
}

/// A candidate with enough votes, and those votes in group order.
#[derive(Debug, PartialEq, Eq)]
pub struct AttestedCandidate {
    pub group_id: ParaId,
    pub candidate: CommittedCandidateReceipt,
    pub validity_votes: Vec<(ValidatorIndex, ValidityAttestation)>,
}

/// The mathematical content of an [`AttestedCandidate`].
pub struct AttestedView {
    pub group_id: ParaId,
    pub candidate: CommittedCandidateReceipt,
    pub validity_votes: Seq<(ValidatorIndex, ValidityAttestation)>,
}

impl View for AttestedCandidate {
    type V = AttestedView;

    open spec fn view(&self) -> AttestedView {
        AttestedView {
            group_id: self.group_id,
            candidate: self.candidate,
            validity_votes: self.validity_votes@,
        }
    }
}

/// One candidate of the table.
pub struct CandidateData {
    pub group_id: ParaId,
    pub candidate: CommittedCandidateReceipt,
    pub validity_votes: VecMap<ValidatorIndex, ValidityVote>,
}

/// The mathematical content of a [`CandidateData`].
pub struct CandidateView {
    pub group_id: ParaId,
    pub candidate: CommittedCandidateReceipt,
    pub votes: Map<ValidatorIndex, ValidityVote>,
}

impl View for CandidateData {
    type V = CandidateView;

    open spec fn view(&self) -> CandidateView {
        CandidateView {
            group_id: self.group_id,
            candidate: self.candidate,
            votes: self.validity_votes@,
        }
    }
}

/// The report for a second vote `new` that differs from the recorded vote
/// `existing` of the same validator on the same candidate.
pub open spec fn conflict(
    candidate: CommittedCandidateReceipt,
    digest: CandidateHash,
    existing: ValidityVote,
    new: ValidityVote,
) -> Misbehavior {
    match (existing, new) {
        (ValidityVote::Issued(iss), ValidityVote::Valid(good)) => Misbehavior::ValidityDoubleVote {
            candidate,
            issued: iss,
            digest,
            valid: good,
        },
        (ValidityVote::Valid(good), ValidityVote::Issued(iss)) => Misbehavior::ValidityDoubleVote {
            candidate,
            issued: iss,
            digest,
            valid: good,
        },
        (ValidityVote::Issued(a), ValidityVote::Issued(b)) => Misbehavior::DoubleSignOnSeconded {
            candidate,
            recorded: a,
            offered: b,
        },
        (ValidityVote::Valid(a), ValidityVote::Valid(b)) => Misbehavior::DoubleSignOnValidity {
            digest,
            recorded: a,
            offered: b,
        },
    }
}

/// The votes of `votes` that group members cast, in the order of the group.
/// A member listed twice counts where it is listed first.
pub open spec fn votes_in_group_order(
    votes: Map<ValidatorIndex, ValidityVote>,
    group: Seq<ValidatorIndex>,
) -> Seq<(ValidatorIndex, ValidityAttestation)>
    decreases group.len(),
{
    if group.len() == 0 {
        Seq::empty()
    } else {
        let earlier = votes_in_group_order(votes, group.drop_last());
        let member = group.last();
        if votes.contains_key(member) && !group.drop_last().contains(member) {
            earlier.push((member, votes[member].spec_attestation()))
        } else {
            earlier
        }
    }
}

/// The mathematical content of a [`Table`].
pub struct TableView {
    /// The candidate that each validator proposed, with the signature.
    pub proposals: Map<ValidatorIndex, (CandidateHash, ValidatorSignature)>,
    /// The candidates by digest, each with its votes.
    pub candidates: Map<CandidateHash, CandidateView>,
    /// The reports that have not been drained yet, oldest first.
    pub misbehaviors: Seq<(ValidatorIndex, Misbehavior)>,
}

impl TableView {
    pub open spec fn empty() -> TableView {
        TableView { proposals: Map::empty(), candidates: Map::empty(), misbehaviors: Seq::empty() }
    }

    /// Every proposal names a candidate of the table, and every candidate is
    /// filed under its own digest and parachain.
    pub open spec fn inv(self) -> bool {
        &&& forall|v: ValidatorIndex| #[trigger]
            self.proposals.contains_key(v) ==> self.candidates.contains_key(self.proposals[v].0)
        &&& forall|d: CandidateHash| #[trigger]
            self.candidates.contains_key(d) ==> {
                &&& self.candidates[d].candidate.receipt.hash == d
                &&& self.candidates[d].group_id
                    == self.candidates[d].candidate.receipt.descriptor.para_id
                &&& self.candidates[d].votes.dom().finite()
            }
    }

    /// Every recorded vote was cast by a member of the candidate's group.
    pub open spec fn voters_are_members(self, ctx: ContextView) -> bool {
        forall|d: CandidateHash, v: ValidatorIndex|
            self.candidates.contains_key(d) && #[trigger] self.candidates[d].votes.contains_key(v)
                ==> ctx.is_member_of(v, self.candidates[d].group_id)
    }

    /// The vote that `v` has on record for `d`, if any.
    pub open spec fn vote_of(self, d: CandidateHash, v: ValidatorIndex) -> Option<ValidityVote> {
        if self.candidates.contains_key(d) && self.candidates[d].votes.contains_key(v) {
            Some(self.candidates[d].votes[v])
        } else {
            None
        }
    }

    /// Records the vote of `from` on `digest`, or says why it is refused.
    /// `stated` is the statement that the vote came in.
    pub open spec fn cast(
        self,
        ctx: ContextView,
        from: ValidatorIndex,
        digest: CandidateHash,
        vote: ValidityVote,
        stated: Statement,
    ) -> (TableView, Result<Option<Summary>, Misbehavior>) {
        if !self.candidates.contains_key(digest) {
            (self, Ok(None))
        } else {
            let data = self.candidates[digest];
            if !ctx.is_member_of(from, data.group_id) {
                (
                    self,
                    Err(
                        Misbehavior::UnauthorizedStatement(
                            SignedStatement {
                                statement: stated,
                                signature: vote.spec_signature(),
                                sender: from,
                            },
                        ),
                    ),
                )
            } else if data.votes.contains_key(from) {
                if data.votes[from] == vote {
                    (self, Ok(None))
                } else {
                    (self, Err(conflict(data.candidate, digest, data.votes[from], vote)))
                }
            } else {
                let votes = data.votes.insert(from, vote);
                (
                    TableView {
                        candidates: self.candidates.insert(
                            digest,
                            CandidateView { votes, ..data },
                        ),
                        ..self
                    },
                    Ok(
                        Some(
                            Summary {
                                candidate: digest,
                                group_id: data.group_id,
                                validity_votes: votes.len() as usize,
                            },
                        ),
                    ),
                )
            }
        }
    }

    /// Takes the proposal of `candidate` by `from`, with the vote it implies.
    pub open spec fn propose(
        self,
        ctx: ContextView,
        from: ValidatorIndex,
        candidate: CommittedCandidateReceipt,
        signature: ValidatorSignature,
    ) -> (TableView, Result<Option<Summary>, Misbehavior>) {
        let group = candidate.receipt.descriptor.para_id;
        let digest = candidate.receipt.hash;
        if !ctx.is_member_of(from, group) {
            (
                self,
                Err(
                    Misbehavior::UnauthorizedStatement(
                        SignedStatement {
                            statement: Statement::Seconded(candidate),
                            signature,
                            sender: from,
                        },
                    ),
                ),
            )
        } else if self.proposals.contains_key(from) && self.proposals[from].0 != digest {
            (
                self,
                Err(
                    Misbehavior::MultipleCandidates {
                        first: self.candidates[self.proposals[from].0].candidate,
                        first_signature: self.proposals[from].1,
                        second: candidate,
                        second_signature: signature,
                    },
                ),
            )
        } else {
            self.noted(from, candidate, signature).cast(
                ctx,
                from,
                digest,
                ValidityVote::Issued(signature),
                Statement::Seconded(candidate),
            )
        }
    }

    /// The table with the proposal of `candidate` by `from` on record: a
    /// validator's first proposal is kept, and with it the candidate, unless
    /// the table has it already.
    pub open spec fn noted(
        self,
        from: ValidatorIndex,
        candidate: CommittedCandidateReceipt,
        signature: ValidatorSignature,
    ) -> TableView {
        let digest = candidate.receipt.hash;
        if self.proposals.contains_key(from) {
            self
        } else {
            TableView {
                proposals: self.proposals.insert(from, (digest, signature)),
                candidates: if self.candidates.contains_key(digest) {
                    self.candidates
                } else {
                    self.candidates.insert(
                        digest,
                        CandidateView {
                            group_id: candidate.receipt.descriptor.para_id,
                            candidate,
                            votes: Map::empty(),
                        },
                    )
                },
                ..self
            }
        }
    }

    /// Noting a proposal keeps the invariant, where the proposal is the
    /// validator's first or repeats it.
    pub proof fn lemma_noted_inv(
        self,
        from: ValidatorIndex,
        candidate: CommittedCandidateReceipt,
        signature: ValidatorSignature,
    )
        requires
            self.inv(),
            self.proposals.contains_key(from) ==> self.proposals[from].0 == candidate.receipt.hash,
        ensures
            self.noted(from, candidate, signature).inv(),
    {
        let noted = self.noted(from, candidate, signature);
        assert forall|v: ValidatorIndex| #[trigger]
            noted.proposals.contains_key(v) implies noted.candidates.contains_key(
            noted.proposals[v].0,
        ) by {
            if v != from {
                assert(self.proposals.contains_key(v));
            }
        }
        assert forall|d: CandidateHash| #[trigger] noted.candidates.contains_key(d) implies {
            &&& noted.candidates[d].candidate.receipt.hash == d
            &&& noted.candidates[d].group_id
                == noted.candidates[d].candidate.receipt.descriptor.para_id
            &&& noted.candidates[d].votes.dom().finite()
        } by {
            if self.candidates.contains_key(d) {
            }
        }
    }

    /// The table after importing `s`, and the summary of the vote if it was
    /// accepted. A refused statement leaves a report behind.
    pub open spec fn import(self, ctx: ContextView, s: SignedStatement) -> (
        TableView,
        Option<Summary>,
    ) {
        let (next, outcome) = match s.statement {
            Statement::Seconded(candidate) => self.propose(ctx, s.sender, candidate, s.signature),
            Statement::Valid(digest) => self.cast(
                ctx,
                s.sender,
                digest,
                ValidityVote::Valid(s.signature),
                Statement::Valid(digest),
            ),
        };
        match outcome {
            Ok(summary) => (next, summary),
            Err(report) => (
                TableView { misbehaviors: next.misbehaviors.push((s.sender, report)), ..next },
                None,
            ),
        }
    }

    /// The candidate `digest` with its votes, where it has as many as its
    /// group requires.
    pub open spec fn attested(self, ctx: ContextView, digest: CandidateHash) -> Option<
        AttestedView,
    > {
        if !self.candidates.contains_key(digest) {
            None
        } else {
            let data = self.candidates[digest];
            if data.votes.len() < ctx.requisite_votes(data.group_id) {
                None
            } else {
                Some(
                    AttestedView {
                        group_id: data.group_id,
                        candidate: data.candidate,
                        validity_votes: votes_in_group_order(data.votes, ctx.group(data.group_id)),
                    },
                )
            }
        }
    }

    /// The table without its pending reports.
    pub open spec fn drained(self) -> TableView {
        TableView { misbehaviors: Seq::empty(), ..self }
    }

    /// The invariant does not speak of the pending reports.
    pub proof fn lemma_inv_ignores_reports(self, other: TableView)
        requires
            self.inv(),
            other.proposals == self.proposals,
            other.candidates == self.candidates,
        ensures
            other.inv(),
    {
        assert forall|v: ValidatorIndex| #[trigger]
            other.proposals.contains_key(v) implies other.candidates.contains_key(
            other.proposals[v].0,
        ) by {
            assert(self.proposals.contains_key(v));
        }
    }
}

/// The statement table of one relay parent.
pub struct Table {
    pub authority_data: VecMap<ValidatorIndex, (CandidateHash, ValidatorSignature)>,
    pub candidate_votes: VecMap<CandidateHash, CandidateData>,
    pub detected_misbehavior: Vec<(ValidatorIndex, Misbehavior)>,
}

impl View for Table {
    type V = TableView;

    open spec fn view(&self) -> TableView {
        TableView {
            proposals: self.authority_data@,
            candidates: self.candidate_votes@.map_values(|d: CandidateData| d@),
            misbehaviors: self.detected_misbehavior@,
        }
    }
}

/// The report for a second, different vote, as a value.
fn conflict_report(
    candidate: CommittedCandidateReceipt,
    digest: CandidateHash,
    existing: ValidityVote,
    new: ValidityVote,
) -> (m: Misbehavior)
    ensures
        m == conflict(candidate, digest, existing, new),
{
    match (existing, new) {
        (ValidityVote::Issued(iss), ValidityVote::Valid(good)) => Misbehavior::ValidityDoubleVote {
            candidate,
            issued: iss,
            digest,
            valid: good,
        },
        (ValidityVote::Valid(good), ValidityVote::Issued(iss)) => Misbehavior::ValidityDoubleVote {
            candidate,
            issued: iss,
            digest,
            valid: good,
        },
        (ValidityVote::Issued(a), ValidityVote::Issued(b)) => Misbehavior::DoubleSignOnSeconded {
            candidate,
            recorded: a,
            offered: b,
        },
        (ValidityVote::Valid(a), ValidityVote::Valid(b)) => Misbehavior::DoubleSignOnValidity {
            digest,
            recorded: a,
            offered: b,
        },
    }
}

impl Table {
    pub open spec fn wf(&self) -> bool {
        &&& self.authority_data.wf()
        &&& self.candidate_votes.wf()
        &&& forall|d: CandidateHash| #[trigger]
            self.candidate_votes@.contains_key(d) ==> self.candidate_votes@[d].validity_votes.wf()
        &&& self@.inv()
    }

    /// A table without candidates.
    pub fn new() -> (t: Self)
        ensures
            t.wf(),
            t@ == TableView::empty(),
    {
        let t = Table {
            authority_data: VecMap::new(),
            candidate_votes: VecMap::new(),
            detected_misbehavior: Vec::new(),
        };
        assert(t@.candidates =~= Map::empty());
        t
    }

    /// The receipt of the candidate `digest`, if the table knows it.
    pub fn get_candidate(&self, digest: &CandidateHash) -> (r: Option<&CommittedCandidateReceipt>)
        requires
            self.wf(),
        ensures
            match r {
                Some(c) => self@.candidates.contains_key(*digest) && *c
                    == self@.candidates[*digest].candidate,
                None => !self@.candidates.contains_key(*digest),
            },
    {
        match self.candidate_votes.get(digest) {
            Some(data) => Some(&data.candidate),
            None => None,
        }
    }

    fn validity_vote(
        &mut self,
        ctx: &TableContext,
        from: ValidatorIndex,
        digest: CandidateHash,
        vote: ValidityVote,
        stated: Statement,
    ) -> (r: Result<Option<Summary>, Misbehavior>)
        requires
            old(self).wf(),
            ctx.wf(),
        ensures
            final(self).wf(),
            (final(self)@, r) == old(self)@.cast(ctx@, from, digest, vote, stated),
    {
        let (group_id, existing, candidate) = match self.candidate_votes.get(&digest) {
            None => {
                return Ok(None);
            },
            Some(data) => (
                data.group_id,
                match data.validity_votes.get(&from) {
                    Some(v) => Some(*v),
                    None => None,
                },
                data.candidate.clone(),
            ),
        };
        if !ctx.is_member_of(&from, &group_id) {
            return Err(
                Misbehavior::UnauthorizedStatement(
                    SignedStatement { statement: stated, signature: vote.signature(), sender: from },
                ),
            );
        }
        match existing {
            Some(recorded) => {
                if recorded != vote {
                    Err(conflict_report(candidate, digest, recorded, vote))
                } else {
                    Ok(None)
                }
            },
            None => {
                let ghost before = *self;
                match self.candidate_votes.remove(&digest) {
                    Some(data) => {
                        let mut data = data;
                        data.validity_votes.insert(from, vote);
                        let n = data.validity_votes.len();
                        self.candidate_votes.insert(digest, data);
                        proof {
                            let target = before@.cast(ctx@, from, digest, vote, stated).0;
                            assert(self.candidate_votes@ =~= before.candidate_votes@.insert(
                                digest,
                                data,
                            ));
                            assert(self@.candidates =~= target.candidates);
                        }
                        Ok(Some(Summary { candidate: digest, group_id, validity_votes: n }))
                    },
                    None => {
                        assert(false);
                        Ok(None)
                    },
                }
            },
        }
    }

    fn import_candidate(
        &mut self,
        ctx: &TableContext,
        authority: ValidatorIndex,
        candidate: CommittedCandidateReceipt,
        signature: ValidatorSignature,
    ) -> (r: Result<Option<Summary>, Misbehavior>)
        requires
            old(self).wf(),
            ctx.wf(),
        ensures
            final(self).wf(),
            (final(self)@, r) == old(self)@.propose(ctx@, authority, candidate, signature),
    {
        let group = candidate.descriptor().para_id;
        if !ctx.is_member_of(&authority, &group) {
            return Err(
                Misbehavior::UnauthorizedStatement(
                    SignedStatement {
                        statement: Statement::Seconded(candidate),
                        signature,
                        sender: authority,
                    },
                ),
            );
        }
        let digest = candidate.hash();
        let ghost start = self@;
        let proposal = match self.authority_data.get(&authority) {
            Some(p) => Some(*p),
            None => None,
        };
        let stated = Statement::Seconded(candidate.clone());
        match proposal {
            Some((old_digest, old_signature)) => {
                if old_digest != digest {
                    assert(self@.proposals.contains_key(authority));
                    assert(self@.candidates.contains_key(old_digest));
                    let first = match self.candidate_votes.get(&old_digest) {
                        Some(data) => Some(data.candidate.clone()),
                        None => None,
                    };
                    match first {
                        Some(first) => {
                            return Err(
                                Misbehavior::MultipleCandidates {
                                    first,
                                    first_signature: old_signature,
                                    second: candidate,
                                    second_signature: signature,
                                },
                            );
                        },
                        None => {
                            assert(false);
                            return Ok(None);
                        },
                    }
                }
            },
            None => {
                let ghost before = *self;
                self.authority_data.insert(authority, (digest, signature));
                if !self.candidate_votes.contains_key(&digest) {
                    self.candidate_votes.insert(
                        digest,
                        CandidateData { group_id: group, candidate, validity_votes: VecMap::new() },
                    );
                    proof {
                        assert(self@.candidates =~= before@.candidates.insert(
                            digest,
                            CandidateView { group_id: group, candidate, votes: Map::empty() },
                        ));
                    }
                }
            },
        }
        proof {
            assert(self@.candidates =~= start.noted(authority, candidate, signature).candidates);
            assert(self@ == start.noted(authority, candidate, signature));
            start.lemma_noted_inv(authority, candidate, signature);
        }
        self.validity_vote(ctx, authority, digest, ValidityVote::Issued(signature), stated)
    }

    /// Imports a signed statement. An accepted vote is summarised; a refused
    /// one leaves a report for [`Table::drain_misbehaviors`].
    pub fn import_statement(&mut self, ctx: &TableContext, statement: SignedStatement) -> (r:
        Option<Summary>)
        requires
            old(self).wf(),
            ctx.wf(),
        ensures
            final(self).wf(),
            (final(self)@, r) == old(self)@.import(ctx@, statement),
    {
        let SignedStatement { statement: stated, signature, sender } = statement;
        let outcome = match stated {
            Statement::Seconded(candidate) => self.import_candidate(
                ctx,
                sender,
                candidate,
                signature,
            ),
            Statement::Valid(digest) => self.validity_vote(
                ctx,
                sender,
                digest,
                ValidityVote::Valid(signature),
                Statement::Valid(digest),
            ),
        };
        match outcome {
            Ok(summary) => summary,
            Err(report) => {
                let ghost before = *self;
                self.detected_misbehavior.push((sender, report));
                proof {
                    before@.lemma_inv_ignores_reports(self@);
                }
                None
            },
        }
    }

    /// The candidate `digest` with its votes in group order, if it has as
    /// many votes as its group requires.
    pub fn attested_candidate(&self, digest: &CandidateHash, ctx: &TableContext) -> (r: Option<
        AttestedCandidate,
    >)
        requires
            self.wf(),
            ctx.wf(),
        ensures
            match r {
                Some(a) => self@.attested(ctx@, *digest) == Some(a@),
                None => self@.attested(ctx@, *digest).is_none(),
            },
    {
        let data = match self.candidate_votes.get(digest) {
            Some(data) => data,
            None => {
                return None;
            },
        };
        if data.validity_votes.len() < ctx.requisite_votes(&data.group_id) {
            return None;
        }
        let mut votes: Vec<(ValidatorIndex, ValidityAttestation)> = Vec::new();
        match ctx.group(&data.group_id) {
            Some(group) => {
                let mut i: usize = 0;
                while i < group.len()
                    invariant
                        i <= group.len(),
                        data.validity_votes.wf(),
                        votes@ == votes_in_group_order(data.validity_votes@, group@.take(i as int)),
                    decreases group.len() - i,
                {
                    let member = group[i];
                    let first = !occurs_before(group, i, member);
                    proof {
                        let next = group@.take(i + 1);
                        assert(next.drop_last() =~= group@.take(i as int));
                        assert(next.last() == member);
                    }
                    match data.validity_votes.get(&member) {
                        Some(vote) => {
                            if first {
                                votes.push((member, vote.attestation()));
                            }
                        },
                        None => {},
                    }
                    i += 1;
                }
                assert(group@.take(group@.len() as int) =~= group@);
            },
            None => {},
        }
        Some(
            AttestedCandidate {
                group_id: data.group_id,
                candidate: data.candidate.clone(),
                validity_votes: votes,
            },
        )
    }

    /// Hands out the pending reports, oldest first, and forgets them.
    pub fn drain_misbehaviors(&mut self) -> (reports: Vec<(ValidatorIndex, Misbehavior)>)
        requires
            old(self).wf(),
        ensures
            final(self).wf(),
            reports@ == old(self)@.misbehaviors,
            final(self)@ == old(self)@.drained(),
    {
        let mut reports: Vec<(ValidatorIndex, Misbehavior)> = Vec::new();
        std::mem::swap(&mut reports, &mut self.detected_misbehavior);
        proof {
            old(self)@.lemma_inv_ignores_reports(self@);
        }
        reports
    }
}

} // verus!
