//! From an attested candidate of the table to the backed candidate that goes
//! on chain: the votes in group order, and one bit for each group member
//! that voted.

use crate::bitfield::{spec_max_bits, Bitfield};
use crate::context::{occurs_before, ContextView, TableContext};
use crate::primitives::{CommittedCandidateReceipt, ValidatorIndex, ValidityAttestation};
use crate::table::{AttestedCandidate, AttestedView};
use vstd::prelude::*;

verus! {

/// A candidate with the attestations of its backing group.
///
/// Bit `i` of `validator_indices` is set where the `i`-th member of the
/// group has a vote, and `validity_votes` holds those votes by ascending bit.
#[derive(Debug, PartialEq, Eq)]
pub struct BackedCandidate {
    pub candidate: CommittedCandidateReceipt,
    pub validity_votes: Vec<ValidityAttestation>,
    pub validator_indices: Bitfield,
}

/// The mathematical content of a [`BackedCandidate`].
pub struct BackedView {
    pub candidate: CommittedCandidateReceipt,
    pub validity_votes: Seq<ValidityAttestation>,
    pub validator_indices: Seq<bool>,
}

impl View for BackedCandidate {
    type V = BackedView;

    open spec fn view(&self) -> BackedView {
        BackedView {
            candidate: self.candidate,
            validity_votes: self.validity_votes@,
            validator_indices: self.validator_indices@,
        }
    }
}

/// Position `p` is where `group[p]` stands first in the group.
pub open spec fn first_at(group: Seq<ValidatorIndex>, p: int) -> bool {
    0 <= p < group.len() && !group.take(p).contains(group[p])
}

/// Whether some vote of `votes` is by `member`.
pub open spec fn has_vote(
    votes: Seq<(ValidatorIndex, ValidityAttestation)>,
    member: ValidatorIndex,
) -> bool {
    exists|i: int| 0 <= i < votes.len() && (#[trigger] votes[i]).0 == member
}

/// The attestations of `member` among `votes`, in their order.
pub open spec fn attestations_of(
    votes: Seq<(ValidatorIndex, ValidityAttestation)>,
    member: ValidatorIndex,
) -> Seq<ValidityAttestation>
    decreases votes.len(),
{
    if votes.len() == 0 {
        Seq::empty()
    } else {
        let earlier = attestations_of(votes.drop_last(), member);
        if votes.last().0 == member {
            earlier.push(votes.last().1)
        } else {
            earlier
        }
    }
}

/// The attestations of `votes` sorted by the position at which the voter
/// stands first in `group`; votes of one voter keep their order.
pub open spec fn votes_by_position(
    votes: Seq<(ValidatorIndex, ValidityAttestation)>,
    group: Seq<ValidatorIndex>,
) -> Seq<ValidityAttestation>
    decreases group.len(),
{
    if group.len() == 0 {
        Seq::empty()
    } else {
        let earlier = votes_by_position(votes, group.drop_last());
        let member = group.last();
        if group.drop_last().contains(member) {
            earlier
        } else {
            earlier + attestations_of(votes, member)
        }
    }
}

/// One bit for each position of `group`: set where the member stands first
/// there and has a vote.
pub open spec fn vote_bits(
    votes: Seq<(ValidatorIndex, ValidityAttestation)>,
    group: Seq<ValidatorIndex>,
) -> Seq<bool> {
    Seq::new(group.len(), |p: int| first_at(group, p) && has_vote(votes, group[p]))
}

/// Whether an attested candidate can be turned into a backed one: its
/// parachain has a group, the group fits a bit vector, and every vote is by
/// a member of the group.
pub open spec fn backable(attested: AttestedView, ctx: ContextView) -> bool {
    &&& ctx.groups.contains_key(attested.group_id)
    &&& ctx.groups[attested.group_id].len() <= spec_max_bits()
    &&& forall|i: int|
        0 <= i < attested.validity_votes.len() ==> ctx.groups[attested.group_id].contains(
            (#[trigger] attested.validity_votes[i]).0,
        )
}

/// The backed candidate that an attested candidate gives.
pub open spec fn backed(attested: AttestedView, ctx: ContextView) -> Option<BackedView> {
    if backable(attested, ctx) {
        Some(
            BackedView {
                candidate: attested.candidate,
                validity_votes: votes_by_position(
                    attested.validity_votes,
                    ctx.groups[attested.group_id],
                ),
                validator_indices: vote_bits(attested.validity_votes, ctx.groups[attested.group_id]),
            },
        )
    } else {
        None
    }
}

/// Whether every vote is by a member of `group`.
fn all_in_group(votes: &Vec<(ValidatorIndex, ValidityAttestation)>, group: &Vec<ValidatorIndex>) -> (r:
    bool)
    ensures
        r == (forall|i: int| 0 <= i < votes@.len() ==> group@.contains((#[trigger] votes@[i]).0)),
{
    let mut i: usize = 0;
    while i < votes.len()
        invariant
            i <= votes.len(),
            forall|j: int| 0 <= j < i ==> group@.contains((#[trigger] votes@[j]).0),
        decreases votes.len() - i,
    {
        let found = occurs_before(group, group.len(), votes[i].0);
        assert(group@.take(group@.len() as int) =~= group@);
        if !found {
            return false;
        }
        i += 1;
    }
    true
}

/// Turns an attested candidate of the table into a backed candidate.
///
/// The votes come out in the order of the group, whatever their order was,
/// and the bit of each voter's first position in the group is set. There is
/// no result where the parachain has no group, where the group is longer
/// than a bit vector can be, or where a vote is not by a group member.
pub fn table_attested_to_backed(attested: AttestedCandidate, table_context: &TableContext) -> (r:
    Option<BackedCandidate>)
    requires
        table_context.wf(),
    ensures
        match r {
            Some(b) => backed(attested@, table_context@) == Some(b@),
            None => backed(attested@, table_context@).is_none(),
        },
{
    let AttestedCandidate { candidate, validity_votes: votes, group_id: para_id } = attested;
    let group = match table_context.group(&para_id) {
        Some(g) => g,
        None => {
            return None;
        },
    };
    if !all_in_group(&votes, group) {
        return None;
    }
    let mut validator_indices = match Bitfield::zeros(group.len()) {
        Some(b) => b,
        None => {
            return None;
        },
    };
    let mut validity_votes: Vec<ValidityAttestation> = Vec::new();
    let mut p: usize = 0;
    while p < group.len()
        invariant
            p <= group.len(),
            validator_indices@.len() == group@.len(),
            forall|q: int|
                0 <= q < group@.len() ==> #[trigger] validator_indices@[q] == (q < p && first_at(
                    group@,
                    q,
                ) && has_vote(votes@, group@[q])),
            validity_votes@ == votes_by_position(votes@, group@.take(p as int)),
        decreases group.len() - p,
    {
        let member = group[p];
        let repeated = occurs_before(group, p, member);
        proof {
            let next = group@.take(p + 1);
            assert(next.drop_last() =~= group@.take(p as int));
            assert(next.last() == member);
        }
        if !repeated {
            let ghost earlier = validity_votes@;
            let ghost bits = validator_indices@;
            let mut i: usize = 0;
            while i < votes.len()
                invariant
                    i <= votes.len(),
                    p < group.len(),
                    member == group@[p as int],
                    validator_indices@.len() == group@.len(),
                    forall|q: int|
                        0 <= q < group@.len() && q != p ==> #[trigger] validator_indices@[q]
                            == bits[q],
                    bits.len() == group@.len(),
                    !bits[p as int],
                    validator_indices@[p as int] == has_vote(votes@.take(i as int), member),
                    validity_votes@ == earlier + attestations_of(votes@.take(i as int), member),
                decreases votes.len() - i,
            {
                proof {
                    let next = votes@.take(i + 1);
                    assert(next.drop_last() =~= votes@.take(i as int));
                    assert(next.last() == votes@[i as int]);
                    if has_vote(votes@.take(i as int), member) {
                        let j = choose|j: int|
                            0 <= j < votes@.take(i as int).len() && (#[trigger] votes@.take(
                                i as int,
                            )[j]).0 == member;
                        assert(next[j].0 == member);
                    }
                    if has_vote(next, member) && votes@[i as int].0 != member {
                        let j = choose|j: int| 0 <= j < next.len() && (#[trigger] next[j]).0 == member;
                        assert(votes@.take(i as int)[j].0 == member);
                    }
                }
                if votes[i].0 == member {
                    validity_votes.push(votes[i].1);
                    let done = validator_indices.set(p);
                    proof {
                        assert(votes@.take(i + 1)[i as int].0 == member);
                        assert(validity_votes@ =~= earlier + attestations_of(
                            votes@.take(i + 1),
                            member,
                        ));
                    }
                }
                i += 1;
            }
            assert(votes@.take(votes@.len() as int) =~= votes@);
        }
        p += 1;
    }
    proof {
        assert(group@.take(group@.len() as int) =~= group@);
        assert(validator_indices@ =~= vote_bits(votes@, group@));
    }
    Some(BackedCandidate { candidate, validity_votes, validator_indices })
}

} // verus!
