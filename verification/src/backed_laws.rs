//! What holds of the backed candidate that the table's attested candidate
//! gives: the votes keep their order, each voter has exactly one bit, and
//! the `i`-th vote belongs to the `i`-th set bit.

use crate::backed::{
    attestations_of, backable, backed, first_at, has_vote, vote_bits, votes_by_position,
};
use crate::bitfield::spec_max_bits;
use crate::context::ContextView;
use crate::primitives::{CandidateHash, ValidatorIndex, ValidityAttestation};
use crate::table::{votes_in_group_order, TableView, ValidityVote};
use vstd::prelude::*;

verus! {

/// The positions of the set bits, ascending.
pub open spec fn set_positions(bits: Seq<bool>) -> Seq<int>
    decreases bits.len(),
{
    if bits.len() == 0 {
        Seq::empty()
    } else {
        let earlier = set_positions(bits.drop_last());
        if bits.last() {
            earlier.push(bits.len() - 1)
        } else {
            earlier
        }
    }
}

/// One bit for each position of `group`: set where the member stands first
/// there and has a vote in `votes`.
pub open spec fn voter_bits(votes: Map<ValidatorIndex, ValidityVote>, group: Seq<ValidatorIndex>) -> Seq<
    bool,
> {
    Seq::new(group.len(), |p: int| first_at(group, p) && votes.contains_key(group[p]))
}

/// Every entry of the votes in group order is the recorded vote of a group
/// member, and every member with a vote has an entry.
pub proof fn lemma_group_order_entries(
    votes: Map<ValidatorIndex, ValidityVote>,
    group: Seq<ValidatorIndex>,
)
    ensures
        forall|i: int|
            0 <= i < votes_in_group_order(votes, group).len() ==> {
                let e = #[trigger] votes_in_group_order(votes, group)[i];
                &&& group.contains(e.0)
                &&& votes.contains_key(e.0)
                &&& e.1 == votes[e.0].spec_attestation()
            },
        forall|m: ValidatorIndex|
            has_vote(votes_in_group_order(votes, group), m) <==> (votes.contains_key(m)
                && group.contains(m)),
    decreases group.len(),
{
    let a = votes_in_group_order(votes, group);
    if group.len() > 0 {
        let shorter = group.drop_last();
        let b = votes_in_group_order(votes, shorter);
        let last = group.last();
        lemma_group_order_entries(votes, shorter);
        assert forall|x: ValidatorIndex| shorter.contains(x) implies group.contains(x) by {
            let j = shorter.index_of(x);
            assert(group[j] == x);
        }
        assert(group.contains(last)) by {
            assert(group[group.len() - 1] == last);
        }
        assert forall|x: ValidatorIndex| group.contains(x) implies shorter.contains(x) || x
            == last by {
            let j = group.index_of(x);
            if j < shorter.len() {
                assert(shorter[j] == x);
            }
        }
        assert forall|i: int| 0 <= i < a.len() implies {
            let e = #[trigger] a[i];
            &&& group.contains(e.0)
            &&& votes.contains_key(e.0)
            &&& e.1 == votes[e.0].spec_attestation()
        } by {
            if i < b.len() {
                assert(a[i] == b[i]);
            }
        }
        assert forall|m: ValidatorIndex|
            has_vote(a, m) <==> (votes.contains_key(m) && group.contains(m)) by {
            if has_vote(a, m) {
                let i = choose|i: int| 0 <= i < a.len() && (#[trigger] a[i]).0 == m;
                assert(group.contains(a[i].0));
            }
            if votes.contains_key(m) && group.contains(m) {
                if shorter.contains(m) {
                    assert(has_vote(b, m));
                    let i = choose|i: int| 0 <= i < b.len() && (#[trigger] b[i]).0 == m;
                    assert(a[i].0 == m);
                } else {
                    assert(m == last);
                    assert(a[a.len() - 1].0 == m);
                }
            }
        }
    } else {
        assert forall|m: ValidatorIndex| !group.contains(m) by {}
    }
}

/// Nobody without a vote has attestations.
pub proof fn lemma_attestations_absent(
    votes: Seq<(ValidatorIndex, ValidityAttestation)>,
    member: ValidatorIndex,
)
    requires
        !has_vote(votes, member),
    ensures
        attestations_of(votes, member) == Seq::<ValidityAttestation>::empty(),
    decreases votes.len(),
{
    if votes.len() > 0 {
        assert(votes[votes.len() - 1].0 != member);
        assert(!has_vote(votes.drop_last(), member)) by {
            if has_vote(votes.drop_last(), member) {
                let i = choose|i: int|
                    0 <= i < votes.drop_last().len() && (#[trigger] votes.drop_last()[i]).0
                        == member;
                assert(votes[i].0 == member);
            }
        }
        lemma_attestations_absent(votes.drop_last(), member);
    }
}

/// A vote by somebody outside the group does not show in the votes by
/// position.
pub proof fn lemma_by_position_ignores_outsider(
    votes: Seq<(ValidatorIndex, ValidityAttestation)>,
    extra: (ValidatorIndex, ValidityAttestation),
    group: Seq<ValidatorIndex>,
)
    requires
        !group.contains(extra.0),
    ensures
        votes_by_position(votes.push(extra), group) == votes_by_position(votes, group),
    decreases group.len(),
{
    if group.len() > 0 {
        let shorter = group.drop_last();
        assert(!shorter.contains(extra.0)) by {
            if shorter.contains(extra.0) {
                let j = shorter.index_of(extra.0);
                assert(group[j] == extra.0);
            }
        }
        assert(group.last() != extra.0) by {
            assert(group[group.len() - 1] == group.last());
        }
        lemma_by_position_ignores_outsider(votes, extra, shorter);
        assert(votes.push(extra).drop_last() =~= votes);
    }
}

/// The votes in group order are already sorted by position: turning them
/// into a backed candidate keeps their order.
pub proof fn lemma_group_order_is_sorted(
    votes: Map<ValidatorIndex, ValidityVote>,
    group: Seq<ValidatorIndex>,
)
    ensures
        votes_by_position(votes_in_group_order(votes, group), group) == votes_in_group_order(
            votes,
            group,
        ).map_values(|e: (ValidatorIndex, ValidityAttestation)| e.1),
    decreases group.len(),
{
    let second = |e: (ValidatorIndex, ValidityAttestation)| e.1;
    let a = votes_in_group_order(votes, group);
    if group.len() == 0 {
        assert(a.map_values(second) =~= Seq::<ValidityAttestation>::empty());
    } else {
        let shorter = group.drop_last();
        let b = votes_in_group_order(votes, shorter);
        let last = group.last();
        lemma_group_order_is_sorted(votes, shorter);
        lemma_group_order_entries(votes, shorter);
        if shorter.contains(last) {
        } else {
            assert(!has_vote(b, last));
            lemma_attestations_absent(b, last);
            if votes.contains_key(last) {
                let e = (last, votes[last].spec_attestation());
                assert(a == b.push(e));
                lemma_by_position_ignores_outsider(b, e, shorter);
                assert(a.drop_last() =~= b);
                assert(attestations_of(a, last) =~= seq![e.1]);
                assert(a.map_values(second) =~= b.map_values(second).push(e.1));
                assert(votes_by_position(a, group) =~= a.map_values(second));
            } else {
                assert(votes_by_position(a, group) =~= a.map_values(second));
            }
        }
    }
}

/// The bits of the votes in group order mark the voters' first positions.
pub proof fn lemma_group_order_bits(
    votes: Map<ValidatorIndex, ValidityVote>,
    group: Seq<ValidatorIndex>,
)
    ensures
        vote_bits(votes_in_group_order(votes, group), group) == voter_bits(votes, group),
{
    lemma_group_order_entries(votes, group);
    assert forall|p: int| 0 <= p < group.len() implies (first_at(group, p) && has_vote(
        votes_in_group_order(votes, group),
        group[p],
    )) == (first_at(group, p) && votes.contains_key(group[p])) by {
        assert(group.contains(group[p]));
    }
    assert(vote_bits(votes_in_group_order(votes, group), group) =~= voter_bits(votes, group));
}

/// The `i`-th vote in group order is the vote of the member at the `i`-th
/// set bit, and there are as many votes as set bits.
pub proof fn lemma_votes_follow_bits(
    votes: Map<ValidatorIndex, ValidityVote>,
    group: Seq<ValidatorIndex>,
)
    ensures
        set_positions(voter_bits(votes, group)).len() == votes_in_group_order(votes, group).len(),
        forall|i: int|
            0 <= i < votes_in_group_order(votes, group).len() ==> {
                let p = #[trigger] set_positions(voter_bits(votes, group))[i];
                &&& 0 <= p < group.len()
                &&& voter_bits(votes, group)[p]
                &&& votes_in_group_order(votes, group)[i] == (
                    group[p],
                    votes[group[p]].spec_attestation(),
                )
            },
    decreases group.len(),
{
    let a = votes_in_group_order(votes, group);
    let bits = voter_bits(votes, group);
    if group.len() > 0 {
        let shorter = group.drop_last();
        let b = votes_in_group_order(votes, shorter);
        let last = group.last();
        let n = shorter.len() as int;
        lemma_votes_follow_bits(votes, shorter);
        assert forall|p: int| 0 <= p < n implies first_at(group, p) == first_at(shorter, p) by {
            assert(group.take(p) =~= shorter.take(p));
        }
        assert(group.take(n) =~= shorter);
        assert(bits.drop_last() =~= voter_bits(votes, shorter));
        assert(bits.last() == (votes.contains_key(last) && !shorter.contains(last)));
        assert forall|i: int| 0 <= i < a.len() implies {
            let p = #[trigger] set_positions(bits)[i];
            &&& 0 <= p < group.len()
            &&& bits[p]
            &&& a[i] == (group[p], votes[group[p]].spec_attestation())
        } by {
            if i < b.len() {
                let p = set_positions(voter_bits(votes, shorter))[i];
                assert(set_positions(bits)[i] == p);
                assert(a[i] == b[i]);
                assert(group[p] == shorter[p]);
                assert(bits[p] == voter_bits(votes, shorter)[p]);
            }
        }
    }
}

/// No validator has two entries among the votes in group order, and where
/// all voters are group members there are as many entries as votes.
pub proof fn lemma_group_order_counts(
    votes: Map<ValidatorIndex, ValidityVote>,
    group: Seq<ValidatorIndex>,
)
    requires
        votes.dom().finite(),
    ensures
        votes_in_group_order(votes, group).map_values(
            |e: (ValidatorIndex, ValidityAttestation)| e.0,
        ).no_duplicates(),
        (forall|v: ValidatorIndex| votes.contains_key(v) ==> group.contains(v))
            ==> votes_in_group_order(votes, group).len() == votes.dom().len(),
{
    let first = |e: (ValidatorIndex, ValidityAttestation)| e.0;
    lemma_group_order_ids_distinct(votes, group);
    let ids = votes_in_group_order(votes, group).map_values(first);
    if forall|v: ValidatorIndex| votes.contains_key(v) ==> group.contains(v) {
        lemma_group_order_entries(votes, group);
        assert forall|v: ValidatorIndex| ids.to_set().contains(v) <==> votes.dom().contains(
            v,
        ) by {
            let a = votes_in_group_order(votes, group);
            if ids.contains(v) {
                let i = ids.index_of(v);
                assert(a[i].0 == v);
            }
            if votes.contains_key(v) {
                assert(group.contains(v));
                assert(has_vote(a, v));
                let i = choose|i: int| 0 <= i < a.len() && (#[trigger] a[i]).0 == v;
                assert(ids[i] == v);
            }
        }
        assert(ids.to_set() =~= votes.dom());
        ids.unique_seq_to_set();
    }
}

proof fn lemma_group_order_ids_distinct(
    votes: Map<ValidatorIndex, ValidityVote>,
    group: Seq<ValidatorIndex>,
)
    ensures
        votes_in_group_order(votes, group).map_values(
            |e: (ValidatorIndex, ValidityAttestation)| e.0,
        ).no_duplicates(),
    decreases group.len(),
{
    let first = |e: (ValidatorIndex, ValidityAttestation)| e.0;
    let a = votes_in_group_order(votes, group);
    if group.len() > 0 {
        let shorter = group.drop_last();
        let b = votes_in_group_order(votes, shorter);
        let last = group.last();
        lemma_group_order_ids_distinct(votes, shorter);
        lemma_group_order_entries(votes, shorter);
        let ids = a.map_values(first);
        let ids_b = b.map_values(first);
        assert forall|i: int, j: int| 0 <= i < ids.len() && 0 <= j < ids.len() && i != j implies ids[i]
            != ids[j] by {
            if i < b.len() && j < b.len() {
                assert(ids[i] == ids_b[i] && ids[j] == ids_b[j]);
            } else if i < b.len() {
                assert(shorter.contains(b[i].0));
            } else if j < b.len() {
                assert(shorter.contains(b[j].0));
            }
        }
    }
}

/// The backed candidate of an attested candidate that the table hands out.
///
/// Where every voter is a member of the candidate's group and the group fits
/// a bit vector, the conversion succeeds; the attestations are those of the
/// table in group order; the bit field has one bit for each position of the
/// group, set exactly where a voter stands first; there are as many set bits
/// as attestations, and as many attestations as votes; and the `i`-th
/// attestation is the vote of the member at the `i`-th set bit.
pub proof fn lemma_backed_matches_bits(table: TableView, ctx: ContextView, digest: CandidateHash)
    requires
        table.inv(),
        table.voters_are_members(ctx),
        table.attested(ctx, digest).is_some(),
        ctx.group(table.candidates[digest].group_id).len() <= spec_max_bits(),
        ctx.groups.contains_key(table.candidates[digest].group_id),
    ensures
        backed(table.attested(ctx, digest).unwrap(), ctx).is_some(),
        ({
            let votes = table.candidates[digest].votes;
            let group = ctx.groups[table.candidates[digest].group_id];
            let b = backed(table.attested(ctx, digest).unwrap(), ctx).unwrap();
            &&& b.candidate == table.candidates[digest].candidate
            &&& b.validator_indices.len() == group.len()
            &&& forall|p: int|
                0 <= p < group.len() ==> (#[trigger] b.validator_indices[p] <==> first_at(group, p)
                    && votes.contains_key(group[p]))
            &&& b.validity_votes.len() == votes.dom().len()
            &&& set_positions(b.validator_indices).len() == b.validity_votes.len()
            &&& forall|i: int|
                0 <= i < b.validity_votes.len() ==> {
                    let p = #[trigger] set_positions(b.validator_indices)[i];
                    &&& 0 <= p < group.len()
                    &&& b.validator_indices[p]
                    &&& b.validity_votes[i] == votes[group[p]].spec_attestation()
                }
        }),
{
    let data = table.candidates[digest];
    let votes = data.votes;
    let group = ctx.groups[data.group_id];
    let a = table.attested(ctx, digest).unwrap();
    assert(a.validity_votes == votes_in_group_order(votes, group));
    lemma_group_order_entries(votes, group);
    assert(backable(a, ctx));
    lemma_group_order_is_sorted(votes, group);
    lemma_group_order_bits(votes, group);
    lemma_votes_follow_bits(votes, group);
    assert forall|v: ValidatorIndex| votes.contains_key(v) implies group.contains(v) by {
        assert(table.candidates[digest].votes.contains_key(v));
        assert(ctx.is_member_of(v, data.group_id));
    }
    lemma_group_order_counts(votes, group);
}

} // verus!
