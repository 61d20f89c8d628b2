//! The session's validators and groups as one relay parent sees them.

use crate::collections::VecMap;
use crate::primitives::{ParaId, ValidatorId, ValidatorIndex};
use vstd::prelude::*;

verus! {

/// The number of votes that backs a candidate whose group has `n` members.
pub open spec fn spec_minimum_votes(n: nat) -> nat {
    if n < 2 {
        n
    } else {
        2
    }
}

/// How many votes a candidate needs to be considered backed.
///
/// The inclusion rule on chain uses the same threshold.
pub fn minimum_votes(n_validators: usize) -> (r: usize)
    ensures
        r == spec_minimum_votes(n_validators as nat),
{
    if n_validators < 2 {
        n_validators
    } else {
        2
    }
}

/// This node's identity in the session, where it is a validator.
#[derive(Clone, Copy, Debug, PartialEq, Eq, Structural)]
pub struct LocalValidator {
    pub index: ValidatorIndex,
    pub key: ValidatorId,
}

/// The mathematical content of a [`TableContext`].
pub struct ContextView {
    pub validator: Option<LocalValidator>,
    pub groups: Map<ParaId, Seq<ValidatorIndex>>,
    pub validators: Seq<ValidatorId>,
}

impl ContextView {
    /// The members of the group assigned to `para`, in group order; empty
    /// where no group is assigned.
    pub open spec fn group(self, para: ParaId) -> Seq<ValidatorIndex> {
        if self.groups.contains_key(para) {
            self.groups[para]
        } else {
            Seq::empty()
        }
    }

    pub open spec fn is_member_of(self, authority: ValidatorIndex, para: ParaId) -> bool {
        self.groups.contains_key(para) && self.groups[para].contains(authority)
    }

    pub open spec fn requisite_votes(self, para: ParaId) -> nat {
        if self.groups.contains_key(para) {
            spec_minimum_votes(self.groups[para].len())
        } else {
            usize::MAX as nat
        }
    }
}

/// Validator keys by index, the group assigned to each parachain, and this
/// node's own identity. It does not change while a relay parent is live.
pub struct TableContext {
    pub validator: Option<LocalValidator>,
    pub groups: VecMap<ParaId, Vec<ValidatorIndex>>,
    pub validators: Vec<ValidatorId>,
}

impl View for TableContext {
    type V = ContextView;

    open spec fn view(&self) -> ContextView {
        ContextView {
            validator: self.validator,
            groups: self.groups@.map_values(|g: Vec<ValidatorIndex>| g@),
            validators: self.validators@,
        }
    }
}

/// Whether `authority` occurs among the first `n` members of `group`.
pub fn occurs_before(group: &Vec<ValidatorIndex>, n: usize, authority: ValidatorIndex) -> (r: bool)
    requires
        n <= group.len(),
    ensures
        r == group@.take(n as int).contains(authority),
{
    let mut i: usize = 0;
    while i < n
        invariant
            i <= n <= group.len(),
            forall|j: int| 0 <= j < i ==> group@[j] != authority,
        decreases n - i,
    {
        if group[i] == authority {
            assert(group@.take(n as int)[i as int] == authority);
            return true;
        }
        i += 1;
    }
    false
}

impl TableContext {
    pub open spec fn wf(&self) -> bool {
        self.groups.wf()
    }

    /// A context without groups.
    pub fn new(validator: Option<LocalValidator>, validators: Vec<ValidatorId>) -> (c: Self)
        ensures
            c.wf(),
            c@.validator == validator,
            c@.validators == validators@,
            c@.groups == Map::<ParaId, Seq<ValidatorIndex>>::empty(),
    {
        let c = TableContext { validator, groups: VecMap::new(), validators };
        assert(c@.groups =~= Map::<ParaId, Seq<ValidatorIndex>>::empty());
        c
    }

    /// Assigns `members` to `para`, in place of any group it had.
    pub fn set_group(&mut self, para: ParaId, members: Vec<ValidatorIndex>)
        requires
            old(self).wf(),
        ensures
            final(self).wf(),
            final(self)@ == (ContextView {
                groups: old(self)@.groups.insert(para, members@),
                ..old(self)@
            }),
    {
        let ghost seq = members@;
        self.groups.insert(para, members);
        assert(self@.groups =~= old(self)@.groups.insert(para, seq));
    }

    /// The group assigned to `para`.
    pub fn group(&self, para: &ParaId) -> (g: Option<&Vec<ValidatorIndex>>)
        requires
            self.wf(),
        ensures
            match g {
                Some(members) => self@.groups.contains_key(*para) && members@ == self@.groups[*para],
                None => !self@.groups.contains_key(*para),
            },
    {
        self.groups.get(para)
    }

    /// Whether `authority` belongs to the group assigned to `para`.
    pub fn is_member_of(&self, authority: &ValidatorIndex, para: &ParaId) -> (r: bool)
        requires
            self.wf(),
        ensures
            r == self@.is_member_of(*authority, *para),
    {
        match self.groups.get(para) {
            Some(g) => {
                let r = occurs_before(g, g.len(), *authority);
                assert(g@.take(g@.len() as int) =~= g@);
                r
            },
            None => false,
        }
    }

    /// The number of votes that backs a candidate of `para`; out of reach
    /// where no group is assigned to it.
    pub fn requisite_votes(&self, para: &ParaId) -> (r: usize)
        requires
            self.wf(),
        ensures
            r == self@.requisite_votes(*para),
    {
        match self.groups.get(para) {
            Some(g) => minimum_votes(g.len()),
            None => usize::MAX,
        }
    }
}

} // verus!
