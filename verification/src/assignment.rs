//! Building the state of a relay parent from what the runtime says of it:
//! the validators, the groups and their rotation, the session, and the
//! availability cores.

use crate::context::{occurs_before, ContextView, LocalValidator, TableContext};
use crate::primitives::{
    BlockNumber, CollatorId, CoreIndex, GroupIndex, ParaId, SessionIndex, ValidatorId,
    ValidatorIndex, H256,
};
use crate::relay_parent::{PerRelayParentState, RelayParentView};
use crate::table::TableView;
use vstd::prelude::*;

verus! {

/// A core that a parachain is scheduled on.
#[derive(Clone, Copy, Debug, PartialEq, Eq, Structural)]
pub struct ScheduledCore {
    pub para_id: ParaId,
    /// The collator that has to author the block, if any. It has no part
    /// in the assignment.
    pub collator: Option<CollatorId>,
}

/// The state of an availability core.
#[derive(Clone, Copy, Debug, PartialEq, Eq, Structural)]
pub enum CoreState {
    /// A candidate is pending availability on the core.
    Occupied,
    /// The core is free and a parachain is scheduled on it.
    Scheduled(ScheduledCore),
    /// The core is free and nothing is scheduled on it.
    Free,
}

/// How the validator groups rotate over the cores.
#[derive(Clone, Copy, Debug, PartialEq, Eq, Structural)]
pub struct GroupRotationInfo {
    /// The block at which the session started.
    pub session_start_block: BlockNumber,
    /// The number of blocks between rotations; 0 where groups do not rotate.
    pub group_rotation_frequency: BlockNumber,
    /// The block that the information is of.
    pub now: BlockNumber,
}

impl GroupRotationInfo {
    /// The group that serves core `core_index` of `cores`: the core's index
    /// moved on by the number of rotations since the session started, taken
    /// modulo the number of cores.
    pub open spec fn spec_group_for_core(self, core_index: CoreIndex, cores: nat) -> GroupIndex {
        if self.group_rotation_frequency == 0 {
            GroupIndex(core_index.0)
        } else if cores == 0 {
            GroupIndex(0)
        } else {
            let cores = if cores < u32::MAX {
                cores as int
            } else {
                u32::MAX as int
            };
            let blocks_since_start = if self.now >= self.session_start_block {
                self.now - self.session_start_block
            } else {
                0
            };
            let rotations = blocks_since_start / (self.group_rotation_frequency as int);
            GroupIndex(((core_index.0 + rotations) % cores) as u32)
        }
    }

    /// The group that serves core `core_index` of `cores`.
    pub fn group_for_core(&self, core_index: CoreIndex, cores: usize) -> (g: GroupIndex)
        ensures
            g == self.spec_group_for_core(core_index, cores as nat),
    {
        if self.group_rotation_frequency == 0 {
            return GroupIndex(core_index.0);
        }
        if cores == 0 {
            return GroupIndex(0);
        }
        let cores: u64 = if cores < u32::MAX as usize {
            cores as u64
        } else {
            u32::MAX as u64
        };
        let blocks_since_start: u32 = if self.now >= self.session_start_block {
            self.now - self.session_start_block
        } else {
            0
        };
        let rotations: u32 = blocks_since_start / self.group_rotation_frequency;
        let idx: u64 = (core_index.0 as u64 + rotations as u64) % cores;
        GroupIndex(idx as u32)
    }
}

/// What became of looking for this node's key among the validators.
#[derive(Clone, Copy, Debug, PartialEq, Eq, Structural)]
pub enum LocalIdentity {
    /// The keystore holds the key of this validator.
    Validator(LocalValidator),
    /// The keystore holds none of the validators' keys.
    NotAValidator,
    /// The keystore could not be asked.
    Unavailable,
}

/// What the runtime answered about a relay parent; `None` where a request
/// failed.
pub struct RuntimeAnswers {
    pub validators: Option<Vec<ValidatorId>>,
    pub groups: Option<(Vec<Vec<ValidatorIndex>>, GroupRotationInfo)>,
    pub session_index: Option<SessionIndex>,
    pub cores: Option<Vec<CoreState>>,
}

/// The content of a list of groups.
pub open spec fn group_views(groups: Seq<Vec<ValidatorIndex>>) -> Seq<Seq<ValidatorIndex>> {
    groups.map_values(|g: Vec<ValidatorIndex>| g@)
}

/// The parachain scheduled on core `i` and the group that serves the core,
/// where the core is scheduled and the group exists.
pub open spec fn core_group(
    cores: Seq<CoreState>,
    groups: Seq<Seq<ValidatorIndex>>,
    info: GroupRotationInfo,
    i: int,
) -> Option<(ParaId, Seq<ValidatorIndex>)> {
    match cores[i] {
        CoreState::Scheduled(scheduled) => {
            let g = info.spec_group_for_core(CoreIndex(i as u32), cores.len()).0 as int;
            if g < groups.len() {
                Some((scheduled.para_id, groups[g]))
            } else {
                None
            }
        },
        _ => None,
    }
}

/// The group of each parachain that is scheduled on one of the first `n`
/// cores; a later core goes over an earlier one.
pub open spec fn scheduled_groups(
    cores: Seq<CoreState>,
    groups: Seq<Seq<ValidatorIndex>>,
    info: GroupRotationInfo,
    n: int,
) -> Map<ParaId, Seq<ValidatorIndex>>
    decreases n,
{
    if n <= 0 {
        Map::empty()
    } else {
        let earlier = scheduled_groups(cores, groups, info, n - 1);
        match core_group(cores, groups, info, n - 1) {
            Some((para, group)) => earlier.insert(para, group),
            None => earlier,
        }
    }
}

/// The parachain of the first among the first `n` cores whose group this
/// node belongs to.
pub open spec fn assignment(
    cores: Seq<CoreState>,
    groups: Seq<Seq<ValidatorIndex>>,
    info: GroupRotationInfo,
    our: Option<ValidatorIndex>,
    n: int,
) -> Option<ParaId>
    decreases n,
{
    if n <= 0 {
        None
    } else {
        match assignment(cores, groups, info, our, n - 1) {
            Some(para) => Some(para),
            None => match (core_group(cores, groups, info, n - 1), our) {
                (Some((para, group)), Some(index)) => if group.contains(index) {
                    Some(para)
                } else {
                    None
                },
                _ => None,
            },
        }
    }
}

/// The state that backing work under `relay_parent` starts from, or nothing
/// where a request to the runtime failed, the keystore could not be asked,
/// or there are more cores than can be counted.
pub open spec fn constructed(
    relay_parent: H256,
    validators: Option<Seq<ValidatorId>>,
    groups: Option<(Seq<Seq<ValidatorIndex>>, GroupRotationInfo)>,
    session_index: Option<SessionIndex>,
    cores: Option<Seq<CoreState>>,
    identity: LocalIdentity,
) -> Option<RelayParentView> {
    if validators.is_none() || groups.is_none() || session_index.is_none() || cores.is_none()
        || identity == LocalIdentity::Unavailable || cores.unwrap().len() > u32::MAX {
        None
    } else {
        let validator = match identity {
            LocalIdentity::Validator(v) => Some(v),
            _ => None,
        };
        let our = match validator {
            Some(v) => Some(v.index),
            None => None,
        };
        let (groups, info) = groups.unwrap();
        let cores = cores.unwrap();
        Some(
            RelayParentView {
                parent: relay_parent,
                session_index: session_index.unwrap(),
                assignment: assignment(cores, groups, info, our, cores.len() as int),
                backed: Set::empty(),
                table: TableView::empty(),
                context: ContextView {
                    validator,
                    groups: scheduled_groups(cores, groups, info, cores.len() as int),
                    validators: validators.unwrap(),
                },
                issued: Set::empty(),
                awaiting: Set::empty(),
                fallbacks: Map::empty(),
            },
        )
    }
}

/// A copy of a group.
fn copy_group(group: &Vec<ValidatorIndex>) -> (copy: Vec<ValidatorIndex>)
    ensures
        copy@ == group@,
{
    let mut copy: Vec<ValidatorIndex> = Vec::new();
    let mut i: usize = 0;
    while i < group.len()
        invariant
            i <= group.len(),
            copy@ == group@.take(i as int),
        decreases group.len() - i,
    {
        copy.push(group[i]);
        assert(group@.take(i + 1) =~= group@.take(i as int).push(group@[i as int]));
        i += 1;
    }
    assert(group@.take(group@.len() as int) =~= group@);
    copy
}

/// Builds the state that backing work under `relay_parent` starts from; see
/// [`constructed`].
///
/// This node is assigned to the parachain of the first scheduled core whose
/// group it belongs to. The table context holds the group of every
/// scheduled parachain. Where the runtime or the keystore failed there is no
/// state, and the relay parent is left out.
pub fn construct_per_relay_parent_state(
    relay_parent: H256,
    answers: RuntimeAnswers,
    identity: LocalIdentity,
) -> (r: Option<PerRelayParentState>)
    ensures
        match r {
            Some(per) => {
                &&& per.wf()
                &&& per@.inv()
                &&& Some(per@) == constructed(
                    relay_parent,
                    match answers.validators {
                        Some(v) => Some(v@),
                        None => None,
                    },
                    match answers.groups {
                        Some((g, info)) => Some((group_views(g@), info)),
                        None => None,
                    },
                    answers.session_index,
                    match answers.cores {
                        Some(c) => Some(c@),
                        None => None,
                    },
                    identity,
                )
            },
            None => constructed(
                relay_parent,
                match answers.validators {
                    Some(v) => Some(v@),
                    None => None,
                },
                match answers.groups {
                    Some((g, info)) => Some((group_views(g@), info)),
                    None => None,
                },
                answers.session_index,
                match answers.cores {
                    Some(c) => Some(c@),
                    None => None,
                },
                identity,
            ).is_none(),
        },
{
    let RuntimeAnswers { validators, groups, session_index, cores } = answers;
    let validators = match validators {
        Some(v) => v,
        None => {
            return None;
        },
    };
    let (validator_groups, group_rotation_info) = match groups {
        Some(g) => g,
        None => {
            return None;
        },
    };
    let session_index = match session_index {
        Some(s) => s,
        None => {
            return None;
        },
    };
    let cores = match cores {
        Some(c) => c,
        None => {
            return None;
        },
    };
    let validator = match identity {
        LocalIdentity::Validator(v) => Some(v),
        LocalIdentity::NotAValidator => None,
        LocalIdentity::Unavailable => {
            return None;
        },
    };
    let n_cores = cores.len();
    if n_cores > u32::MAX as usize {
        return None;
    }
    let ghost our = match validator {
        Some(v) => Some(v.index),
        None => None,
    };
    let ghost group_seqs = group_views(validator_groups@);
    let mut table_context = TableContext::new(validator, validators);
    let mut assigned: Option<ParaId> = None;
    let mut idx: usize = 0;
    while idx < n_cores
        invariant
            idx <= n_cores,
            n_cores == cores@.len(),
            n_cores <= u32::MAX,
            group_seqs == group_views(validator_groups@),
            our == (match validator {
                Some(v) => Some(v.index),
                None => None,
            }),
            table_context.wf(),
            table_context@.validator == validator,
            table_context@.validators == validators@,
            table_context@.groups == scheduled_groups(
                cores@,
                group_seqs,
                group_rotation_info,
                idx as int,
            ),
            assigned == assignment(cores@, group_seqs, group_rotation_info, our, idx as int),
        decreases n_cores - idx,
    {
        match cores[idx] {
            CoreState::Scheduled(scheduled) => {
                let core_index = CoreIndex(idx as u32);
                let group_index = group_rotation_info.group_for_core(core_index, n_cores);
                let g = group_index.0 as usize;
                if g < validator_groups.len() {
                    let group = &validator_groups[g];
                    assert(group@ == group_seqs[g as int]);
                    let member = match validator {
                        Some(v) => {
                            let found = occurs_before(group, group.len(), v.index);
                            assert(group@.take(group@.len() as int) =~= group@);
                            found
                        },
                        None => false,
                    };
                    assert(core_group(cores@, group_seqs, group_rotation_info, idx as int) == Some(
                        (scheduled.para_id, group@),
                    ));
                    assert(member == (our.is_some() && group@.contains(our.unwrap())));
                    if member && assigned.is_none() {
                        assigned = Some(scheduled.para_id);
                    }
                    table_context.set_group(scheduled.para_id, copy_group(group));
                } else {
                    assert(core_group(cores@, group_seqs, group_rotation_info, idx as int).is_none());
                }
            },
            _ => {
                assert(core_group(cores@, group_seqs, group_rotation_info, idx as int).is_none());
            },
        }
        idx += 1;
    }
    let per = PerRelayParentState::new(relay_parent, session_index, assigned, table_context);
    assert(per@.inv());
    Some(per)
}

} // verus!
