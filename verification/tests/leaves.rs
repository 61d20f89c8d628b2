use candidate_backing::assignment::{
    construct_per_relay_parent_state, CoreState, GroupRotationInfo, LocalIdentity, RuntimeAnswers,
    ScheduledCore,
};
use candidate_backing::context::LocalValidator;
use candidate_backing::coordinator::{handle_statement_message, handle_validated_candidate_command};
use candidate_backing::leaves::{
    handle_active_leaves_update, finish_leaf_activation, insert_relay_parent, ActivatedLeaf,
    ActiveLeavesUpdate,
};
use candidate_backing::messages::{Validated, ValidatedCandidateCommand};
use candidate_backing::primitives::{
    CandidateCommitments, CandidateDescriptor, CandidateHash, CandidateReceipt,
    CommittedCandidateReceipt, CoreIndex, GroupIndex, ParaId, PoV, PublicKey, Signature,
    SignedFullStatement, Statement, ValidatorIndex, H256,
};
use candidate_backing::state::{ImplicitView, ProspectiveParachainsMode, State};
use std::sync::Arc;

fn hash(n: u128) -> H256 {
    H256 { hi: 0, lo: n }
}

fn key(n: u128) -> PublicKey {
    PublicKey { hi: 0, lo: n }
}

fn sig(n: u128) -> Signature {
    Signature { q0: 0, q1: 0, q2: 0, q3: n }
}

fn receipt(n: u128, para: u32, relay_parent: H256) -> CandidateReceipt {
    CandidateReceipt {
        hash: CandidateHash(hash(n)),
        descriptor: CandidateDescriptor {
            para_id: ParaId(para),
            relay_parent,
            collator: key(7),
            persisted_validation_data_hash: hash(n + 1),
            pov_hash: hash(n + 2),
            erasure_root: hash(n + 3),
            signature: sig(9),
            para_head: hash(n + 4),
            validation_code_hash: hash(n + 5),
        },
        commitments_hash: hash(n + 6),
    }
}

fn committed(r: CandidateReceipt) -> CommittedCandidateReceipt {
    CommittedCandidateReceipt { receipt: r, commitments: Arc::new(vec![1]) }
}

fn groups() -> Vec<Vec<ValidatorIndex>> {
    vec![
        vec![ValidatorIndex(0), ValidatorIndex(1)],
        vec![ValidatorIndex(2), ValidatorIndex(3)],
        vec![ValidatorIndex(4), ValidatorIndex(1)],
    ]
}

fn scheduled(para: u32) -> CoreState {
    CoreState::Scheduled(ScheduledCore { para_id: ParaId(para), collator: None })
}

fn runtime(cores: Vec<CoreState>, info: GroupRotationInfo) -> RuntimeAnswers {
    RuntimeAnswers {
        validators: Some(vec![key(100), key(101), key(102), key(103), key(104)]),
        groups: Some((groups(), info)),
        session_index: Some(3),
        cores: Some(cores),
    }
}

fn still() -> GroupRotationInfo {
    GroupRotationInfo { session_start_block: 0, group_rotation_frequency: 0, now: 50 }
}

fn us(index: u32) -> LocalIdentity {
    LocalIdentity::Validator(LocalValidator {
        index: ValidatorIndex(index),
        key: key(100 + index as u128),
    })
}

fn activate(state: &mut State, leaf: H256, ancestors: Option<Vec<H256>>) -> Vec<H256> {
    let mode = if ancestors.is_some() {
        ProspectiveParachainsMode::Enabled
    } else {
        ProspectiveParachainsMode::Disabled
    };
    let update = ActiveLeavesUpdate {
        activated: Some(ActivatedLeaf { hash: leaf, mode, ancestors }),
        deactivated: Vec::new(),
    };
    let pending = handle_active_leaves_update(state, update).expect("the leaf is new");
    let fresh = finish_leaf_activation(state, pending, &Vec::new());
    for rp in fresh.iter() {
        let per = construct_per_relay_parent_state(
            *rp,
            runtime(vec![scheduled(1), scheduled(2)], still()),
            us(0),
        )
        .expect("built");
        insert_relay_parent(state, *rp, per);
    }
    fresh
}

fn deactivate(state: &mut State, leaf: H256) {
    let update = ActiveLeavesUpdate { activated: None, deactivated: vec![leaf] };
    assert!(handle_active_leaves_update(state, update).is_none());
}

fn peer_seconds(state: &mut State, relay_parent: H256, n: u128) -> CandidateHash {
    let c = receipt(n, 2, relay_parent);
    let actions = handle_statement_message(
        state,
        relay_parent,
        SignedFullStatement {
            payload: Statement::Seconded(committed(c)),
            validator_index: ValidatorIndex(2),
            signature: sig(n),
        },
    );
    assert!(!actions.is_empty());
    c.hash
}

fn relay_parents(state: &State) -> usize {
    state.per_relay_parent.len()
}

#[test]
fn groups_rotate_over_the_cores() {
    let info = GroupRotationInfo { session_start_block: 10, group_rotation_frequency: 5, now: 27 };
    // 17 blocks since the start make 3 rotations
    assert_eq!(info.group_for_core(CoreIndex(0), 3), GroupIndex(0));
    assert_eq!(info.group_for_core(CoreIndex(1), 3), GroupIndex(1));
    assert_eq!(info.group_for_core(CoreIndex(1), 4), GroupIndex(0));
    assert_eq!(info.group_for_core(CoreIndex(2), 5), GroupIndex(0));
    assert_eq!(info.group_for_core(CoreIndex(0), 5), GroupIndex(3));
    // no cores
    assert_eq!(info.group_for_core(CoreIndex(2), 0), GroupIndex(0));
    // before the session started nothing has rotated
    let early = GroupRotationInfo { session_start_block: 10, group_rotation_frequency: 5, now: 3 };
    assert_eq!(early.group_for_core(CoreIndex(2), 5), GroupIndex(2));
    // groups that do not rotate serve the core of their own index
    assert_eq!(still().group_for_core(CoreIndex(7), 3), GroupIndex(7));
    let late = GroupRotationInfo {
        session_start_block: 0,
        group_rotation_frequency: 1,
        now: u32::MAX,
    };
    assert_eq!(late.group_for_core(CoreIndex(u32::MAX), 7), GroupIndex(((2 * (u32::MAX as u64)) % 7) as u32));
}

#[test]
fn the_first_core_of_the_own_group_gives_the_assignment() {
    // validator 1 is in the groups 0 and 2
    let per = construct_per_relay_parent_state(
        hash(1),
        runtime(vec![scheduled(10), scheduled(20), scheduled(30)], still()),
        us(1),
    )
    .expect("built");
    assert_eq!(per.assignment, Some(ParaId(10)));
    assert_eq!(per.table_context.group(&ParaId(30)), Some(&vec![ValidatorIndex(4), ValidatorIndex(1)]));

    // occupied and free cores give no assignment
    let per = construct_per_relay_parent_state(
        hash(1),
        runtime(vec![CoreState::Occupied, CoreState::Free, scheduled(30)], still()),
        us(1),
    )
    .expect("built");
    assert_eq!(per.assignment, Some(ParaId(30)));
    assert!(per.table_context.group(&ParaId(10)).is_none());

    // one rotation moves group 1 to core 0
    let turned = GroupRotationInfo { session_start_block: 0, group_rotation_frequency: 10, now: 10 };
    let per = construct_per_relay_parent_state(
        hash(1),
        runtime(vec![scheduled(10), scheduled(20), scheduled(30)], turned),
        us(2),
    )
    .expect("built");
    assert_eq!(per.assignment, Some(ParaId(10)));
    assert_eq!(per.table_context.group(&ParaId(10)), Some(&vec![ValidatorIndex(2), ValidatorIndex(3)]));
    assert_eq!(per.table_context.group(&ParaId(30)), Some(&vec![ValidatorIndex(0), ValidatorIndex(1)]));

    // a core without a group is left out
    let per = construct_per_relay_parent_state(
        hash(1),
        runtime(vec![scheduled(10), scheduled(20), scheduled(30), scheduled(40)], still()),
        us(3),
    )
    .expect("built");
    assert_eq!(per.assignment, Some(ParaId(20)));
    assert!(per.table_context.group(&ParaId(40)).is_none());
}

#[test]
fn a_node_that_is_no_validator_has_no_assignment() {
    let per = construct_per_relay_parent_state(
        hash(1),
        runtime(vec![scheduled(10), scheduled(20)], still()),
        LocalIdentity::NotAValidator,
    )
    .expect("built");
    assert_eq!(per.assignment, None);
    assert!(per.table_context.validator.is_none());
    assert_eq!(per.table_context.validators.len(), 5);
    assert_eq!(per.backed.len(), 0);
    assert_eq!(per.issued_statements.len(), 0);
    assert_eq!(per.awaiting_validation.len(), 0);
    assert_eq!(per.fallbacks.len(), 0);
}

#[test]
fn a_failed_request_leaves_the_relay_parent_out() {
    let cores = || vec![scheduled(10)];
    let mut answers = runtime(cores(), still());
    answers.validators = None;
    assert!(construct_per_relay_parent_state(hash(1), answers, us(0)).is_none());
    let mut answers = runtime(cores(), still());
    answers.groups = None;
    assert!(construct_per_relay_parent_state(hash(1), answers, us(0)).is_none());
    let mut answers = runtime(cores(), still());
    answers.session_index = None;
    assert!(construct_per_relay_parent_state(hash(1), answers, us(0)).is_none());
    let mut answers = runtime(cores(), still());
    answers.cores = None;
    assert!(construct_per_relay_parent_state(hash(1), answers, us(0)).is_none());
    assert!(construct_per_relay_parent_state(
        hash(1),
        runtime(cores(), still()),
        LocalIdentity::Unavailable
    )
    .is_none());
}

#[test]
fn the_implicit_view_allows_the_ancestors_of_its_leaves() {
    let mut view = ImplicitView::new();
    assert!(!view.is_allowed(&hash(1)));
    assert!(view.activate_leaf(hash(1), vec![hash(2), hash(3)]));
    assert!(!view.activate_leaf(hash(1), vec![hash(9)]));
    assert!(view.activate_leaf(hash(4), vec![hash(3)]));
    assert_eq!(
        view.known_allowed_relay_parents_under(&hash(1)),
        Some(&vec![hash(1), hash(2), hash(3)])
    );
    assert!(view.known_allowed_relay_parents_under(&hash(2)).is_none());
    for allowed in [1, 2, 3, 4] {
        assert!(view.is_allowed(&hash(allowed)));
    }
    assert!(!view.is_allowed(&hash(9)));
    view.deactivate_leaf(hash(1));
    assert!(!view.is_allowed(&hash(1)));
    assert!(!view.is_allowed(&hash(2)));
    assert!(view.is_allowed(&hash(3)));
    view.deactivate_leaf(hash(4));
    assert!(!view.is_allowed(&hash(3)));
}

#[test]
fn a_shared_relay_parent_lives_as_long_as_a_leaf_allows_it() {
    let (l1, l2, r) = (hash(1), hash(2), hash(3));
    let mut state = State::new();
    assert_eq!(activate(&mut state, l1, Some(vec![r])), vec![l1, r]);
    assert_eq!(activate(&mut state, l2, Some(vec![r])), vec![l2]);
    assert_eq!(relay_parents(&state), 3);
    let at_r = peer_seconds(&mut state, r, 10);
    let at_l1 = peer_seconds(&mut state, l1, 20);
    assert_eq!(state.per_candidate.get(&at_r).expect("kept").relay_parent, r);

    deactivate(&mut state, l1);
    assert!(!state.per_relay_parent.contains_key(&l1));
    assert!(state.per_relay_parent.contains_key(&r));
    assert!(state.per_relay_parent.contains_key(&l2));
    assert!(state.per_candidate.contains_key(&at_r));
    assert!(!state.per_candidate.contains_key(&at_l1));
    assert!(!state.per_leaf.contains_key(&l1));

    deactivate(&mut state, l2);
    assert_eq!(relay_parents(&state), 0);
    assert_eq!(state.per_candidate.len(), 0);
    assert_eq!(state.per_leaf.len(), 0);
}

#[test]
fn activating_and_deactivating_a_leaf_restores_the_state() {
    let mut state = State::new();
    activate(&mut state, hash(1), Some(vec![hash(3)]));
    let kept = peer_seconds(&mut state, hash(3), 10);
    let before: Vec<H256> = (0..state.per_relay_parent.len())
        .map(|i| state.per_relay_parent.key_at(i))
        .collect();

    assert_eq!(activate(&mut state, hash(5), Some(vec![hash(6), hash(7)])).len(), 3);
    assert_eq!(relay_parents(&state), 5);
    deactivate(&mut state, hash(5));

    assert_eq!(relay_parents(&state), before.len());
    for rp in before {
        assert!(state.per_relay_parent.contains_key(&rp));
    }
    assert_eq!(state.per_candidate.len(), 1);
    assert!(state.per_candidate.contains_key(&kept));
    assert!(state
        .per_relay_parent
        .get(&hash(3))
        .expect("kept")
        .table
        .get_candidate(&kept)
        .is_some());

    // the same with a leaf that allows nothing but itself
    assert_eq!(activate(&mut state, hash(8), None), vec![hash(8)]);
    deactivate(&mut state, hash(8));
    assert_eq!(relay_parents(&state), 2);
    assert_eq!(state.per_candidate.len(), 1);
}

#[test]
fn every_candidate_is_anchored_at_a_kept_relay_parent() {
    let mut state = State::new();
    activate(&mut state, hash(1), Some(vec![hash(2)]));
    activate(&mut state, hash(3), None);
    peer_seconds(&mut state, hash(1), 10);
    peer_seconds(&mut state, hash(2), 20);
    peer_seconds(&mut state, hash(3), 30);
    let anchored = |state: &State| {
        (0..state.per_candidate.len()).all(|i| {
            state.per_relay_parent.contains_key(&state.per_candidate.value_at(i).relay_parent)
        })
    };
    assert_eq!(state.per_candidate.len(), 3);
    assert!(anchored(&state));
    deactivate(&mut state, hash(3));
    assert_eq!(state.per_candidate.len(), 2);
    assert!(anchored(&state));
    deactivate(&mut state, hash(1));
    assert_eq!(state.per_candidate.len(), 0);
    assert!(anchored(&state));
}

#[test]
fn a_leaf_that_is_active_already_is_not_activated_again() {
    let mut state = State::new();
    activate(&mut state, hash(1), None);
    let update = ActiveLeavesUpdate {
        activated: Some(ActivatedLeaf {
            hash: hash(1),
            mode: ProspectiveParachainsMode::Disabled,
            ancestors: None,
        }),
        deactivated: Vec::new(),
    };
    assert!(handle_active_leaves_update(&mut state, update).is_none());
    assert_eq!(relay_parents(&state), 1);

    // a leaf whose ancestors could not be fetched is left alone
    let update = ActiveLeavesUpdate {
        activated: Some(ActivatedLeaf {
            hash: hash(2),
            mode: ProspectiveParachainsMode::Enabled,
            ancestors: None,
        }),
        deactivated: Vec::new(),
    };
    assert!(handle_active_leaves_update(&mut state, update).is_none());
    assert!(!state.per_leaf.contains_key(&hash(2)));
}

#[test]
fn a_new_leaf_learns_where_the_seconded_candidates_stand() {
    let mut state = State::new();
    activate(&mut state, hash(1), Some(vec![hash(2)]));
    // this node seconds a candidate on the ancestor
    let candidate = receipt(10, 1, hash(2));
    let done = handle_validated_candidate_command(
        &mut state,
        hash(2),
        ValidatedCandidateCommand::Second(Ok(Validated {
            candidate,
            commitments: CandidateCommitments { body: Arc::new(vec![1]) },
            pov: PoV { block_data: Arc::new(vec![2]) },
        })),
        Some(sig(5)),
        &vec![(hash(1), vec![0])],
    )
    .expect("accepted");
    assert_eq!(done.len(), 3);
    peer_seconds(&mut state, hash(2), 20);

    let update = ActiveLeavesUpdate {
        activated: Some(ActivatedLeaf {
            hash: hash(3),
            mode: ProspectiveParachainsMode::Enabled,
            ancestors: Some(vec![hash(1), hash(2)]),
        }),
        deactivated: Vec::new(),
    };
    let pending = handle_active_leaves_update(&mut state, update).expect("the leaf is new");
    assert_eq!(pending.membership_queries, vec![(candidate.hash, ParaId(1))]);
    let answers = vec![(
        candidate.hash,
        vec![(hash(1), vec![0]), (hash(3), vec![1, 2])],
    )];
    let fresh = finish_leaf_activation(&mut state, pending, &answers);
    assert_eq!(fresh, vec![hash(3)]);
    let leaf = state.per_leaf.get(&hash(3)).expect("active");
    assert!(leaf.prospective_parachains_mode.is_enabled());
    assert_eq!(leaf.seconded_at_depth.len(), 2);
    assert_eq!(leaf.seconded_at_depth.get(&1), Some(&candidate.hash));
    assert_eq!(leaf.seconded_at_depth.get(&2), Some(&candidate.hash));
    assert_eq!(leaf.seconded_at_depth.get(&0), None);
}
