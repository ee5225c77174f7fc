use grainlify_core::{Address, MultiSig, MultiSigConfig, MultiSigError, MultiSigEvent, ProposalAction};

struct Setup {
    signer_a: Address,
    signer_b: Address,
    signer_c: Address,
}

fn setup() -> Setup {
    Setup {
        signer_a: Address::from_strkey("GAQJ2UMDUNIFOIGQ7YTMLRXEF7JPYFTQDMSTH6HTBF47FQ2LGDKD3ZSV"),
        signer_b: Address::from_strkey("GBHVW4SGVNJ4UM7JAVMBFF6ZELRBQH6P4JYRPAC5DKEQLXZQAK2EZGXH"),
        signer_c: Address::from_strkey("GCJ6UWEF2CKNB5VXKKKPBVNOJXBJ5RCTDR6KVSS7CJBGQZ4ZTJUDUD4E"),
    }
}

fn other_address() -> Address {
    Address::from_strkey("CDLZFC3SYJYDZT7K67VZ75HPJVIEUVNIXF47ZG2FB2RMQQVU2HHGCYSC")
}

fn signers(signer_a: &Address, signer_b: &Address) -> Vec<Address> {
    vec![signer_a.clone(), signer_b.clone()]
}

fn hash(byte: u8) -> [u8; 32] {
    [byte; 32]
}

fn addr_vec(addrs: &[&Address]) -> Vec<Address> {
    let mut v = Vec::new();
    for a in addrs {
        v.push((*a).clone());
    }
    v
}

/// Propose `action` and approve it to the (2-of-2) threshold, returning the
/// new proposal id.
fn propose_and_approve(ms: &mut MultiSig, setup: &Setup, action: ProposalAction) -> u64 {
    let proposal_id = ms.propose(setup.signer_a.clone(), action).unwrap();
    ms.approve(proposal_id, setup.signer_a.clone()).unwrap();
    ms.approve(proposal_id, setup.signer_b.clone()).unwrap();
    proposal_id
}

#[test]
fn execute_runs_bound_action_and_marks_proposal_once() {
    let setup = setup();
    let action = ProposalAction::Upgrade(hash(7));

    let mut ms = MultiSig::init(signers(&setup.signer_a, &setup.signer_b), 2).unwrap();
    let proposal_id = ms.propose(setup.signer_a.clone(), action).unwrap();

    ms.approve(proposal_id, setup.signer_a.clone()).unwrap();
    assert!(!ms.can_execute(proposal_id).unwrap());

    ms.approve(proposal_id, setup.signer_b.clone()).unwrap();
    assert!(ms.can_execute(proposal_id).unwrap());

    let mut did_run = false;
    ms.execute(proposal_id, action, 0, || {
        did_run = true;
    })
    .unwrap();

    let proposal = ms.get_proposal(proposal_id).unwrap();
    assert!(did_run);
    assert!(proposal.executed);
    assert_eq!(proposal.executed_nonce, Some(0));
    assert_eq!(ms.nonce(), 1);
    assert!(!ms.can_execute(proposal_id).unwrap());
}

#[test]
#[should_panic(expected = "ThresholdNotMet")]
fn execute_rejects_below_threshold() {
    let setup = setup();
    let action = ProposalAction::Upgrade(hash(8));

    let mut ms = MultiSig::init(signers(&setup.signer_a, &setup.signer_b), 2).unwrap();
    let proposal_id = ms.propose(setup.signer_a.clone(), action).unwrap();
    ms.approve(proposal_id, setup.signer_a.clone()).unwrap();
    ms.execute(proposal_id, action, 0, || {}).unwrap();
}

#[test]
#[should_panic(expected = "ActionMismatch")]
fn execute_rejects_mismatched_payload() {
    let setup = setup();
    let stored_action = ProposalAction::Upgrade(hash(9));
    let wrong_action = ProposalAction::Upgrade(hash(10));

    let mut ms = MultiSig::init(signers(&setup.signer_a, &setup.signer_b), 2).unwrap();
    let proposal_id = ms.propose(setup.signer_a.clone(), stored_action).unwrap();
    ms.approve(proposal_id, setup.signer_a.clone()).unwrap();
    ms.approve(proposal_id, setup.signer_b.clone()).unwrap();
    ms.execute(proposal_id, wrong_action, 0, || {}).unwrap();
}

#[test]
#[should_panic(expected = "AlreadyExecuted")]
fn second_execute_is_rejected() {
    let setup = setup();
    let action = ProposalAction::Upgrade(hash(13));

    let mut ms = MultiSig::init(signers(&setup.signer_a, &setup.signer_b), 2).unwrap();
    let proposal_id = ms.propose(setup.signer_a.clone(), action).unwrap();
    ms.approve(proposal_id, setup.signer_a.clone()).unwrap();
    ms.approve(proposal_id, setup.signer_b.clone()).unwrap();
    ms.execute(proposal_id, action, 0, || {}).unwrap();
    ms.execute(proposal_id, action, 0, || {}).unwrap();
}

#[test]
#[should_panic(expected = "AlreadyExecuted")]
fn approve_after_execute_is_rejected() {
    let setup = setup();
    let action = ProposalAction::Upgrade(hash(11));

    let mut ms = MultiSig::init(signers(&setup.signer_a, &setup.signer_b), 2).unwrap();
    let proposal_id = ms.propose(setup.signer_a.clone(), action).unwrap();
    ms.approve(proposal_id, setup.signer_a.clone()).unwrap();
    ms.approve(proposal_id, setup.signer_b.clone()).unwrap();
    ms.execute(proposal_id, action, 0, || {}).unwrap();
    ms.approve(proposal_id, setup.signer_a.clone()).unwrap();
}

/// Initialising with threshold=0 must be rejected with InvalidThreshold,
/// regardless of the signer count.
#[test]
#[should_panic(expected = "InvalidThreshold")]
fn zero_threshold_is_rejected() {
    let setup = setup();
    MultiSig::init(signers(&setup.signer_a, &setup.signer_b), 0).unwrap();
}

/// threshold > signers.len() is also an invalid configuration.
#[test]
#[should_panic(expected = "InvalidThreshold")]
fn threshold_exceeding_signer_count_is_rejected() {
    let setup = setup();
    MultiSig::init(signers(&setup.signer_a, &setup.signer_b), 3).unwrap();
}

/// A 1-of-3 configuration must become executable as soon as ONE signer
/// approves.
#[test]
fn one_of_n_single_approval_suffices() {
    let setup = setup();
    let action = ProposalAction::Upgrade(hash(20));

    let three_signers = addr_vec(&[&setup.signer_a, &setup.signer_b, &setup.signer_c]);
    let mut ms = MultiSig::init(three_signers, 1).unwrap();
    let proposal_id = ms.propose(setup.signer_a.clone(), action).unwrap();

    assert!(!ms.can_execute(proposal_id).unwrap());

    ms.approve(proposal_id, setup.signer_b.clone()).unwrap();
    assert!(
        ms.can_execute(proposal_id).unwrap(),
        "1-of-3: should be executable after a single approval"
    );

    let mut ran = false;
    ms.execute(proposal_id, action, 0, || {
        ran = true;
    })
    .unwrap();
    assert!(ran, "action closure must have been called");
}

/// A 3-of-3 configuration must NOT be executable until every signer has
/// approved.
#[test]
fn n_of_n_requires_all_signers() {
    let setup = setup();
    let action = ProposalAction::Upgrade(hash(21));

    let three_signers = addr_vec(&[&setup.signer_a, &setup.signer_b, &setup.signer_c]);
    let mut ms = MultiSig::init(three_signers, 3).unwrap();
    let proposal_id = ms.propose(setup.signer_a.clone(), action).unwrap();

    ms.approve(proposal_id, setup.signer_a.clone()).unwrap();
    assert!(!ms.can_execute(proposal_id).unwrap());

    ms.approve(proposal_id, setup.signer_b.clone()).unwrap();
    assert!(!ms.can_execute(proposal_id).unwrap());

    ms.approve(proposal_id, setup.signer_c.clone()).unwrap();
    assert!(
        ms.can_execute(proposal_id).unwrap(),
        "3-of-3: should be executable only after all signers approve"
    );

    ms.execute(proposal_id, action, 0, || {}).unwrap();
    let proposal = ms.get_proposal(proposal_id).unwrap();
    assert!(proposal.executed);
}

/// With a 2-of-3 config, reaching exactly 2 approvals (= threshold) must
/// make the proposal executable.
#[test]
fn exactly_at_threshold_is_executable() {
    let setup = setup();
    let action = ProposalAction::Upgrade(hash(22));

    let three_signers = addr_vec(&[&setup.signer_a, &setup.signer_b, &setup.signer_c]);
    let mut ms = MultiSig::init(three_signers, 2).unwrap();
    let proposal_id = ms.propose(setup.signer_a.clone(), action).unwrap();

    ms.approve(proposal_id, setup.signer_a.clone()).unwrap();
    assert!(!ms.can_execute(proposal_id).unwrap());

    ms.approve(proposal_id, setup.signer_b.clone()).unwrap();
    assert!(
        ms.can_execute(proposal_id).unwrap(),
        "exactly-at-threshold (2-of-3): must be executable"
    );

    ms.execute(proposal_id, action, 0, || {}).unwrap();
}

/// With a 3-of-3 config, having only 2 approvals must be rejected when
/// execute is called.
#[test]
#[should_panic(expected = "ThresholdNotMet")]
fn one_short_of_threshold_is_not_executable() {
    let setup = setup();
    let action = ProposalAction::Upgrade(hash(23));

    let three_signers = addr_vec(&[&setup.signer_a, &setup.signer_b, &setup.signer_c]);
    let mut ms = MultiSig::init(three_signers, 3).unwrap();
    let proposal_id = ms.propose(setup.signer_a.clone(), action).unwrap();

    ms.approve(proposal_id, setup.signer_a.clone()).unwrap();
    ms.approve(proposal_id, setup.signer_b.clone()).unwrap();

    ms.execute(proposal_id, action, 0, || {}).unwrap();
}

#[test]
fn signer_and_threshold_snapshot_prevents_retroactive_validation() {
    let setup = setup();
    let action = ProposalAction::Upgrade(hash(12));

    let mut ms = MultiSig::init(signers(&setup.signer_a, &setup.signer_b), 2).unwrap();
    let proposal_id = ms.propose(setup.signer_a.clone(), action).unwrap();
    ms.approve(proposal_id, setup.signer_a.clone()).unwrap();

    ms.config = MultiSigConfig {
        signers: vec![setup.signer_a.clone(), setup.signer_c.clone()],
        threshold: 1,
    };

    assert!(!ms.can_execute(proposal_id).unwrap());

    let proposal = ms.get_proposal(proposal_id).unwrap();
    assert_eq!(proposal.threshold, 2);
    assert!(proposal.signers.contains(&setup.signer_b));
    assert!(!proposal.signers.contains(&setup.signer_c));
}

#[test]
fn nonce_starts_at_zero_and_increments_per_execution() {
    let setup = setup();

    let mut ms = MultiSig::init(signers(&setup.signer_a, &setup.signer_b), 2).unwrap();
    assert_eq!(ms.nonce(), 0);

    let action_one = ProposalAction::Upgrade(hash(20));
    let first = propose_and_approve(&mut ms, &setup, action_one);
    ms.execute(first, action_one, 0, || {}).unwrap();
    assert_eq!(ms.nonce(), 1);
    assert_eq!(ms.get_proposal(first).unwrap().executed_nonce, Some(0));

    let action_two = ProposalAction::Upgrade(hash(21));
    let second = propose_and_approve(&mut ms, &setup, action_two);
    ms.execute(second, action_two, 1, || {}).unwrap();
    assert_eq!(ms.nonce(), 2);
    assert_eq!(ms.get_proposal(second).unwrap().executed_nonce, Some(1));
}

#[test]
#[should_panic(expected = "NonceMismatch")]
fn execute_rejects_wrong_nonce() {
    let setup = setup();

    let mut ms = MultiSig::init(signers(&setup.signer_a, &setup.signer_b), 2).unwrap();
    let action = ProposalAction::Upgrade(hash(22));
    let proposal_id = propose_and_approve(&mut ms, &setup, action);

    // Threshold and payload are satisfied, but the supplied nonce (1) does
    // not match the expected next nonce (0).
    ms.execute(proposal_id, action, 1, || {}).unwrap();
}

#[test]
#[should_panic(expected = "NonceMismatch")]
fn replayed_signatures_and_nonce_are_rejected() {
    let setup = setup();

    let mut ms = MultiSig::init(signers(&setup.signer_a, &setup.signer_b), 2).unwrap();
    let action = ProposalAction::Upgrade(hash(23));
    let first = propose_and_approve(&mut ms, &setup, action);
    let mut effects = 0u32;
    ms.execute(first, action, 0, || effects += 1).unwrap();
    assert_eq!(effects, 1);

    let replay = propose_and_approve(&mut ms, &setup, action);
    ms.execute(replay, action, 0, || effects += 1).unwrap();
}

#[test]
fn rejected_replay_leaves_state_untouched() {
    let setup = setup();

    let mut ms = MultiSig::init(signers(&setup.signer_a, &setup.signer_b), 2).unwrap();
    let action = ProposalAction::Upgrade(hash(24));
    let first = propose_and_approve(&mut ms, &setup, action);
    ms.execute(first, action, 0, || {}).unwrap();

    let replay = propose_and_approve(&mut ms, &setup, action);

    assert_eq!(ms.nonce(), 1);
    let proposal = ms.get_proposal(replay).unwrap();
    assert!(!proposal.executed);
    assert_eq!(proposal.executed_nonce, None);
}

/// Normal removal: 3 signers, threshold=2, remove one -> 2 signers remain.
#[test]
fn remove_signer_normal_above_threshold_succeeds() {
    let setup = setup();
    let three_signers = addr_vec(&[&setup.signer_a, &setup.signer_b, &setup.signer_c]);
    let mut ms = MultiSig::init(three_signers, 2).unwrap();

    ms.remove_signer(setup.signer_a.clone(), setup.signer_c.clone()).unwrap();

    let config = ms.get_config();
    assert_eq!(config.signers.len(), 2, "signer count should drop to 2 after removal");
    assert!(
        !config.signers.contains(&setup.signer_c),
        "removed signer must not appear in the config"
    );
    assert!(config.signers.contains(&setup.signer_a), "remaining signers must still be present");
    assert!(config.signers.contains(&setup.signer_b), "remaining signers must still be present");
}

/// Boundary case: removing exactly down to the threshold is allowed.
#[test]
fn remove_signer_boundary_exactly_at_threshold_is_allowed() {
    let setup = setup();
    let three_signers = addr_vec(&[&setup.signer_a, &setup.signer_b, &setup.signer_c]);
    let mut ms = MultiSig::init(three_signers, 2).unwrap();

    ms.remove_signer(setup.signer_a.clone(), setup.signer_c.clone()).unwrap();

    let config = ms.get_config();
    assert_eq!(
        config.signers.len() as u32,
        config.threshold,
        "after boundary removal, signer count must equal threshold exactly"
    );
}

/// Rejected removal: 2 signers, threshold=2.
#[test]
#[should_panic(expected = "RemovalWouldBreakThreshold")]
fn remove_signer_below_threshold_is_rejected() {
    let setup = setup();
    let mut ms = MultiSig::init(signers(&setup.signer_a, &setup.signer_b), 2).unwrap();
    ms.remove_signer(setup.signer_a.clone(), setup.signer_b.clone()).unwrap();
}

#[test]
fn test_add_signer_emits_event() {
    let setup = setup();
    let new_signer = other_address();

    let mut ms = MultiSig::init(signers(&setup.signer_a, &setup.signer_b), 2).unwrap();
    ms.add_signer(setup.signer_a.clone(), new_signer.clone()).unwrap();

    let config = ms.get_config();
    assert!(config.signers.contains(&new_signer));
    assert_eq!(config.signers.len(), 3);
    assert_eq!(config.threshold, 2);

    assert!(ms.events.len() > 0);
    assert!(matches!(
        ms.events.last(),
        Some(MultiSigEvent::SignerAdded { caller, signer, threshold: 2 })
            if *caller == setup.signer_a && *signer == new_signer
    ));
}

#[test]
fn test_rotate_signers_simultaneous_threshold_change() {
    let setup = setup();
    let new_signer = other_address();

    let mut ms = MultiSig::init(signers(&setup.signer_a, &setup.signer_b), 2).unwrap();
    let add_vec = vec![new_signer.clone()];
    let rm_vec = vec![setup.signer_b.clone()];

    ms.rotate_signers(setup.signer_a.clone(), add_vec, rm_vec, Some(1)).unwrap();

    let config = ms.get_config();
    assert!(config.signers.contains(&new_signer));
    assert!(!config.signers.contains(&setup.signer_b));
    assert_eq!(config.signers.len(), 2);
    assert_eq!(config.threshold, 1);

    assert!(ms.events.len() > 0);
}

#[test]
#[should_panic(expected = "RemovalWouldBreakThreshold")]
fn test_rotate_signers_rejected_no_events() {
    let setup = setup();
    let mut ms = MultiSig::init(signers(&setup.signer_a, &setup.signer_b), 2).unwrap();
    let add_vec = Vec::new();
    let rm_vec = vec![setup.signer_b.clone()];
    ms.rotate_signers(setup.signer_a.clone(), add_vec, rm_vec, None).unwrap();
}
