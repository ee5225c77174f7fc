use grainlify_core::types::same_hash;
use grainlify_core::{Address, MultiSig, MultiSigError, MultiSigEvent, ProposalAction};

fn addr(tag: &str) -> Address {
    Address::from_strkey(tag)
}

fn alice() -> Address {
    addr("GAQJ2UMDUNIFOIGQ7YTMLRXEF7JPYFTQDMSTH6HTBF47FQ2LGDKD3ZSV")
}

fn bob() -> Address {
    addr("GBHVW4SGVNJ4UM7JAVMBFF6ZELRBQH6P4JYRPAC5DKEQLXZQAK2EZGXH")
}

fn carol() -> Address {
    addr("GCJ6UWEF2CKNB5VXKKKPBVNOJXBJ5RCTDR6KVSS7CJBGQZ4ZTJUDUD4E")
}

fn dave() -> Address {
    addr("CDLZFC3SYJYDZT7K67VZ75HPJVIEUVNIXF47ZG2FB2RMQQVU2HHGCYSC")
}

fn upgrade(byte: u8) -> ProposalAction {
    ProposalAction::Upgrade([byte; 32])
}

fn two_of_two() -> MultiSig {
    MultiSig::init(vec![alice(), bob()], 2).unwrap()
}

#[test]
fn init_sets_up_an_empty_multisig() {
    let ms = MultiSig::init(vec![alice(), bob(), carol()], 2).unwrap();
    assert_eq!(ms.get_config().signers, vec![alice(), bob(), carol()]);
    assert_eq!(ms.get_config().threshold, 2);
    assert_eq!(ms.nonce(), 0);
    assert!(ms.proposals.is_empty());
    assert!(ms.events.is_empty());
}

#[test]
fn init_with_threshold_equal_to_signer_count_is_accepted() {
    let ms = MultiSig::init(vec![alice(), bob()], 2).unwrap();
    assert_eq!(ms.get_config().threshold, 2);
}

#[test]
fn init_refuses_zero_and_oversized_thresholds() {
    assert_eq!(MultiSig::init(vec![alice()], 0).err(), Some(MultiSigError::InvalidThreshold));
    assert_eq!(MultiSig::init(vec![alice()], 2).err(), Some(MultiSigError::InvalidThreshold));
    assert_eq!(MultiSig::init(Vec::new(), 1).err(), Some(MultiSigError::InvalidThreshold));
}

#[test]
fn proposal_ids_start_at_one_and_are_consecutive() {
    let mut ms = two_of_two();
    assert_eq!(ms.propose(alice(), upgrade(1)), Ok(1));
    assert_eq!(ms.propose(bob(), upgrade(2)), Ok(2));
    assert_eq!(ms.propose(alice(), upgrade(3)), Ok(3));
    assert_eq!(ms.get_action(2), Ok(upgrade(2)));
}

#[test]
fn propose_by_non_signer_is_refused_and_changes_nothing() {
    let mut ms = two_of_two();
    assert_eq!(ms.propose(carol(), upgrade(1)), Err(MultiSigError::NotSigner));
    assert!(ms.proposals.is_empty());
    assert!(ms.events.is_empty());
}

#[test]
fn propose_snapshots_signers_and_threshold_and_reports_events() {
    let mut ms = MultiSig::init(vec![alice(), bob(), carol()], 2).unwrap();
    let id = ms.propose(bob(), upgrade(5)).unwrap();
    let p = ms.get_proposal(id).unwrap();
    assert_eq!(p.signers, vec![alice(), bob(), carol()]);
    assert_eq!(p.threshold, 2);
    assert!(p.approvals.is_empty());
    assert!(!p.executed);
    assert_eq!(p.executed_nonce, None);
    assert_eq!(ms.events.len(), 2);
    assert!(matches!(ms.events[0], MultiSigEvent::Proposed { proposal_id: 1 }));
    assert!(matches!(
        &ms.events[1],
        MultiSigEvent::UpgradeProposed { proposal_id: 1, proposer, wasm_hash }
            if *proposer == bob() && *wasm_hash == [5u8; 32]
    ));
}

#[test]
fn approve_records_signer_and_reports_count() {
    let mut ms = MultiSig::init(vec![alice(), bob(), carol()], 3).unwrap();
    let id = ms.propose(alice(), upgrade(4)).unwrap();
    ms.approve(id, carol()).unwrap();
    ms.approve(id, alice()).unwrap();
    assert_eq!(ms.get_proposal(id).unwrap().approvals, vec![carol(), alice()]);
    assert!(matches!(
        &ms.events[5],
        MultiSigEvent::UpgradeApproved { proposal_id: 1, signer, approval_count: 2 }
            if *signer == alice()
    ));
    assert!(matches!(
        &ms.events[4],
        MultiSigEvent::Approved { proposal_id: 1, signer } if *signer == alice()
    ));
}

#[test]
fn approve_refusals_report_each_reason() {
    let mut ms = two_of_two();
    let id = ms.propose(alice(), upgrade(1)).unwrap();
    assert_eq!(ms.approve(7, alice()), Err(MultiSigError::ProposalNotFound));
    assert_eq!(ms.approve(0, alice()), Err(MultiSigError::ProposalNotFound));
    assert_eq!(ms.approve(id, carol()), Err(MultiSigError::NotSigner));
    ms.approve(id, alice()).unwrap();
    assert_eq!(ms.approve(id, alice()), Err(MultiSigError::AlreadyApproved));
    assert_eq!(ms.get_proposal(id).unwrap().approvals, vec![alice()]);
}

#[test]
fn signer_added_after_proposal_cannot_approve_it() {
    let mut ms = two_of_two();
    let id = ms.propose(alice(), upgrade(1)).unwrap();
    ms.add_signer(alice(), carol()).unwrap();
    assert_eq!(ms.approve(id, carol()), Err(MultiSigError::NotSigner));
}

#[test]
fn signer_removed_after_proposal_can_still_approve_it() {
    let mut ms = MultiSig::init(vec![alice(), bob(), carol()], 2).unwrap();
    let id = ms.propose(alice(), upgrade(1)).unwrap();
    ms.remove_signer(alice(), carol()).unwrap();
    assert_eq!(ms.approve(id, carol()), Ok(()));
}

#[test]
fn queries_on_missing_proposals_are_refused() {
    let ms = two_of_two();
    assert_eq!(ms.can_execute(1), Err(MultiSigError::ProposalNotFound));
    assert_eq!(ms.get_action(1), Err(MultiSigError::ProposalNotFound));
    assert!(ms.get_proposal(1).is_err());
}

#[test]
fn execute_on_missing_proposal_is_refused() {
    let mut ms = two_of_two();
    let mut ran = false;
    assert_eq!(
        ms.execute(3, upgrade(1), 0, || ran = true),
        Err(MultiSigError::ProposalNotFound)
    );
    assert!(!ran);
}

#[test]
fn execute_reports_consumed_nonce_and_proposal() {
    let mut ms = two_of_two();
    let id = ms.propose(alice(), upgrade(9)).unwrap();
    ms.approve(id, alice()).unwrap();
    ms.approve(id, bob()).unwrap();
    ms.execute(id, upgrade(9), 0, || {}).unwrap();
    assert!(matches!(
        ms.events.last(),
        Some(MultiSigEvent::Executed { proposal_id: 1, nonce: 0 })
    ));
    assert!(!ms.can_execute(id).unwrap());
}

#[test]
fn refused_execution_does_not_run_the_action_or_touch_state() {
    let mut ms = two_of_two();
    let id = ms.propose(alice(), upgrade(9)).unwrap();
    ms.approve(id, alice()).unwrap();
    let events_before = ms.events.len();
    let mut ran = false;
    assert_eq!(
        ms.execute(id, upgrade(9), 0, || ran = true),
        Err(MultiSigError::ThresholdNotMet)
    );
    assert!(!ran);
    assert_eq!(ms.nonce(), 0);
    assert_eq!(ms.events.len(), events_before);
    assert!(!ms.get_proposal(id).unwrap().executed);
}

#[test]
fn execution_checks_come_in_order() {
    let mut ms = two_of_two();
    let id = ms.propose(alice(), upgrade(9)).unwrap();
    // Payload mismatch is reported before the missing approvals.
    assert_eq!(ms.execute(id, upgrade(8), 5, || {}), Err(MultiSigError::ActionMismatch));
    // Missing approvals are reported before the wrong nonce.
    assert_eq!(ms.execute(id, upgrade(9), 5, || {}), Err(MultiSigError::ThresholdNotMet));
    ms.approve(id, alice()).unwrap();
    ms.approve(id, bob()).unwrap();
    assert_eq!(ms.execute(id, upgrade(9), 5, || {}), Err(MultiSigError::NonceMismatch));
    ms.execute(id, upgrade(9), 0, || {}).unwrap();
    // Once executed, that is reported before anything else.
    assert_eq!(ms.execute(id, upgrade(8), 7, || {}), Err(MultiSigError::AlreadyExecuted));
}

#[test]
fn consumed_nonce_cannot_drive_another_proposal() {
    let mut ms = two_of_two();
    let first = ms.propose(alice(), upgrade(1)).unwrap();
    let second = ms.propose(alice(), upgrade(2)).unwrap();
    for id in [first, second] {
        ms.approve(id, alice()).unwrap();
        ms.approve(id, bob()).unwrap();
    }
    ms.execute(first, upgrade(1), 0, || {}).unwrap();
    assert_eq!(ms.execute(second, upgrade(2), 0, || {}), Err(MultiSigError::NonceMismatch));
    ms.execute(second, upgrade(2), 1, || {}).unwrap();
    assert_eq!(ms.get_proposal(second).unwrap().executed_nonce, Some(1));
    assert_eq!(ms.nonce(), 2);
}

#[test]
fn config_changes_do_not_change_pending_proposals() {
    let mut ms = MultiSig::init(vec![alice(), bob(), carol()], 3).unwrap();
    let id = ms.propose(alice(), upgrade(1)).unwrap();
    ms.approve(id, alice()).unwrap();
    assert!(!ms.can_execute(id).unwrap());
    ms.rotate_signers(alice(), Vec::new(), vec![carol()], Some(1)).unwrap();
    assert!(!ms.can_execute(id).unwrap());
    assert_eq!(ms.get_proposal(id).unwrap().threshold, 3);
    ms.add_signer(alice(), dave()).unwrap();
    assert!(!ms.can_execute(id).unwrap());
}

#[test]
fn add_signer_refuses_existing_signer() {
    let mut ms = two_of_two();
    assert_eq!(ms.add_signer(alice(), bob()), Err(MultiSigError::AlreadySigner));
    assert_eq!(ms.get_config().signers, vec![alice(), bob()]);
    assert!(ms.events.is_empty());
}

#[test]
fn remove_signer_refuses_non_signer() {
    let mut ms = MultiSig::init(vec![alice(), bob(), carol()], 1).unwrap();
    assert_eq!(ms.remove_signer(alice(), dave()), Err(MultiSigError::NotSigner));
    assert_eq!(ms.get_config().signers.len(), 3);
}

#[test]
fn remove_signer_keeps_order_and_reports_event() {
    let mut ms = MultiSig::init(vec![alice(), bob(), carol()], 1).unwrap();
    ms.remove_signer(carol(), bob()).unwrap();
    assert_eq!(ms.get_config().signers, vec![alice(), carol()]);
    assert!(matches!(
        ms.events.last(),
        Some(MultiSigEvent::SignerRemoved { caller, signer, threshold: 1 })
            if *caller == carol() && *signer == bob()
    ));
}

#[test]
fn removal_drops_every_copy_of_a_repeated_signer() {
    // The set-up does not refuse repeated signers; removing one drops all of
    // its copies, although the guard counted only one.
    let mut ms = MultiSig::init(vec![alice(), alice(), bob()], 2).unwrap();
    ms.remove_signer(bob(), alice()).unwrap();
    assert_eq!(ms.get_config().signers, vec![bob()]);
    assert_eq!(ms.get_config().threshold, 2);
}

#[test]
fn rotate_reports_additions_then_removals() {
    let mut ms = MultiSig::init(vec![alice(), bob()], 1).unwrap();
    ms.rotate_signers(alice(), vec![carol(), dave()], vec![bob()], None).unwrap();
    assert_eq!(ms.get_config().signers, vec![alice(), carol(), dave()]);
    assert_eq!(ms.get_config().threshold, 1);
    assert_eq!(ms.events.len(), 3);
    assert!(matches!(
        &ms.events[0],
        MultiSigEvent::SignerAdded { signer, threshold: 1, .. } if *signer == carol()
    ));
    assert!(matches!(
        &ms.events[1],
        MultiSigEvent::SignerAdded { signer, threshold: 1, .. } if *signer == dave()
    ));
    assert!(matches!(
        &ms.events[2],
        MultiSigEvent::SignerRemoved { signer, threshold: 1, .. } if *signer == bob()
    ));
}

#[test]
fn rotate_with_only_a_threshold_reports_threshold_event() {
    let mut ms = MultiSig::init(vec![alice(), bob(), carol()], 2).unwrap();
    ms.rotate_signers(bob(), Vec::new(), Vec::new(), Some(3)).unwrap();
    assert_eq!(ms.get_config().threshold, 3);
    assert_eq!(ms.events.len(), 1);
    assert!(matches!(
        &ms.events[0],
        MultiSigEvent::ThresholdUpdated { caller, threshold: 3 } if *caller == bob()
    ));
}

#[test]
fn rotate_with_nothing_to_do_reports_nothing() {
    let mut ms = two_of_two();
    ms.rotate_signers(alice(), Vec::new(), Vec::new(), None).unwrap();
    assert!(ms.events.is_empty());
    assert_eq!(ms.get_config().signers, vec![alice(), bob()]);
}

#[test]
fn rotate_refusals_report_each_reason_and_change_nothing() {
    let mut ms = MultiSig::init(vec![alice(), bob(), carol()], 2).unwrap();
    assert_eq!(
        ms.rotate_signers(alice(), vec![dave()], vec![dave()], None),
        Err(MultiSigError::NotSigner)
    );
    assert_eq!(
        ms.rotate_signers(alice(), vec![bob()], Vec::new(), None),
        Err(MultiSigError::AlreadySigner)
    );
    assert_eq!(
        ms.rotate_signers(alice(), vec![dave(), dave()], Vec::new(), None),
        Err(MultiSigError::AlreadySigner)
    );
    assert_eq!(
        ms.rotate_signers(alice(), Vec::new(), Vec::new(), Some(0)),
        Err(MultiSigError::RemovalWouldBreakThreshold)
    );
    assert_eq!(
        ms.rotate_signers(alice(), Vec::new(), Vec::new(), Some(4)),
        Err(MultiSigError::RemovalWouldBreakThreshold)
    );
    assert_eq!(
        ms.rotate_signers(alice(), Vec::new(), vec![bob(), bob()], Some(1)),
        Err(MultiSigError::NotSigner)
    );
    assert_eq!(ms.get_config().signers, vec![alice(), bob(), carol()]);
    assert_eq!(ms.get_config().threshold, 2);
    assert!(ms.events.is_empty());
}

#[test]
fn rotate_can_remove_and_re_add_the_same_signer() {
    let mut ms = MultiSig::init(vec![alice(), bob()], 2).unwrap();
    ms.rotate_signers(alice(), vec![bob()], vec![bob()], None).unwrap();
    assert_eq!(ms.get_config().signers, vec![alice(), bob()]);
}

#[test]
fn address_keeps_its_strkey() {
    let a = alice();
    assert_eq!(a.strkey(), "GAQJ2UMDUNIFOIGQ7YTMLRXEF7JPYFTQDMSTH6HTBF47FQ2LGDKD3ZSV");
    assert!(a.same_as(&alice()));
    assert!(!a.same_as(&bob()));
    assert_eq!(a.clone().strkey(), a.strkey());
}

#[test]
fn actions_compare_by_payload() {
    assert!(upgrade(3).same_as(&upgrade(3)));
    assert!(!upgrade(3).same_as(&upgrade(4)));
    let mut h = [0u8; 32];
    h[31] = 1;
    assert!(!same_hash(&h, &[0u8; 32]));
    assert!(same_hash(&h, &h));
}

#[test]
fn replayed_execution_does_not_run_the_action_again() {
    let mut ms = two_of_two();
    let action = upgrade(23);
    let first = ms.propose(alice(), action).unwrap();
    ms.approve(first, alice()).unwrap();
    ms.approve(first, bob()).unwrap();
    let mut effects = 0u32;
    ms.execute(first, action, 0, || effects += 1).unwrap();
    assert_eq!(effects, 1);

    let replay = ms.propose(alice(), action).unwrap();
    ms.approve(replay, alice()).unwrap();
    ms.approve(replay, bob()).unwrap();
    assert_eq!(
        ms.execute(replay, action, 0, || effects += 1),
        Err(MultiSigError::NonceMismatch)
    );
    assert_eq!(effects, 1);
    assert_eq!(ms.nonce(), 1);
    assert!(!ms.get_proposal(replay).unwrap().executed);
    assert_eq!(ms.get_action(first), Ok(action));
}
