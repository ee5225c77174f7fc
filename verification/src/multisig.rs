use vstd::prelude::*;

use crate::address::{contains_address, copy_addresses, strkeys, without_address, Address};
use crate::model::{
    added_events, after_additions, after_removals, executable, init_outcome,
    lemma_additions_stay_refused, lemma_executed_count_bound, lemma_executed_count_push,
    lemma_executed_count_update, lemma_removals_stay_refused, removed_events, MultiSigView,
};
use crate::types::{
    event_views, proposal_views, EventView, MultiSigConfig, MultiSigError, MultiSigEvent, Proposal,
    ProposalAction, ProposalView,
};

verus! {

/// A multisig: its configuration, its proposals (the proposal with id `k` sits
/// at index `k - 1`), the next execution nonce and the events it has reported.
pub struct MultiSig {
    pub config: MultiSigConfig,
    pub proposals: Vec<Proposal>,
    pub execution_nonce: u64,
    pub events: Vec<MultiSigEvent>,
}

impl View for MultiSig {
    type V = MultiSigView;

    open spec fn view(&self) -> MultiSigView {
        MultiSigView {
            config: self.config@,
            proposals: proposal_views(self.proposals@),
            nonce: self.execution_nonce,
            events: event_views(self.events@),
        }
    }
}

/// Refuses `signer` unless it belongs to the configuration's signers.
pub fn assert_signer(config: &MultiSigConfig, signer: &Address) -> (r: Result<(), MultiSigError>)
    ensures
        r is Ok <==> config@.signers.contains(signer@),
        r is Err ==> r == Err::<(), MultiSigError>(MultiSigError::NotSigner),
{
    if !contains_address(&config.signers, signer) {
        return Err(MultiSigError::NotSigner);
    }
    Ok(())
}

/// Refuses `signer` unless it belongs to the proposal's signer snapshot.
pub fn assert_proposal_signer(proposal: &Proposal, signer: &Address) -> (r: Result<
    (),
    MultiSigError,
>)
    ensures
        r is Ok <==> proposal@.signers.contains(signer@),
        r is Err ==> r == Err::<(), MultiSigError>(MultiSigError::NotSigner),
{
    if !contains_address(&proposal.signers, signer) {
        return Err(MultiSigError::NotSigner);
    }
    Ok(())
}

impl MultiSig {
    /// Sets up a multisig with `signers`, of whom `threshold` must approve.
    pub fn init(signers: Vec<Address>, threshold: u32) -> (r: Result<MultiSig, MultiSigError>)
        ensures
            match init_outcome(strkeys(signers@), threshold) {
                Ok(s) => r matches Ok(ms) && ms@ == s,
                Err(e) => r matches Err(e2) && e2 == e,
            },
    {
        if threshold == 0 || threshold as usize > signers.len() {
            return Err(MultiSigError::InvalidThreshold);
        }
        let ms = MultiSig {
            config: MultiSigConfig { signers, threshold },
            proposals: Vec::new(),
            execution_nonce: 0,
            events: Vec::new(),
        };
        assert(ms@.proposals =~= Seq::empty());
        assert(ms@.events =~= Seq::empty());
        Ok(ms)
    }

    /// The configuration in force.
    pub fn get_config(&self) -> (config: &MultiSigConfig)
        ensures
            config@ == self@.config,
    {
        &self.config
    }

    /// The proposal with id `proposal_id`.
    pub fn get_proposal(&self, proposal_id: u64) -> (r: Result<&Proposal, MultiSigError>)
        ensures
            self@.has_proposal(proposal_id) ==> (r matches Ok(p) && p@ == self@.proposal(
                proposal_id,
            )),
            !self@.has_proposal(proposal_id) ==> (r matches Err(e) && e
                == MultiSigError::ProposalNotFound),
    {
        if proposal_id == 0 || proposal_id > self.proposals.len() as u64 {
            return Err(MultiSigError::ProposalNotFound);
        }
        Ok(&self.proposals[(proposal_id - 1) as usize])
    }

    /// Whether the proposal has gathered its threshold of approvals and has
    /// not run yet.
    pub fn can_execute(&self, proposal_id: u64) -> (r: Result<bool, MultiSigError>)
        ensures
            r == self@.can_execute_outcome(proposal_id),
    {
        let proposal = self.get_proposal(proposal_id)?;
        Ok(!proposal.executed && proposal.approvals.len() >= proposal.threshold as usize)
    }

    /// The next execution nonce the multisig will accept.
    ///
    /// Callers must pass this value as `expected_nonce` to [`Self::execute`].
    /// It increases by one after every successful execution, so a previously
    /// used `(signatures, nonce)` pair can never be replayed.
    pub fn nonce(&self) -> (n: u64)
        ensures
            n == self@.nonce,
    {
        self.execution_nonce
    }

    /// The action proposal `proposal_id` is bound to.
    pub fn get_action(&self, proposal_id: u64) -> (r: Result<ProposalAction, MultiSigError>)
        ensures
            self@.has_proposal(proposal_id) ==> r == Ok::<ProposalAction, MultiSigError>(
                self@.proposal(proposal_id).action,
            ),
            !self@.has_proposal(proposal_id) ==> r == Err::<ProposalAction, MultiSigError>(
                MultiSigError::ProposalNotFound,
            ),
    {
        let proposal = self.get_proposal(proposal_id)?;
        Ok(proposal.action)
    }

    /// Creates a proposal bound to `action`, snapshotting the signers and the
    /// threshold in force, and returns its id.
    pub fn propose(&mut self, proposer: Address, action: ProposalAction) -> (r: Result<
        u64,
        MultiSigError,
    >)
        requires
            old(self).proposals.len() < u64::MAX,
        ensures
            match old(self)@.propose_outcome(proposer@, action) {
                Ok(s) => r == Ok::<u64, MultiSigError>(old(self)@.next_id() as u64)
                    && final(self)@ == s,
                Err(e) => r == Err::<u64, MultiSigError>(e) && final(self)@ == old(self)@,
            },
            old(self)@.wf() ==> final(self)@.wf(),
    {
        assert_signer(&self.config, &proposer)?;
        let counter = self.proposals.len() as u64 + 1;
        let proposal = Proposal {
            action,
            approvals: Vec::new(),
            executed: false,
            signers: copy_addresses(&self.config.signers),
            threshold: self.config.threshold,
            executed_nonce: None,
        };
        let ghost old_view = self@;
        assert(proposal@.approvals =~= Seq::empty());
        self.proposals.push(proposal);
        let wasm_hash = match action {
            ProposalAction::Upgrade(h) => h,
        };
        let ghost proposer_key = proposer@;
        self.events.push(MultiSigEvent::Proposed { proposal_id: counter });
        self.events.push(
            MultiSigEvent::UpgradeProposed { proposal_id: counter, proposer, wasm_hash },
        );
        proof {
            let expected = old_view.propose_outcome(proposer_key, action)->Ok_0;
            assert(self@.proposals =~= expected.proposals);
            assert(self@.events =~= expected.events);
            lemma_executed_count_push(old_view.proposals, expected.proposals.last());
            if old_view.wf() {
                assert forall|i: int, j: int|
                    #![trigger self@.proposals[i], self@.proposals[j]]
                    0 <= i < self@.proposals.len() && 0 <= j < self@.proposals.len() && i != j
                        && self@.proposals[i].executed && self@.proposals[j].executed
                        implies self@.proposals[i].executed_nonce
                        != self@.proposals[j].executed_nonce by {
                    assert(i < old_view.proposals.len() && j < old_view.proposals.len());
                    assert(old_view.proposals[i] == self@.proposals[i]);
                    assert(old_view.proposals[j] == self@.proposals[j]);
                }
            }
        }
        Ok(counter)
    }

    /// Records `signer`'s approval of proposal `proposal_id`.
    pub fn approve(&mut self, proposal_id: u64, signer: Address) -> (r: Result<(), MultiSigError>)
        ensures
            match old(self)@.approve_outcome(proposal_id, signer@) {
                Ok(s) => r is Ok && final(self)@ == s,
                Err(e) => r == Err::<(), MultiSigError>(e) && final(self)@ == old(self)@,
            },
            old(self)@.wf() ==> final(self)@.wf(),
    {
        let proposal = self.get_proposal(proposal_id)?;
        assert_proposal_signer(proposal, &signer)?;
        if proposal.executed {
            return Err(MultiSigError::AlreadyExecuted);
        }
        if contains_address(&proposal.approvals, &signer) {
            return Err(MultiSigError::AlreadyApproved);
        }
        let count = self.proposals.len();
        assert(self@.has_proposal(proposal_id) && proposal_id <= count);
        let idx = (proposal_id - 1) as usize;
        let ghost old_view = self@;
        let ghost signer_key = signer@;
        self.proposals[idx].approvals.push(signer.clone());
        let approval_count = self.proposals[idx].approvals.len();
        self.events.push(MultiSigEvent::Approved { proposal_id, signer: signer.clone() });
        self.events.push(MultiSigEvent::UpgradeApproved { proposal_id, signer, approval_count });
        proof {
            let expected = old_view.approve_outcome(proposal_id, signer_key)->Ok_0;
            let p = old_view.proposals[idx as int];
            assert(self@.proposals[idx as int].approvals =~= p.approvals.push(signer_key));
            assert(self@.proposals[idx as int] == expected.proposals[idx as int]);
            assert forall|i: int| 0 <= i < self@.proposals.len() && i != idx implies self@.proposals[i]
                == expected.proposals[i] by {
                assert(self.proposals@[i] == old(self).proposals@[i]);
            }
            assert(self@.proposals =~= expected.proposals);
            assert(self@.events =~= expected.events);
            lemma_executed_count_update(old_view.proposals, idx as int, expected.proposals[idx as int]);
            if old_view.wf() {
                let q = self@.proposals[idx as int];
                assert forall|k: int| 0 <= k < q.approvals.len() implies q.signers.contains(
                    #[trigger] q.approvals[k],
                ) by {
                    if k < p.approvals.len() {
                        assert(q.approvals[k] == p.approvals[k]);
                    }
                }
                assert forall|i: int, j: int|
                    #![trigger self@.proposals[i], self@.proposals[j]]
                    0 <= i < self@.proposals.len() && 0 <= j < self@.proposals.len() && i != j
                        && self@.proposals[i].executed && self@.proposals[j].executed
                        implies self@.proposals[i].executed_nonce
                        != self@.proposals[j].executed_nonce by {
                    assert(old_view.proposals[i].executed_nonce == self@.proposals[i].executed_nonce);
                    assert(old_view.proposals[j].executed_nonce == self@.proposals[j].executed_nonce);
                    assert(old_view.proposals[i].executed == self@.proposals[i].executed);
                    assert(old_view.proposals[j].executed == self@.proposals[j].executed);
                }
            }
        }
        Ok(())
    }

    /// Runs `action` for proposal `proposal_id` and marks the proposal executed,
    /// consuming the execution nonce.
    ///
    /// The action runs only after the threshold, payload and nonce checks pass,
    /// and before the proposal is marked executed: the precondition of
    /// `action` is asked for only where every check passes, so a refused call
    /// cannot run it. `expected_nonce` must equal
    /// the current value returned by [`Self::nonce`]; on success the nonce is
    /// consumed and incremented, so the same nonce cannot drive a second
    /// execution.
    pub fn execute<F: FnOnce()>(
        &mut self,
        proposal_id: u64,
        expected_action: ProposalAction,
        expected_nonce: u64,
        action: F,
    ) -> (r: Result<(), MultiSigError>)
        requires
            old(self)@.execute_outcome(proposal_id, expected_action, expected_nonce) is Ok
                ==> call_requires(action, ()),
            old(self)@.nonce < u64::MAX || old(self)@.wf(),
        ensures
            match old(self)@.execute_outcome(proposal_id, expected_action, expected_nonce) {
                Ok(s) => r is Ok && final(self)@ == s,
                Err(e) => r == Err::<(), MultiSigError>(e) && final(self)@ == old(self)@,
            },
            r is Ok ==> call_ensures(action, (), ()),
            old(self)@.wf() ==> final(self)@.wf(),
    {
        let proposal = self.get_proposal(proposal_id)?;
        if proposal.executed {
            return Err(MultiSigError::AlreadyExecuted);
        }
        if !proposal.action.same_as(&expected_action) {
            return Err(MultiSigError::ActionMismatch);
        }
        if !self.can_execute(proposal_id)? {
            return Err(MultiSigError::ThresholdNotMet);
        }
        let current_nonce = self.nonce();
        if expected_nonce != current_nonce {
            return Err(MultiSigError::NonceMismatch);
        }
        let ghost old_view = self@;
        let count = self.proposals.len();
        proof {
            if old_view.nonce == u64::MAX {
                lemma_executed_count_bound(old_view.proposals);
                assert(!old_view.proposals[proposal_id - 1].executed);
                assert(old_view.nonce < count);
            }
        }
        action();
        self.mark_executed(proposal_id, current_nonce)?;
        self.execution_nonce = current_nonce + 1;
        proof {
            let expected = old_view.execute_outcome(proposal_id, expected_action, expected_nonce)->Ok_0;
            assert(self@.proposals =~= expected.proposals);
            assert(self@.events =~= expected.events);
            let i0 = proposal_id - 1;
            lemma_executed_count_update(old_view.proposals, i0, expected.proposals[i0]);
            if old_view.wf() {
                assert forall|i: int|
                    #![trigger self@.proposals[i]]
                    0 <= i < self@.proposals.len() implies {
                        let p = self@.proposals[i];
                        &&& p.approvals.no_duplicates()
                        &&& forall|k: int|
                            0 <= k < p.approvals.len() ==> p.signers.contains(
                                #[trigger] p.approvals[k],
                            )
                        &&& p.executed ==> p.approvals.len() >= p.threshold
                        &&& p.executed == (p.executed_nonce is Some)
                        &&& p.executed ==> p.executed_nonce.unwrap() < self@.nonce
                    } by {
                    let p = old_view.proposals[i];
                    if i != i0 {
                        assert(self@.proposals[i] == p);
                    }
                }
                assert forall|i: int, j: int|
                    #![trigger self@.proposals[i], self@.proposals[j]]
                    0 <= i < self@.proposals.len() && 0 <= j < self@.proposals.len() && i != j
                        && self@.proposals[i].executed && self@.proposals[j].executed
                        implies self@.proposals[i].executed_nonce
                        != self@.proposals[j].executed_nonce by {
                    if i != i0 && j != i0 {
                        assert(self@.proposals[i] == old_view.proposals[i]);
                        assert(self@.proposals[j] == old_view.proposals[j]);
                    } else if i == i0 {
                        assert(self@.proposals[j] == old_view.proposals[j]);
                    } else {
                        assert(self@.proposals[i] == old_view.proposals[i]);
                    }
                }
            }
        }
        Ok(())
    }

    /// Marks proposal `proposal_id` executed with `nonce`, provided it has not
    /// run yet and has gathered its threshold of approvals.
    fn mark_executed(&mut self, proposal_id: u64, nonce: u64) -> (r: Result<(), MultiSigError>)
        ensures
            !old(self)@.has_proposal(proposal_id) ==> r == Err::<(), MultiSigError>(
                MultiSigError::ProposalNotFound,
            ) && final(self)@ == old(self)@,
            old(self)@.has_proposal(proposal_id) && old(self)@.proposal(proposal_id).executed ==> r
                == Err::<(), MultiSigError>(MultiSigError::AlreadyExecuted) && final(self)@ == old(
                self,
            )@,
            old(self)@.has_proposal(proposal_id) && !old(self)@.proposal(proposal_id).executed
                && !executable(old(self)@.proposal(proposal_id)) ==> r == Err::<(), MultiSigError>(
                MultiSigError::ThresholdNotMet,
            ) && final(self)@ == old(self)@,
            old(self)@.has_proposal(proposal_id) && executable(old(self)@.proposal(proposal_id))
                ==> r is Ok && final(self)@ == (MultiSigView {
                proposals: old(self)@.proposals.update(
                    proposal_id - 1,
                    ProposalView {
                        executed: true,
                        executed_nonce: Some(nonce),
                        ..old(self)@.proposal(proposal_id)
                    },
                ),
                events: old(self)@.events.push(EventView::Executed { proposal_id, nonce }),
                ..old(self)@
            }),
    {
        let proposal = self.get_proposal(proposal_id)?;
        if proposal.executed {
            return Err(MultiSigError::AlreadyExecuted);
        }
        if !self.can_execute(proposal_id)? {
            return Err(MultiSigError::ThresholdNotMet);
        }
        let count = self.proposals.len();
        assert(proposal_id <= count);
        let idx = (proposal_id - 1) as usize;
        let ghost old_view = self@;
        self.proposals[idx].executed = true;
        self.proposals[idx].executed_nonce = Some(nonce);
        self.events.push(MultiSigEvent::Executed { proposal_id, nonce });
        proof {
            assert(self@.proposals[idx as int] == ProposalView {
                executed: true,
                executed_nonce: Some(nonce),
                ..old_view.proposal(proposal_id)
            });
            assert forall|i: int| 0 <= i < self@.proposals.len() && i != idx implies self@.proposals[i]
                == old_view.proposals[i] by {
                assert(self.proposals@[i] == old(self).proposals@[i]);
            }
            assert(self@.proposals =~= old_view.proposals.update(
                proposal_id - 1,
                ProposalView {
                    executed: true,
                    executed_nonce: Some(nonce),
                    ..old_view.proposal(proposal_id)
                },
            ));
            assert(self@.events =~= old_view.events.push(EventView::Executed { proposal_id, nonce }));
        }
        Ok(())
    }

    /// Removes `signer_to_remove` from the signers, unless that would leave
    /// fewer signers than the threshold.
    ///
    /// The removal is refused with [`MultiSigError::RemovalWouldBreakThreshold`]
    /// if `(current_signer_count - 1) < threshold`, and with
    /// [`MultiSigError::NotSigner`] if `signer_to_remove` is not a signer.
    pub fn remove_signer(&mut self, caller: Address, signer_to_remove: Address) -> (r: Result<
        (),
        MultiSigError,
    >)
        ensures
            match old(self)@.remove_signer_outcome(caller@, signer_to_remove@) {
                Ok(s) => r is Ok && final(self)@ == s,
                Err(e) => r == Err::<(), MultiSigError>(e) && final(self)@ == old(self)@,
            },
            old(self)@.wf() ==> final(self)@.wf(),
    {
        assert_signer(&self.config, &signer_to_remove)?;
        let ghost old_view = self@;
        assert(self.config.signers@.len() > 0);
        let remaining = self.config.signers.len() - 1;
        if remaining < self.config.threshold as usize {
            return Err(MultiSigError::RemovalWouldBreakThreshold);
        }
        let new_signers = without_address(&self.config.signers, &signer_to_remove);
        self.config.signers = new_signers;
        let threshold = self.config.threshold;
        let ghost caller_key = caller@;
        let ghost who = signer_to_remove@;
        self.events.push(MultiSigEvent::SignerRemoved { caller, signer: signer_to_remove, threshold });
        proof {
            let expected = old_view.remove_signer_outcome(caller_key, who)->Ok_0;
            assert(self@.events =~= expected.events);
            assert(self@.proposals =~= expected.proposals);
        }
        Ok(())
    }

    /// Adds `new_signer` to the signers.
    pub fn add_signer(&mut self, caller: Address, new_signer: Address) -> (r: Result<
        (),
        MultiSigError,
    >)
        ensures
            match old(self)@.add_signer_outcome(caller@, new_signer@) {
                Ok(s) => r is Ok && final(self)@ == s,
                Err(e) => r == Err::<(), MultiSigError>(e) && final(self)@ == old(self)@,
            },
            old(self)@.wf() ==> final(self)@.wf(),
    {
        if contains_address(&self.config.signers, &new_signer) {
            return Err(MultiSigError::AlreadySigner);
        }
        let ghost old_view = self@;
        let ghost caller_key = caller@;
        let ghost who = new_signer@;
        self.config.signers.push(new_signer.clone());
        let threshold = self.config.threshold;
        self.events.push(MultiSigEvent::SignerAdded { caller, signer: new_signer, threshold });
        proof {
            let expected = old_view.add_signer_outcome(caller_key, who)->Ok_0;
            assert(self@.config.signers =~= expected.config.signers);
            assert(self@.events =~= expected.events);
            assert(self@.proposals =~= expected.proposals);
        }
        Ok(())
    }

    /// Removes each of `remove`, then adds each of `add`, then sets the
    /// threshold to `new_threshold` where given; the result must keep a
    /// threshold between one and the number of signers.
    pub fn rotate_signers(
        &mut self,
        caller: Address,
        add: Vec<Address>,
        remove: Vec<Address>,
        new_threshold: Option<u32>,
    ) -> (r: Result<(), MultiSigError>)
        ensures
            match old(self)@.rotate_signers_outcome(
                caller@,
                strkeys(add@),
                strkeys(remove@),
                new_threshold,
            ) {
                Ok(s) => r is Ok && final(self)@ == s,
                Err(e) => r == Err::<(), MultiSigError>(e) && final(self)@ == old(self)@,
            },
            old(self)@.wf() ==> final(self)@.wf(),
    {
        let ghost old_view = self@;
        let ghost rem = strkeys(remove@);
        let ghost adds = strkeys(add@);
        let ghost caller_key = caller@;
        let mut signers = copy_addresses(&self.config.signers);
        let mut i: usize = 0;
        assert(rem.take(0) =~= Seq::<Seq<char>>::empty());
        while i < remove.len()
            invariant
                i <= remove.len(),
                rem == strkeys(remove@),
                adds == strkeys(add@),
                caller_key == caller@,
                self@ == old_view,
                after_removals(old_view.config.signers, rem.take(i as int)) == Some(
                    strkeys(signers@),
                ),
            decreases remove.len() - i,
        {
            assert(rem.take(i + 1).drop_last() =~= rem.take(i as int));
            assert(rem.take(i + 1).last() == remove@[i as int]@);
            if !contains_address(&signers, &remove[i]) {
                proof {
                    lemma_removals_stay_refused(old_view.config.signers, rem, i + 1);
                }
                return Err(MultiSigError::NotSigner);
            }
            signers = without_address(&signers, &remove[i]);
            i += 1;
        }
        assert(rem.take(i as int) =~= rem);
        let ghost kept = strkeys(signers@);
        let mut j: usize = 0;
        assert(adds.take(0) =~= Seq::<Seq<char>>::empty());
        while j < add.len()
            invariant
                j <= add.len(),
                adds == strkeys(add@),
                rem == strkeys(remove@),
                caller_key == caller@,
                self@ == old_view,
                after_removals(old_view.config.signers, rem) == Some(kept),
                after_additions(kept, adds.take(j as int)) == Some(strkeys(signers@)),
            decreases add.len() - j,
        {
            assert(adds.take(j + 1).drop_last() =~= adds.take(j as int));
            assert(adds.take(j + 1).last() == add@[j as int]@);
            if contains_address(&signers, &add[j]) {
                proof {
                    assert(after_additions(kept, adds.take(j + 1)) is None);
                    lemma_additions_stay_refused(kept, adds, j + 1);
                    assert(after_additions(kept, adds) is None);
                    assert(after_removals(old_view.config.signers, rem) == Some(kept));
                }
                return Err(MultiSigError::AlreadySigner);
            }
            let ghost before = signers@;
            signers.push(add[j].clone());
            assert(strkeys(signers@) =~= strkeys(before).push(add@[j as int]@));
            j += 1;
        }
        assert(adds.take(j as int) =~= adds);
        let threshold = match new_threshold {
            Some(t) => t,
            None => self.config.threshold,
        };
        if threshold == 0 || threshold as usize > signers.len() {
            return Err(MultiSigError::RemovalWouldBreakThreshold);
        }
        self.config = MultiSigConfig { signers, threshold };
        let mut k: usize = 0;
        while k < add.len()
            invariant
                k <= add.len(),
                adds == strkeys(add@),
                caller_key == caller@,
                self@.events == old_view.events + added_events(caller_key, adds, threshold).take(
                    k as int,
                ),
                self@.config == old_view.rotate_signers_outcome(
                    caller_key,
                    adds,
                    rem,
                    new_threshold,
                )->Ok_0.config,
                self@.proposals == old_view.proposals,
                self@.nonce == old_view.nonce,
            decreases add.len() - k,
        {
            let ghost before = self@.events;
            self.events.push(
                MultiSigEvent::SignerAdded { caller: caller.clone(), signer: add[k].clone(), threshold },
            );
            assert(added_events(caller_key, adds, threshold).take(k + 1) =~= added_events(
                caller_key,
                adds,
                threshold,
            ).take(k as int).push(added_events(caller_key, adds, threshold)[k as int]));
            assert(self@.events =~= before.push(added_events(caller_key, adds, threshold)[k as int]));
            k += 1;
        }
        assert(added_events(caller_key, adds, threshold).take(k as int) =~= added_events(
            caller_key,
            adds,
            threshold,
        ));
        let ghost after_adds = self@.events;
        let mut m: usize = 0;
        while m < remove.len()
            invariant
                m <= remove.len(),
                rem == strkeys(remove@),
                caller_key == caller@,
                self@.events == after_adds + removed_events(caller_key, rem, threshold).take(
                    m as int,
                ),
                self@.config == old_view.rotate_signers_outcome(
                    caller_key,
                    adds,
                    rem,
                    new_threshold,
                )->Ok_0.config,
                self@.proposals == old_view.proposals,
                self@.nonce == old_view.nonce,
            decreases remove.len() - m,
        {
            let ghost before = self@.events;
            self.events.push(
                MultiSigEvent::SignerRemoved {
                    caller: caller.clone(),
                    signer: remove[m].clone(),
                    threshold,
                },
            );
            assert(removed_events(caller_key, rem, threshold).take(m + 1) =~= removed_events(
                caller_key,
                rem,
                threshold,
            ).take(m as int).push(removed_events(caller_key, rem, threshold)[m as int]));
            assert(self@.events =~= before.push(removed_events(caller_key, rem, threshold)[m as int]));
            m += 1;
        }
        assert(removed_events(caller_key, rem, threshold).take(m as int) =~= removed_events(
            caller_key,
            rem,
            threshold,
        ));
        let ghost after_removes = self@.events;
        if add.len() == 0 && remove.len() == 0 && new_threshold.is_some() {
            self.events.push(MultiSigEvent::ThresholdUpdated { caller, threshold });
            assert(self@.events =~= after_removes.push(
                EventView::ThresholdUpdated { caller: caller_key, threshold },
            ));
        }
        proof {
            let expected = old_view.rotate_signers_outcome(caller_key, adds, rem, new_threshold)->Ok_0;
            assert(self@.events =~= expected.events);
        }
        Ok(())
    }
}

} // verus!
