use vstd::prelude::*;

use crate::address::other_than;
use crate::types::{ConfigView, EventView, MultiSigError, ProposalAction, ProposalView};

verus! {

/// The abstract state of a multisig: its configuration, its proposals (the
/// proposal with id `k` is `proposals[k - 1]`), the next execution nonce and
/// the events reported so far.
pub struct MultiSigView {
    pub config: ConfigView,
    pub proposals: Seq<ProposalView>,
    pub nonce: u64,
    pub events: Seq<EventView>,
}

/// A proposal has gathered enough approvals and has not run yet.
pub open spec fn executable(p: ProposalView) -> bool {
    !p.executed && p.approvals.len() >= p.threshold
}

/// The number of executed proposals in `ps`.
pub open spec fn executed_count(ps: Seq<ProposalView>) -> nat
    decreases ps.len(),
{
    if ps.len() == 0 {
        0
    } else {
        executed_count(ps.drop_last()) + if ps.last().executed {
            1nat
        } else {
            0nat
        }
    }
}

/// The signers after removing each of `remove` in turn; `None` where one of
/// them is not a signer at its turn.
pub open spec fn after_removals(signers: Seq<Seq<char>>, remove: Seq<Seq<char>>) -> Option<
    Seq<Seq<char>>,
>
    decreases remove.len(),
{
    if remove.len() == 0 {
        Some(signers)
    } else {
        match after_removals(signers, remove.drop_last()) {
            None => None,
            Some(s) => if s.contains(remove.last()) {
                Some(s.filter(other_than(remove.last())))
            } else {
                None
            },
        }
    }
}

/// The signers after appending each of `add` in turn; `None` where one of
/// them is already a signer at its turn.
pub open spec fn after_additions(signers: Seq<Seq<char>>, add: Seq<Seq<char>>) -> Option<
    Seq<Seq<char>>,
>
    decreases add.len(),
{
    if add.len() == 0 {
        Some(signers)
    } else {
        match after_additions(signers, add.drop_last()) {
            None => None,
            Some(s) => if s.contains(add.last()) {
                None
            } else {
                Some(s.push(add.last()))
            },
        }
    }
}

/// One event per added signer.
pub open spec fn added_events(caller: Seq<char>, add: Seq<Seq<char>>, threshold: u32) -> Seq<
    EventView,
> {
    add.map(|i: int, s: Seq<char>| EventView::SignerAdded { caller, signer: s, threshold })
}

/// One event per removed signer.
pub open spec fn removed_events(caller: Seq<char>, remove: Seq<Seq<char>>, threshold: u32) -> Seq<
    EventView,
> {
    remove.map(|i: int, s: Seq<char>| EventView::SignerRemoved { caller, signer: s, threshold })
}

/// The events of a signer rotation: one per added signer, then one per
/// removed signer, then a threshold event when only the threshold changed.
pub open spec fn rotation_events(
    caller: Seq<char>,
    add: Seq<Seq<char>>,
    remove: Seq<Seq<char>>,
    new_threshold: Option<u32>,
    threshold: u32,
) -> Seq<EventView> {
    added_events(caller, add, threshold) + removed_events(caller, remove, threshold) + if add.len()
        == 0 && remove.len() == 0 && new_threshold is Some {
        seq![EventView::ThresholdUpdated { caller, threshold }]
    } else {
        Seq::empty()
    }
}

/// The configuration set up by `init`, or why it is refused.
pub open spec fn init_outcome(signers: Seq<Seq<char>>, threshold: u32) -> Result<
    MultiSigView,
    MultiSigError,
> {
    if threshold == 0 || threshold > signers.len() {
        Err(MultiSigError::InvalidThreshold)
    } else {
        Ok(
            MultiSigView {
                config: ConfigView { signers, threshold },
                proposals: Seq::empty(),
                nonce: 0,
                events: Seq::empty(),
            },
        )
    }
}

impl MultiSigView {
    /// A proposal with this id exists.
    pub open spec fn has_proposal(self, id: u64) -> bool {
        1 <= id <= self.proposals.len()
    }

    /// The proposal with this id.
    pub open spec fn proposal(self, id: u64) -> ProposalView {
        self.proposals[id - 1]
    }

    /// The id the next proposal gets.
    pub open spec fn next_id(self) -> nat {
        self.proposals.len() + 1
    }

    /// Every proposal keeps its approvals inside its signer snapshot, without
    /// repeats; an executed proposal had reached its threshold and records the
    /// nonce it consumed; consumed nonces are distinct, below the current nonce,
    /// and as many as the executed proposals.
    pub open spec fn wf(self) -> bool {
        &&& forall|i: int|
            #![trigger self.proposals[i]]
            0 <= i < self.proposals.len() ==> {
                let p = self.proposals[i];
                &&& p.approvals.no_duplicates()
                &&& forall|k: int|
                    0 <= k < p.approvals.len() ==> p.signers.contains(#[trigger] p.approvals[k])
                &&& p.executed ==> p.approvals.len() >= p.threshold
                &&& p.executed == (p.executed_nonce is Some)
                &&& p.executed ==> p.executed_nonce.unwrap() < self.nonce
            }
        &&& forall|i: int, j: int|
            #![trigger self.proposals[i], self.proposals[j]]
            0 <= i < self.proposals.len() && 0 <= j < self.proposals.len() && i != j
                && self.proposals[i].executed && self.proposals[j].executed
                ==> self.proposals[i].executed_nonce != self.proposals[j].executed_nonce
        &&& self.nonce == executed_count(self.proposals)
    }

    /// Whether the proposal can run now, or why the question has no answer.
    pub open spec fn can_execute_outcome(self, id: u64) -> Result<bool, MultiSigError> {
        if !self.has_proposal(id) {
            Err(MultiSigError::ProposalNotFound)
        } else {
            Ok(executable(self.proposal(id)))
        }
    }

    /// The state after `proposer` proposes `action`, or why it is refused.
    pub open spec fn propose_outcome(self, proposer: Seq<char>, action: ProposalAction) -> Result<
        MultiSigView,
        MultiSigError,
    > {
        if !self.config.signers.contains(proposer) {
            Err(MultiSigError::NotSigner)
        } else {
            let id = self.next_id() as u64;
            let p = ProposalView {
                action,
                approvals: Seq::empty(),
                executed: false,
                signers: self.config.signers,
                threshold: self.config.threshold,
                executed_nonce: None,
            };
            let hash = match action {
                ProposalAction::Upgrade(h) => h,
            };
            Ok(
                MultiSigView {
                    proposals: self.proposals.push(p),
                    events: self.events + seq![
                        EventView::Proposed { proposal_id: id },
                        EventView::UpgradeProposed { proposal_id: id, proposer, wasm_hash: hash },
                    ],
                    ..self
                },
            )
        }
    }

    /// The state after `signer` approves proposal `id`, or why it is refused.
    pub open spec fn approve_outcome(self, id: u64, signer: Seq<char>) -> Result<
        MultiSigView,
        MultiSigError,
    > {
        if !self.has_proposal(id) {
            Err(MultiSigError::ProposalNotFound)
        } else {
            let p = self.proposal(id);
            if !p.signers.contains(signer) {
                Err(MultiSigError::NotSigner)
            } else if p.executed {
                Err(MultiSigError::AlreadyExecuted)
            } else if p.approvals.contains(signer) {
                Err(MultiSigError::AlreadyApproved)
            } else {
                let approved = ProposalView { approvals: p.approvals.push(signer), ..p };
                Ok(
                    MultiSigView {
                        proposals: self.proposals.update(id - 1, approved),
                        events: self.events + seq![
                            EventView::Approved { proposal_id: id, signer },
                            EventView::UpgradeApproved {
                                proposal_id: id,
                                signer,
                                approval_count: approved.approvals.len(),
                            },
                        ],
                        ..self
                    },
                )
            }
        }
    }

    /// The state after executing proposal `id`, expected to carry `expected`,
    /// with `expected_nonce`, or why it is refused.
    pub open spec fn execute_outcome(
        self,
        id: u64,
        expected: ProposalAction,
        expected_nonce: u64,
    ) -> Result<MultiSigView, MultiSigError> {
        if !self.has_proposal(id) {
            Err(MultiSigError::ProposalNotFound)
        } else {
            let p = self.proposal(id);
            if p.executed {
                Err(MultiSigError::AlreadyExecuted)
            } else if p.action != expected {
                Err(MultiSigError::ActionMismatch)
            } else if !executable(p) {
                Err(MultiSigError::ThresholdNotMet)
            } else if expected_nonce != self.nonce {
                Err(MultiSigError::NonceMismatch)
            } else {
                let done = ProposalView { executed: true, executed_nonce: Some(self.nonce), ..p };
                Ok(
                    MultiSigView {
                        proposals: self.proposals.update(id - 1, done),
                        nonce: (self.nonce + 1) as u64,
                        events: self.events.push(
                            EventView::Executed { proposal_id: id, nonce: self.nonce },
                        ),
                        ..self
                    },
                )
            }
        }
    }

    /// The state after `caller` removes `who` from the signers, or why it is
    /// refused.
    pub open spec fn remove_signer_outcome(self, caller: Seq<char>, who: Seq<char>) -> Result<
        MultiSigView,
        MultiSigError,
    > {
        if !self.config.signers.contains(who) {
            Err(MultiSigError::NotSigner)
        } else if self.config.signers.len() - 1 < self.config.threshold {
            Err(MultiSigError::RemovalWouldBreakThreshold)
        } else {
            Ok(
                MultiSigView {
                    config: ConfigView {
                        signers: self.config.signers.filter(other_than(who)),
                        ..self.config
                    },
                    events: self.events.push(
                        EventView::SignerRemoved {
                            caller,
                            signer: who,
                            threshold: self.config.threshold,
                        },
                    ),
                    ..self
                },
            )
        }
    }

    /// The state after `caller` adds `who` to the signers, or why it is refused.
    pub open spec fn add_signer_outcome(self, caller: Seq<char>, who: Seq<char>) -> Result<
        MultiSigView,
        MultiSigError,
    > {
        if self.config.signers.contains(who) {
            Err(MultiSigError::AlreadySigner)
        } else {
            Ok(
                MultiSigView {
                    config: ConfigView { signers: self.config.signers.push(who), ..self.config },
                    events: self.events.push(
                        EventView::SignerAdded {
                            caller,
                            signer: who,
                            threshold: self.config.threshold,
                        },
                    ),
                    ..self
                },
            )
        }
    }

    /// The state after `caller` removes `remove`, adds `add` and sets the
    /// threshold to `new_threshold` where given, or why it is refused.
    pub open spec fn rotate_signers_outcome(
        self,
        caller: Seq<char>,
        add: Seq<Seq<char>>,
        remove: Seq<Seq<char>>,
        new_threshold: Option<u32>,
    ) -> Result<MultiSigView, MultiSigError> {
        match after_removals(self.config.signers, remove) {
            None => Err(MultiSigError::NotSigner),
            Some(kept) => match after_additions(kept, add) {
                None => Err(MultiSigError::AlreadySigner),
                Some(signers) => {
                    let threshold = match new_threshold {
                        Some(t) => t,
                        None => self.config.threshold,
                    };
                    if threshold == 0 || threshold > signers.len() {
                        Err(MultiSigError::RemovalWouldBreakThreshold)
                    } else {
                        Ok(
                            MultiSigView {
                                config: ConfigView { signers, threshold },
                                events: self.events + rotation_events(
                                    caller,
                                    add,
                                    remove,
                                    new_threshold,
                                    threshold,
                                ),
                                ..self
                            },
                        )
                    }
                },
            },
        }
    }
}

} // verus!

verus! {

/// Replacing one proposal changes the executed count by the change of its flag.
pub proof fn lemma_executed_count_update(ps: Seq<ProposalView>, i: int, p: ProposalView)
    requires
        0 <= i < ps.len(),
    ensures
        executed_count(ps.update(i, p)) + (if ps[i].executed {
            1int
        } else {
            0int
        }) == executed_count(ps) + (if p.executed {
            1int
        } else {
            0int
        }),
    decreases ps.len(),
{
    let qs = ps.update(i, p);
    if i == ps.len() - 1 {
        assert(qs.drop_last() =~= ps.drop_last());
    } else {
        lemma_executed_count_update(ps.drop_last(), i, p);
        assert(qs.drop_last() =~= ps.drop_last().update(i, p));
    }
}

/// Appending a proposal adds its flag to the executed count.
pub proof fn lemma_executed_count_push(ps: Seq<ProposalView>, p: ProposalView)
    ensures
        executed_count(ps.push(p)) == executed_count(ps) + (if p.executed {
            1nat
        } else {
            0nat
        }),
{
    assert(ps.push(p).drop_last() =~= ps);
}

/// The executed count never exceeds the number of proposals, and falls short
/// of it while some proposal has not run.
pub proof fn lemma_executed_count_bound(ps: Seq<ProposalView>)
    ensures
        executed_count(ps) <= ps.len(),
        (exists|i: int| 0 <= i < ps.len() && !(#[trigger] ps[i]).executed) ==> executed_count(ps)
            < ps.len(),
    decreases ps.len(),
{
    if ps.len() > 0 {
        lemma_executed_count_bound(ps.drop_last());
        if exists|i: int| 0 <= i < ps.len() && !(#[trigger] ps[i]).executed {
            let i = choose|i: int| 0 <= i < ps.len() && !(#[trigger] ps[i]).executed;
            if i < ps.len() - 1 {
                assert(!ps.drop_last()[i].executed);
            }
        }
    }
}

/// Once a removal fails, the whole list of removals fails.
pub proof fn lemma_removals_stay_refused(signers: Seq<Seq<char>>, remove: Seq<Seq<char>>, i: int)
    requires
        0 <= i <= remove.len(),
        after_removals(signers, remove.take(i)) is None,
    ensures
        after_removals(signers, remove) is None,
    decreases remove.len() - i,
{
    if i < remove.len() {
        assert(remove.take(i + 1).drop_last() =~= remove.take(i));
        lemma_removals_stay_refused(signers, remove, i + 1);
    } else {
        assert(remove.take(i) =~= remove);
    }
}

/// Once an addition fails, the whole list of additions fails.
pub proof fn lemma_additions_stay_refused(signers: Seq<Seq<char>>, add: Seq<Seq<char>>, i: int)
    requires
        0 <= i <= add.len(),
        after_additions(signers, add.take(i)) is None,
    ensures
        after_additions(signers, add) is None,
    decreases add.len() - i,
{
    if i < add.len() {
        assert(add.take(i + 1).drop_last() =~= add.take(i));
        lemma_additions_stay_refused(signers, add, i + 1);
    } else {
        assert(add.take(i) =~= add);
    }
}

} // verus!

verus! {

/// Dropping every occurrence of `who` from a list without repeats keeps it
/// without repeats, and shortens it by one exactly when `who` occurred.
pub proof fn lemma_without_distinct(s: Seq<Seq<char>>, who: Seq<char>)
    requires
        s.no_duplicates(),
    ensures
        s.filter(other_than(who)).no_duplicates(),
        s.filter(other_than(who)).len() == if s.contains(who) {
            s.len() - 1
        } else {
            s.len() as int
        },
        forall|x: Seq<char>| #[trigger]
            s.filter(other_than(who)).contains(x) <==> s.contains(x) && x != who,
    decreases s.len(),
{
    reveal(Seq::filter);
    if s.len() > 0 {
        let rest = s.drop_last();
        let last = s.last();
        assert(rest.no_duplicates());
        lemma_without_distinct(rest, who);
        assert(s =~= rest.push(last));
        rest.lemma_filter_push(last, other_than(who));
        assert(!rest.contains(last)) by {
            if rest.contains(last) {
                let k = choose|k: int| 0 <= k < rest.len() && rest[k] == last;
                assert(s[k] == s[s.len() - 1]);
            }
        }
        let f = rest.filter(other_than(who));
        if last != who {
            assert(s.filter(other_than(who)) == f.push(last));
            assert forall|x: Seq<char>| #[trigger]
                f.push(last).contains(x) <==> s.contains(x) && x != who by {
                if f.push(last).contains(x) && x != last {
                    let k = choose|k: int| 0 <= k < f.push(last).len() && f.push(last)[k] == x;
                    assert(f.contains(x)) by {
                        assert(f[k] == x);
                    }
                }
                if s.contains(x) && x != who && x != last {
                    let k = choose|k: int| 0 <= k < s.len() && s[k] == x;
                    assert(rest.contains(x)) by {
                        assert(rest[k] == x);
                    }
                    assert(f.contains(x));
                    let m = choose|m: int| 0 <= m < f.len() && f[m] == x;
                    assert(f.push(last)[m] == x);
                }
                if x == last {
                    assert(f.push(last)[f.len() as int] == x);
                    assert(s[s.len() - 1] == x);
                }
            }
            assert(!f.contains(last));
            assert(f.push(last).no_duplicates()) by {
                assert forall|i: int, j: int|
                    0 <= i < f.push(last).len() && 0 <= j < f.push(last).len() && i != j implies f.push(
                    last,
                )[i] != f.push(last)[j] by {
                    if i < f.len() && j < f.len() {
                        assert(f[i] != f[j]);
                    } else if i < f.len() {
                        assert(f.contains(f[i]));
                    } else {
                        assert(f.contains(f[j]));
                    }
                }
            }
            if s.contains(who) {
                let k = choose|k: int| 0 <= k < s.len() && s[k] == who;
                assert(rest.contains(who)) by {
                    assert(k != s.len() - 1);
                    assert(rest[k] == who);
                }
            } else {
                assert(!rest.contains(who)) by {
                    if rest.contains(who) {
                        let k = choose|k: int| 0 <= k < rest.len() && rest[k] == who;
                        assert(s[k] == who);
                    }
                }
            }
        } else {
            assert(s.filter(other_than(who)) == f);
            assert(s.contains(who)) by {
                assert(s[s.len() - 1] == who);
            }
            assert forall|x: Seq<char>| #[trigger] f.contains(x) <==> s.contains(x) && x != who by {
                if s.contains(x) && x != who {
                    let k = choose|k: int| 0 <= k < s.len() && s[k] == x;
                    assert(rest[k] == x);
                }
                if f.contains(x) {
                    assert(rest.contains(x));
                    let k = choose|k: int| 0 <= k < rest.len() && rest[k] == x;
                    assert(s[k] == x);
                }
            }
        }
    } else {
        assert(s.filter(other_than(who)) =~= s);
    }
}

} // verus!
