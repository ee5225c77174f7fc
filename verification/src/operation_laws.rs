//! What each operation does, stated directly over its inputs and the fields
//! of the state, independently of how `model` phrases the operations.
use vstd::prelude::*;

use crate::address::other_than;
use crate::model::{after_additions, after_removals, init_outcome, MultiSigView};
use crate::types::{ConfigView, EventView, MultiSigError, ProposalAction, ProposalView};

verus! {

broadcast use vstd::seq_lib::group_seq_properties;

/// Dropping `w` from a list keeps exactly the other members.
pub proof fn lemma_without_contains(s: Seq<Seq<char>>, w: Seq<char>, x: Seq<char>)
    ensures
        s.filter(other_than(w)).contains(x) <==> s.contains(x) && x != w,
{
    let f = s.filter(other_than(w));
    if f.contains(x) {
        s.lemma_filter_contains_rev(other_than(w), x);
        let k = choose|k: int| 0 <= k < f.len() && f[k] == x;
        s.lemma_filter_pred(other_than(w), k);
    }
    if s.contains(x) && x != w {
        let i = choose|i: int| 0 <= i < s.len() && s[i] == x;
        s.lemma_filter_contains(other_than(w), i);
    }
}

/// Removing signers one after the other succeeds exactly when each of them is
/// a signer that was not removed before it; the signers left are those not
/// removed, and, without repeats, there are as many fewer as were removed.
pub proof fn law_removals(signers: Seq<Seq<char>>, remove: Seq<Seq<char>>)
    ensures
        (after_removals(signers, remove) is Some) <==> (forall|i: int|
            0 <= i < remove.len() ==> signers.contains(#[trigger] remove[i]) && !remove.take(
                i,
            ).contains(remove[i])),
        after_removals(signers, remove) matches Some(k) ==> forall|x: Seq<char>|
            #[trigger] k.contains(x) <==> signers.contains(x) && !remove.contains(x),
        signers.no_duplicates() && after_removals(signers, remove) is Some ==> after_removals(
            signers,
            remove,
        )->Some_0.no_duplicates() && after_removals(signers, remove)->Some_0.len()
            == signers.len() - remove.len(),
    decreases remove.len(),
{
    if remove.len() > 0 {
        let r = remove.drop_last();
        let last = remove.last();
        let n = remove.len() - 1;
        law_removals(signers, r);
        assert(remove =~= r.push(last));
        assert(remove.take(n) =~= r);
        assert forall|i: int| 0 <= i < n implies remove[i] == r[i] && #[trigger] remove.take(i)
            == r.take(i) by {
            assert(remove.take(i) =~= r.take(i));
        }
        match after_removals(signers, r) {
            None => {
                let i = choose|i: int|
                    0 <= i < r.len() && !(signers.contains(#[trigger] r[i]) && !r.take(i).contains(
                        r[i],
                    ));
                assert(remove[i] == r[i] && remove.take(i) == r.take(i));
            },
            Some(k) => {
                if k.contains(last) {
                    assert forall|i: int| 0 <= i < remove.len() implies signers.contains(
                        #[trigger] remove[i],
                    ) && !remove.take(i).contains(remove[i]) by {
                        if i < n {
                            assert(remove[i] == r[i] && remove.take(i) == r.take(i));
                        }
                    }
                    let k2 = k.filter(other_than(last));
                    assert forall|x: Seq<char>| #[trigger]
                        k2.contains(x) <==> signers.contains(x) && !remove.contains(x) by {
                        lemma_without_contains(k, last, x);
                    }
                    if signers.no_duplicates() {
                        crate::model::lemma_without_distinct(k, last);
                    }
                } else {
                    assert(!(signers.contains(remove[n]) && !remove.take(n).contains(remove[n])));
                }
            },
        }
    }
}

/// Adding signers one after the other succeeds exactly when each of them is
/// neither a signer already nor added before it; the signers are then the
/// old ones followed by the added ones.
pub proof fn law_additions(signers: Seq<Seq<char>>, add: Seq<Seq<char>>)
    ensures
        (after_additions(signers, add) is Some) <==> (forall|j: int|
            0 <= j < add.len() ==> !signers.contains(#[trigger] add[j]) && !add.take(j).contains(
                add[j],
            )),
        after_additions(signers, add) matches Some(k) ==> k == signers + add,
    decreases add.len(),
{
    if add.len() > 0 {
        let a = add.drop_last();
        let last = add.last();
        let n = add.len() - 1;
        law_additions(signers, a);
        assert(add =~= a.push(last));
        assert(add.take(n) =~= a);
        assert forall|j: int| 0 <= j < n implies add[j] == a[j] && #[trigger] add.take(j) == a.take(
            j,
        ) by {
            assert(add.take(j) =~= a.take(j));
        }
        match after_additions(signers, a) {
            None => {
                let j = choose|j: int|
                    0 <= j < a.len() && !(!signers.contains(#[trigger] a[j]) && !a.take(j).contains(
                        a[j],
                    ));
                assert(add[j] == a[j] && add.take(j) == a.take(j));
            },
            Some(k) => {
                assert(k.contains(last) <==> signers.contains(last) || a.contains(last));
                if !k.contains(last) {
                    assert forall|j: int| 0 <= j < add.len() implies !signers.contains(
                        #[trigger] add[j],
                    ) && !add.take(j).contains(add[j]) by {
                        if j < n {
                            assert(add[j] == a[j] && add.take(j) == a.take(j));
                        }
                    }
                    assert(k.push(last) =~= signers + add);
                } else {
                    assert(!(!signers.contains(add[n]) && !add.take(n).contains(add[n])));
                }
            },
        }
    }
}

} // verus!

verus! {

/// `init` accepts exactly the thresholds between one and the number of
/// signers, and then starts with those signers and that threshold, no
/// proposals, nonce zero and no events.
pub proof fn law_init(signers: Seq<Seq<char>>, threshold: u32)
    ensures
        threshold == 0 || threshold > signers.len() ==> init_outcome(signers, threshold) == Err::<
            MultiSigView,
            MultiSigError,
        >(MultiSigError::InvalidThreshold),
        0 < threshold <= signers.len() ==> (init_outcome(signers, threshold) matches Ok(v) && v.config
            == (ConfigView { signers, threshold }) && v.proposals.len() == 0 && v.nonce == 0
            && v.events.len() == 0),
{
}

/// A proposal can execute exactly when it has not run and has at least its
/// own threshold of approvals; asking about a missing proposal is refused.
pub proof fn law_can_execute(s: MultiSigView, id: u64)
    ensures
        !(1 <= id <= s.proposals.len()) ==> s.can_execute_outcome(id) == Err::<bool, MultiSigError>(
            MultiSigError::ProposalNotFound,
        ),
        1 <= id <= s.proposals.len() ==> s.can_execute_outcome(id) == Ok::<bool, MultiSigError>(
            !s.proposals[id - 1].executed && s.proposals[id - 1].approvals.len()
                >= s.proposals[id - 1].threshold,
        ),
{
}

/// A signer's proposal is appended with the next id, no approvals, and the
/// signers and threshold in force; nothing else changes but the two events.
/// A non-signer is refused.
pub proof fn law_propose(s: MultiSigView, proposer: Seq<char>, action: ProposalAction)
    ensures
        !s.config.signers.contains(proposer) ==> s.propose_outcome(proposer, action) == Err::<
            MultiSigView,
            MultiSigError,
        >(MultiSigError::NotSigner),
        s.config.signers.contains(proposer) ==> (s.propose_outcome(proposer, action) matches Ok(t)
            && t.proposals.len() == s.proposals.len() + 1 && (forall|i: int|
            0 <= i < s.proposals.len() ==> #[trigger] t.proposals[i] == s.proposals[i])
            && t.proposals[s.proposals.len() as int] == (ProposalView {
            action,
            approvals: Seq::empty(),
            executed: false,
            signers: s.config.signers,
            threshold: s.config.threshold,
            executed_nonce: None,
        }) && t.config == s.config && t.nonce == s.nonce && t.events.len() == s.events.len() + 2
            && t.events.subrange(0, s.events.len() as int) == s.events && t.events[s.events.len() as int]
            == (EventView::Proposed { proposal_id: (s.proposals.len() + 1) as u64 })
            && t.events[s.events.len() + 1int] == (EventView::UpgradeProposed {
            proposal_id: (s.proposals.len() + 1) as u64,
            proposer,
            wasm_hash: match action {
                ProposalAction::Upgrade(h) => h,
            },
        })),
{
    if s.config.signers.contains(proposer) {
        let t = s.propose_outcome(proposer, action)->Ok_0;
        assert(t.events.subrange(0, s.events.len() as int) =~= s.events);
    }
}

/// An approval by a snapshot signer of a pending proposal it has not yet
/// approved is appended to that proposal's approvals, however many approvals
/// it already has; nothing else changes but the two events. Otherwise the
/// refusal names the first failing check: missing proposal, signer outside
/// the snapshot, proposal already executed, signer already approved.
pub proof fn law_approve(s: MultiSigView, id: u64, signer: Seq<char>)
    ensures
        !(1 <= id <= s.proposals.len()) ==> s.approve_outcome(id, signer) == Err::<
            MultiSigView,
            MultiSigError,
        >(MultiSigError::ProposalNotFound),
        1 <= id <= s.proposals.len() && !s.proposals[id - 1].signers.contains(signer)
            ==> s.approve_outcome(id, signer) == Err::<MultiSigView, MultiSigError>(
            MultiSigError::NotSigner,
        ),
        1 <= id <= s.proposals.len() && s.proposals[id - 1].signers.contains(signer)
            && s.proposals[id - 1].executed ==> s.approve_outcome(id, signer) == Err::<
            MultiSigView,
            MultiSigError,
        >(MultiSigError::AlreadyExecuted),
        1 <= id <= s.proposals.len() && s.proposals[id - 1].signers.contains(signer)
            && !s.proposals[id - 1].executed && s.proposals[id - 1].approvals.contains(signer)
            ==> s.approve_outcome(id, signer) == Err::<MultiSigView, MultiSigError>(
            MultiSigError::AlreadyApproved,
        ),
        1 <= id <= s.proposals.len() && s.proposals[id - 1].signers.contains(signer)
            && !s.proposals[id - 1].executed && !s.proposals[id - 1].approvals.contains(signer)
            ==> (s.approve_outcome(id, signer) matches Ok(t) && t.proposals == s.proposals.update(
            id - 1,
            ProposalView {
                approvals: s.proposals[id - 1].approvals.push(signer),
                ..s.proposals[id - 1]
            },
        ) && t.config == s.config && t.nonce == s.nonce && t.events == s.events + seq![
            EventView::Approved { proposal_id: id, signer },
            EventView::UpgradeApproved {
                proposal_id: id,
                signer,
                approval_count: s.proposals[id - 1].approvals.len() + 1,
            },
        ]),
{
}

/// Execution marks the proposal executed with the current nonce and advances
/// the nonce by one when the proposal exists, has not run, carries the
/// expected action, has at least its own threshold of approvals and the
/// expected nonce is the current one; otherwise the refusal names the first
/// failing check in that order.
pub proof fn law_execute(s: MultiSigView, id: u64, expected: ProposalAction, expected_nonce: u64)
    requires
        s.nonce < u64::MAX,
    ensures
        !(1 <= id <= s.proposals.len()) ==> s.execute_outcome(id, expected, expected_nonce)
            == Err::<MultiSigView, MultiSigError>(MultiSigError::ProposalNotFound),
        1 <= id <= s.proposals.len() && s.proposals[id - 1].executed ==> s.execute_outcome(
            id,
            expected,
            expected_nonce,
        ) == Err::<MultiSigView, MultiSigError>(MultiSigError::AlreadyExecuted),
        1 <= id <= s.proposals.len() && !s.proposals[id - 1].executed && s.proposals[id - 1].action
            != expected ==> s.execute_outcome(id, expected, expected_nonce) == Err::<
            MultiSigView,
            MultiSigError,
        >(MultiSigError::ActionMismatch),
        1 <= id <= s.proposals.len() && !s.proposals[id - 1].executed && s.proposals[id - 1].action
            == expected && s.proposals[id - 1].approvals.len() < s.proposals[id - 1].threshold
            ==> s.execute_outcome(id, expected, expected_nonce) == Err::<MultiSigView, MultiSigError>(
            MultiSigError::ThresholdNotMet,
        ),
        1 <= id <= s.proposals.len() && !s.proposals[id - 1].executed && s.proposals[id - 1].action
            == expected && s.proposals[id - 1].approvals.len() >= s.proposals[id - 1].threshold
            && expected_nonce != s.nonce ==> s.execute_outcome(id, expected, expected_nonce)
            == Err::<MultiSigView, MultiSigError>(MultiSigError::NonceMismatch),
        1 <= id <= s.proposals.len() && !s.proposals[id - 1].executed && s.proposals[id - 1].action
            == expected && s.proposals[id - 1].approvals.len() >= s.proposals[id - 1].threshold
            && expected_nonce == s.nonce ==> (s.execute_outcome(id, expected, expected_nonce) matches Ok(
            t,
        ) && t.proposals == s.proposals.update(
            id - 1,
            ProposalView { executed: true, executed_nonce: Some(s.nonce), ..s.proposals[id - 1] },
        ) && t.nonce == s.nonce + 1 && t.config == s.config && t.events == s.events.push(
            EventView::Executed { proposal_id: id, nonce: s.nonce },
        )),
{
}

/// Whether and how an execution succeeds never depends on the signer
/// configuration in force: each proposal is judged against the signers and
/// threshold it was created with.
pub proof fn law_execute_ignores_configuration(
    s: MultiSigView,
    config: ConfigView,
    id: u64,
    expected: ProposalAction,
    expected_nonce: u64,
)
    ensures
        ({
            let r = MultiSigView { config, ..s };
            &&& s.execute_outcome(id, expected, expected_nonce) is Ok <==> r.execute_outcome(
                id,
                expected,
                expected_nonce,
            ) is Ok
            &&& s.execute_outcome(id, expected, expected_nonce) matches Err(e) ==> r.execute_outcome(
                id,
                expected,
                expected_nonce,
            ) == Err::<MultiSigView, MultiSigError>(e)
            &&& s.execute_outcome(id, expected, expected_nonce) matches Ok(t) ==> r.execute_outcome(
                id,
                expected,
                expected_nonce,
            ) == Ok::<MultiSigView, MultiSigError>(MultiSigView { config, ..t })
            &&& s.can_execute_outcome(id) == r.can_execute_outcome(id)
        }),
{
}

/// Removing a signer succeeds exactly when it is a signer and the signers
/// left number at least the threshold; the signers are then the old ones
/// without it, in their order, and nothing else changes but one event.
pub proof fn law_remove_signer(s: MultiSigView, caller: Seq<char>, who: Seq<char>)
    ensures
        !s.config.signers.contains(who) ==> s.remove_signer_outcome(caller, who) == Err::<
            MultiSigView,
            MultiSigError,
        >(MultiSigError::NotSigner),
        s.config.signers.contains(who) && s.config.signers.len() - 1 < s.config.threshold
            ==> s.remove_signer_outcome(caller, who) == Err::<MultiSigView, MultiSigError>(
            MultiSigError::RemovalWouldBreakThreshold,
        ),
        s.config.signers.contains(who) && s.config.signers.len() - 1 >= s.config.threshold
            ==> (s.remove_signer_outcome(caller, who) matches Ok(t) && t.config.signers
            == s.config.signers.filter(other_than(who)) && (forall|x: Seq<char>| #[trigger]
            t.config.signers.contains(x) <==> s.config.signers.contains(x) && x != who)
            && t.config.threshold == s.config.threshold && t.proposals == s.proposals && t.nonce
            == s.nonce && t.events == s.events.push(
            EventView::SignerRemoved { caller, signer: who, threshold: s.config.threshold },
        )),
{
    assert forall|x: Seq<char>| #[trigger]
        s.config.signers.filter(other_than(who)).contains(x) <==> s.config.signers.contains(x) && x
            != who by {
        lemma_without_contains(s.config.signers, who, x);
    }
}

/// Adding a signer succeeds exactly when it is not a signer yet; it is then
/// appended, the threshold stays, and nothing else changes but one event.
pub proof fn law_add_signer(s: MultiSigView, caller: Seq<char>, who: Seq<char>)
    ensures
        s.config.signers.contains(who) ==> s.add_signer_outcome(caller, who) == Err::<
            MultiSigView,
            MultiSigError,
        >(MultiSigError::AlreadySigner),
        !s.config.signers.contains(who) ==> (s.add_signer_outcome(caller, who) matches Ok(t)
            && t.config == (ConfigView {
            signers: s.config.signers.push(who),
            threshold: s.config.threshold,
        }) && t.proposals == s.proposals && t.nonce == s.nonce && t.events == s.events.push(
            EventView::SignerAdded { caller, signer: who, threshold: s.config.threshold },
        )),
{
}

/// The threshold of a rotation is checked against the signers after all the
/// removals and additions, and only against them: with removals and
/// additions that go through, the rotation succeeds exactly when the new
/// threshold lies between one and that number of signers, and the
/// configuration becomes those signers with that threshold.
pub proof fn law_rotation_threshold(
    s: MultiSigView,
    caller: Seq<char>,
    add: Seq<Seq<char>>,
    remove: Seq<Seq<char>>,
    new_threshold: Option<u32>,
)
    requires
        after_removals(s.config.signers, remove) is Some,
        after_additions(after_removals(s.config.signers, remove)->Some_0, add) is Some,
    ensures
        ({
            let signers = after_additions(after_removals(s.config.signers, remove)->Some_0, add)->Some_0;
            let t = match new_threshold {
                Some(t) => t,
                None => s.config.threshold,
            };
            &&& 0 < t <= signers.len() ==> (s.rotate_signers_outcome(
                caller,
                add,
                remove,
                new_threshold,
            ) matches Ok(v) && v.config == (ConfigView { signers, threshold: t }) && v.proposals
                == s.proposals && v.nonce == s.nonce)
            &&& t == 0 || t > signers.len() ==> s.rotate_signers_outcome(
                caller,
                add,
                remove,
                new_threshold,
            ) == Err::<MultiSigView, MultiSigError>(MultiSigError::RemovalWouldBreakThreshold)
        }),
{
}

/// For a signer list without repeats, a rotation succeeds exactly when each
/// removed address is a signer not removed before it, each added address is
/// neither a signer left nor added before it, and the threshold in force
/// afterwards lies between one and the number of signers afterwards (the old
/// count, less the removed, plus the added). The signers afterwards are those
/// not removed, followed by the added ones. Otherwise the refusal is
/// `NotSigner`, `AlreadySigner` or `RemovalWouldBreakThreshold`, in that order.
pub proof fn law_rotation(
    s: MultiSigView,
    caller: Seq<char>,
    add: Seq<Seq<char>>,
    remove: Seq<Seq<char>>,
    new_threshold: Option<u32>,
)
    requires
        s.config.signers.no_duplicates(),
    ensures
        ({
            let old = s.config.signers;
            let removals_ok = forall|i: int|
                0 <= i < remove.len() ==> old.contains(#[trigger] remove[i]) && !remove.take(
                    i,
                ).contains(remove[i]);
            let additions_ok = forall|j: int|
                0 <= j < add.len() ==> !(old.contains(#[trigger] add[j]) && !remove.contains(add[j]))
                    && !add.take(j).contains(add[j]);
            let count = old.len() - remove.len() + add.len();
            let t = match new_threshold {
                Some(t) => t,
                None => s.config.threshold,
            };
            let outcome = s.rotate_signers_outcome(caller, add, remove, new_threshold);
            &&& !removals_ok ==> outcome == Err::<MultiSigView, MultiSigError>(
                MultiSigError::NotSigner,
            )
            &&& removals_ok && !additions_ok ==> outcome == Err::<MultiSigView, MultiSigError>(
                MultiSigError::AlreadySigner,
            )
            &&& removals_ok && additions_ok && (t == 0 || t > count) ==> outcome == Err::<
                MultiSigView,
                MultiSigError,
            >(MultiSigError::RemovalWouldBreakThreshold)
            &&& removals_ok && additions_ok && 0 < t <= count ==> (outcome matches Ok(v)
                && v.config.threshold == t && v.config.signers.len() == count && (forall|x: Seq<char>|
                #[trigger] v.config.signers.contains(x) <==> (old.contains(x) && !remove.contains(x))
                    || add.contains(x)) && v.config.signers.subrange(
                count - add.len(),
                count,
            ) == add && v.proposals == s.proposals && v.nonce == s.nonce)
        }),
{
    let old = s.config.signers;
    law_removals(old, remove);
    if let Some(kept) = after_removals(old, remove) {
        law_additions(kept, add);
        assert forall|j: int| 0 <= j < add.len() implies (kept.contains(#[trigger] add[j]) <==> (
        old.contains(add[j]) && !remove.contains(add[j]))) by {}
        if let Some(signers) = after_additions(kept, add) {
            assert(signers.subrange(kept.len() as int, signers.len() as int) =~= add);
        }
    }
}

} // verus!

verus! {

/// A successful rotation reports, after the earlier events, one event per
/// added address in order, then one per removed address in order, each with
/// the caller and the threshold in force afterwards, and finally a threshold
/// event exactly when nothing was added or removed but a threshold was given.
pub proof fn law_rotation_events(
    s: MultiSigView,
    caller: Seq<char>,
    add: Seq<Seq<char>>,
    remove: Seq<Seq<char>>,
    new_threshold: Option<u32>,
)
    requires
        s.rotate_signers_outcome(caller, add, remove, new_threshold) is Ok,
    ensures
        ({
            let v = s.rotate_signers_outcome(caller, add, remove, new_threshold)->Ok_0;
            let t = v.config.threshold;
            let n = s.events.len();
            let only_threshold = add.len() == 0 && remove.len() == 0 && new_threshold is Some;
            &&& v.events.len() == n + add.len() + remove.len() + if only_threshold {
                1int
            } else {
                0int
            }
            &&& v.events.subrange(0, n as int) == s.events
            &&& forall|i: int|
                0 <= i < add.len() ==> v.events[n + i] == (EventView::SignerAdded {
                    caller,
                    signer: #[trigger] add[i],
                    threshold: t,
                })
            &&& forall|i: int|
                0 <= i < remove.len() ==> v.events[n + add.len() + i] == (EventView::SignerRemoved {
                    caller,
                    signer: #[trigger] remove[i],
                    threshold: t,
                })
            &&& only_threshold ==> v.events[n as int] == (EventView::ThresholdUpdated {
                caller,
                threshold: t,
            })
            &&& new_threshold matches Some(nt) ==> t == nt
            &&& new_threshold is None ==> t == s.config.threshold
        }),
{
    let v = s.rotate_signers_outcome(caller, add, remove, new_threshold)->Ok_0;
    let n = s.events.len();
    assert(v.events.subrange(0, n as int) =~= s.events);
    assert forall|i: int| 0 <= i < add.len() implies v.events[n + i] == (EventView::SignerAdded {
        caller,
        signer: #[trigger] add[i],
        threshold: v.config.threshold,
    }) by {}
    assert forall|i: int| 0 <= i < remove.len() implies v.events[n + add.len() + i] == (
    EventView::SignerRemoved { caller, signer: #[trigger] remove[i], threshold: v.config.threshold })
        by {}
}

} // verus!
