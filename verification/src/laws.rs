use vstd::prelude::*;

use crate::address::other_than;
use crate::model::{
    after_additions, after_removals, executed_count, init_outcome, lemma_executed_count_bound,
    lemma_without_distinct, MultiSigView,
};
use crate::types::{MultiSigError, ProposalAction};

verus! {

/// `t` grows out of `s`: proposals are only appended; an existing proposal
/// keeps its action, signer snapshot and threshold, only gains approvals, and
/// once executed stays as it is; the nonce never decreases; events are only
/// appended.
pub open spec fn grows_into(s: MultiSigView, t: MultiSigView) -> bool {
    &&& s.proposals.len() <= t.proposals.len()
    &&& forall|i: int|
        #![trigger t.proposals[i]]
        0 <= i < s.proposals.len() ==> {
            let p = s.proposals[i];
            let q = t.proposals[i];
            &&& q.action == p.action
            &&& q.signers == p.signers
            &&& q.threshold == p.threshold
            &&& p.approvals.is_prefix_of(q.approvals)
            &&& p.executed ==> q == p
        }
    &&& s.nonce <= t.nonce
    &&& s.events.is_prefix_of(t.events)
}

/// A successful set-up is well formed, with a threshold between one and the
/// number of signers, no proposals and nonce zero.
pub proof fn law_init_is_well_formed(signers: Seq<Seq<char>>, threshold: u32)
    requires
        init_outcome(signers, threshold) is Ok,
    ensures
        ({
            let s = init_outcome(signers, threshold)->Ok_0;
            &&& s.wf()
            &&& 0 < s.config.threshold <= s.config.signers.len()
            &&& s.proposals.len() == 0
            &&& s.nonce == 0
        }),
{
    let s = init_outcome(signers, threshold)->Ok_0;
    assert(executed_count(s.proposals) == 0);
}

/// No successful operation rewrites history: every operation lets the state
/// grow (see `grows_into`).
pub proof fn law_operations_only_grow_the_state(
    s: MultiSigView,
    proposer: Seq<char>,
    action: ProposalAction,
    id: u64,
    signer: Seq<char>,
    nonce: u64,
    caller: Seq<char>,
    who: Seq<char>,
    add: Seq<Seq<char>>,
    remove: Seq<Seq<char>>,
    new_threshold: Option<u32>,
)
    ensures
        s.propose_outcome(proposer, action) is Ok ==> grows_into(
            s,
            s.propose_outcome(proposer, action)->Ok_0,
        ),
        s.approve_outcome(id, signer) is Ok ==> grows_into(s, s.approve_outcome(id, signer)->Ok_0),
        s.nonce < u64::MAX && s.execute_outcome(id, action, nonce) is Ok ==> grows_into(
            s,
            s.execute_outcome(id, action, nonce)->Ok_0,
        ),
        s.remove_signer_outcome(caller, who) is Ok ==> grows_into(
            s,
            s.remove_signer_outcome(caller, who)->Ok_0,
        ),
        s.add_signer_outcome(caller, who) is Ok ==> grows_into(
            s,
            s.add_signer_outcome(caller, who)->Ok_0,
        ),
        s.rotate_signers_outcome(caller, add, remove, new_threshold) is Ok ==> grows_into(
            s,
            s.rotate_signers_outcome(caller, add, remove, new_threshold)->Ok_0,
        ),
{
    assert forall|e: Seq<crate::types::EventView>| #[trigger] s.events.is_prefix_of(s.events + e) by {
        assert(s.events =~= (s.events + e).subrange(0, s.events.len() as int));
    }
    if s.propose_outcome(proposer, action) is Ok {
        let t = s.propose_outcome(proposer, action)->Ok_0;
        assert forall|i: int| #![trigger t.proposals[i]] 0 <= i < s.proposals.len() implies {
            let p = s.proposals[i];
            let q = t.proposals[i];
            &&& q.action == p.action
            &&& q.signers == p.signers
            &&& q.threshold == p.threshold
            &&& p.approvals.is_prefix_of(q.approvals)
            &&& p.executed ==> q == p
        } by {
            assert(t.proposals[i] == s.proposals[i]);
            assert(s.proposals[i].approvals =~= s.proposals[i].approvals.subrange(
                0,
                s.proposals[i].approvals.len() as int,
            ));
        }
    }
    if s.approve_outcome(id, signer) is Ok {
        let t = s.approve_outcome(id, signer)->Ok_0;
        assert forall|i: int| #![trigger t.proposals[i]] 0 <= i < s.proposals.len() implies {
            let p = s.proposals[i];
            let q = t.proposals[i];
            &&& q.action == p.action
            &&& q.signers == p.signers
            &&& q.threshold == p.threshold
            &&& p.approvals.is_prefix_of(q.approvals)
            &&& p.executed ==> q == p
        } by {
            let p = s.proposals[i];
            if i == id - 1 {
                assert(p.approvals =~= p.approvals.push(signer).subrange(
                    0,
                    p.approvals.len() as int,
                ));
            } else {
                assert(p.approvals =~= p.approvals.subrange(0, p.approvals.len() as int));
            }
        }
        assert(s.events + seq![
            crate::types::EventView::Approved { proposal_id: id, signer },
            crate::types::EventView::UpgradeApproved {
                proposal_id: id,
                signer,
                approval_count: s.proposal(id).approvals.len() + 1,
            },
        ] == t.events);
    }
    if s.nonce < u64::MAX && s.execute_outcome(id, action, nonce) is Ok {
        let t = s.execute_outcome(id, action, nonce)->Ok_0;
        assert forall|i: int| #![trigger t.proposals[i]] 0 <= i < s.proposals.len() implies {
            let p = s.proposals[i];
            let q = t.proposals[i];
            &&& q.action == p.action
            &&& q.signers == p.signers
            &&& q.threshold == p.threshold
            &&& p.approvals.is_prefix_of(q.approvals)
            &&& p.executed ==> q == p
        } by {
            let p = s.proposals[i];
            assert(p.approvals =~= p.approvals.subrange(0, p.approvals.len() as int));
        }
        let e = seq![crate::types::EventView::Executed { proposal_id: id, nonce: s.nonce }];
        assert(s.events.push(e[0]) == s.events + e);
    }
    if s.remove_signer_outcome(caller, who) is Ok {
        let t = s.remove_signer_outcome(caller, who)->Ok_0;
        let e = seq![
            crate::types::EventView::SignerRemoved {
                caller,
                signer: who,
                threshold: s.config.threshold,
            },
        ];
        assert(s.events.push(e[0]) == s.events + e);
        lemma_proposals_kept(s, t);
    }
    if s.add_signer_outcome(caller, who) is Ok {
        let t = s.add_signer_outcome(caller, who)->Ok_0;
        let e = seq![
            crate::types::EventView::SignerAdded {
                caller,
                signer: who,
                threshold: s.config.threshold,
            },
        ];
        assert(s.events.push(e[0]) == s.events + e);
        lemma_proposals_kept(s, t);
    }
    if s.rotate_signers_outcome(caller, add, remove, new_threshold) is Ok {
        let t = s.rotate_signers_outcome(caller, add, remove, new_threshold)->Ok_0;
        lemma_proposals_kept(s, t);
    }
}

proof fn lemma_proposals_kept(s: MultiSigView, t: MultiSigView)
    requires
        t.proposals == s.proposals,
    ensures
        forall|i: int|
            #![trigger t.proposals[i]]
            0 <= i < s.proposals.len() ==> {
                let p = s.proposals[i];
                let q = t.proposals[i];
                &&& q.action == p.action
                &&& q.signers == p.signers
                &&& q.threshold == p.threshold
                &&& p.approvals.is_prefix_of(q.approvals)
                &&& p.executed ==> q == p
            },
{
    assert forall|i: int| #![trigger t.proposals[i]] 0 <= i < s.proposals.len() implies {
        let p = s.proposals[i];
        let q = t.proposals[i];
        &&& q.action == p.action
        &&& q.signers == p.signers
        &&& q.threshold == p.threshold
        &&& p.approvals.is_prefix_of(q.approvals)
        &&& p.executed ==> q == p
    } by {
        let p = s.proposals[i];
        assert(p.approvals =~= p.approvals.subrange(0, p.approvals.len() as int));
    }
}

/// Every executed proposal gathered at least its threshold of distinct
/// approvals, all from the signer snapshot it was created with, and consumed a
/// nonce below the current one.
pub proof fn law_executed_proposal_was_approved(s: MultiSigView, id: u64)
    requires
        s.wf(),
        s.has_proposal(id),
        s.proposal(id).executed,
    ensures
        ({
            let p = s.proposal(id);
            &&& p.approvals.no_duplicates()
            &&& forall|k: int| 0 <= k < p.approvals.len() ==> p.signers.contains(#[trigger] p.approvals[k])
            &&& p.approvals.len() >= p.threshold
            &&& p.executed_nonce matches Some(n) && n < s.nonce
        }),
{
    assert(s.proposals[id - 1] == s.proposal(id));
}

/// The nonce counts the executed proposals, so it never exceeds the number
/// of proposals; and it advances by one on each successful execution.
pub proof fn law_nonce_counts_executions(s: MultiSigView, id: u64, action: ProposalAction, nonce: u64)
    requires
        s.wf(),
    ensures
        s.nonce == executed_count(s.proposals),
        s.nonce <= s.proposals.len(),
        s.proposals.len() <= u64::MAX && s.execute_outcome(id, action, nonce) is Ok ==> s.execute_outcome(
            id,
            action,
            nonce,
        )->Ok_0.nonce == s.nonce + 1 && nonce == s.nonce,
{
    lemma_executed_count_bound(s.proposals);
    if s.proposals.len() <= u64::MAX && s.execute_outcome(id, action, nonce) is Ok {
        assert(!s.proposals[id - 1].executed);
    }
}

/// A consumed nonce can never drive another execution, of the same proposal
/// or of any other, whatever action it carries.
pub proof fn law_nonce_cannot_be_replayed(
    s: MultiSigView,
    id: u64,
    action: ProposalAction,
    nonce: u64,
    other_id: u64,
    other_action: ProposalAction,
)
    requires
        s.nonce < u64::MAX,
        s.execute_outcome(id, action, nonce) is Ok,
    ensures
        s.execute_outcome(id, action, nonce)->Ok_0.execute_outcome(
            other_id,
            other_action,
            nonce,
        ) is Err,
{
    let t = s.execute_outcome(id, action, nonce)->Ok_0;
    if t.has_proposal(other_id) && other_id != id {
        assert(t.proposal(other_id) == s.proposal(other_id));
    }
}

/// An executed proposal can be neither executed again nor approved again:
/// a further execution is refused as already executed, and so is a further
/// approval by a signer of its snapshot.
pub proof fn law_executed_proposal_is_final(
    s: MultiSigView,
    id: u64,
    action: ProposalAction,
    nonce: u64,
    any_action: ProposalAction,
    any_nonce: u64,
    signer: Seq<char>,
)
    requires
        s.execute_outcome(id, action, nonce) is Ok,
    ensures
        ({
            let t = s.execute_outcome(id, action, nonce)->Ok_0;
            &&& t.execute_outcome(id, any_action, any_nonce) == Err::<MultiSigView, MultiSigError>(
                MultiSigError::AlreadyExecuted,
            )
            &&& t.approve_outcome(id, signer) is Err
            &&& t.proposal(id).signers.contains(signer) ==> t.approve_outcome(id, signer) == Err::<
                MultiSigView,
                MultiSigError,
            >(MultiSigError::AlreadyExecuted)
        }),
{
}

/// Changing the signer configuration never touches a proposal: each proposal
/// keeps the signers and threshold it was created with, so whether it can
/// execute is unchanged, and so is the nonce.
pub proof fn law_signer_changes_leave_proposals_alone(
    s: MultiSigView,
    caller: Seq<char>,
    who: Seq<char>,
    add: Seq<Seq<char>>,
    remove: Seq<Seq<char>>,
    new_threshold: Option<u32>,
    id: u64,
)
    ensures
        s.remove_signer_outcome(caller, who) matches Ok(t) ==> t.proposals == s.proposals
            && t.nonce == s.nonce && t.can_execute_outcome(id) == s.can_execute_outcome(id),
        s.add_signer_outcome(caller, who) matches Ok(t) ==> t.proposals == s.proposals && t.nonce
            == s.nonce && t.can_execute_outcome(id) == s.can_execute_outcome(id),
        s.rotate_signers_outcome(caller, add, remove, new_threshold) matches Ok(t) ==> t.proposals
            == s.proposals && t.nonce == s.nonce && t.can_execute_outcome(id)
            == s.can_execute_outcome(id),
{
}

/// Removing a signer from a list without repeats leaves exactly one signer
/// fewer, and still at least as many signers as the threshold.
pub proof fn law_removal_keeps_threshold_reachable(s: MultiSigView, caller: Seq<char>, who: Seq<char>)
    requires
        s.config.signers.no_duplicates(),
        s.remove_signer_outcome(caller, who) is Ok,
    ensures
        ({
            let t = s.remove_signer_outcome(caller, who)->Ok_0;
            &&& t.config.signers.len() == s.config.signers.len() - 1
            &&& t.config.signers.len() >= t.config.threshold
            &&& !t.config.signers.contains(who)
        }),
{
    lemma_without_distinct(s.config.signers, who);
}

/// A successful rotation leaves a threshold between one and the number of
/// signers.
pub proof fn law_rotation_keeps_threshold_valid(
    s: MultiSigView,
    caller: Seq<char>,
    add: Seq<Seq<char>>,
    remove: Seq<Seq<char>>,
    new_threshold: Option<u32>,
)
    requires
        s.rotate_signers_outcome(caller, add, remove, new_threshold) is Ok,
    ensures
        ({
            let t = s.rotate_signers_outcome(caller, add, remove, new_threshold)->Ok_0;
            0 < t.config.threshold <= t.config.signers.len()
        }),
{
}

proof fn lemma_removals_distinct(signers: Seq<Seq<char>>, remove: Seq<Seq<char>>)
    requires
        signers.no_duplicates(),
        after_removals(signers, remove) is Some,
    ensures
        after_removals(signers, remove)->Some_0.no_duplicates(),
    decreases remove.len(),
{
    if remove.len() > 0 {
        lemma_removals_distinct(signers, remove.drop_last());
        let s = after_removals(signers, remove.drop_last())->Some_0;
        lemma_without_distinct(s, remove.last());
    }
}

proof fn lemma_additions_distinct(signers: Seq<Seq<char>>, add: Seq<Seq<char>>)
    requires
        signers.no_duplicates(),
        after_additions(signers, add) is Some,
    ensures
        after_additions(signers, add)->Some_0.no_duplicates(),
    decreases add.len(),
{
    if add.len() > 0 {
        lemma_additions_distinct(signers, add.drop_last());
        let s = after_additions(signers, add.drop_last())->Some_0;
        lemma_push_distinct(s, add.last());
    }
}

proof fn lemma_push_distinct(s: Seq<Seq<char>>, x: Seq<char>)
    requires
        s.no_duplicates(),
        !s.contains(x),
    ensures
        s.push(x).no_duplicates(),
{
    assert forall|i: int, j: int|
        0 <= i < s.push(x).len() && 0 <= j < s.push(x).len() && i != j implies s.push(x)[i] != s.push(
        x,
    )[j] by {
        if i < s.len() && j < s.len() {
        } else if i < s.len() {
            assert(s.contains(s[i]));
        } else {
            assert(s.contains(s[j]));
        }
    }
}

/// Adding, removing and rotating signers keep a signer list free of repeats.
pub proof fn law_signer_lists_stay_distinct(
    s: MultiSigView,
    caller: Seq<char>,
    who: Seq<char>,
    add: Seq<Seq<char>>,
    remove: Seq<Seq<char>>,
    new_threshold: Option<u32>,
)
    requires
        s.config.signers.no_duplicates(),
    ensures
        s.add_signer_outcome(caller, who) matches Ok(t) ==> t.config.signers.no_duplicates(),
        s.remove_signer_outcome(caller, who) matches Ok(t) ==> t.config.signers.no_duplicates(),
        s.rotate_signers_outcome(caller, add, remove, new_threshold) matches Ok(t)
            ==> t.config.signers.no_duplicates(),
{
    if s.add_signer_outcome(caller, who) is Ok {
        lemma_push_distinct(s.config.signers, who);
    }
    lemma_without_distinct(s.config.signers, who);
    if s.rotate_signers_outcome(caller, add, remove, new_threshold) is Ok {
        lemma_removals_distinct(s.config.signers, remove);
        let kept = after_removals(s.config.signers, remove)->Some_0;
        lemma_additions_distinct(kept, add);
    }
}

} // verus!

verus! {

/// An operation on the multisig, as its arguments' views.
pub enum Operation {
    Propose { proposer: Seq<char>, action: ProposalAction },
    Approve { id: u64, signer: Seq<char> },
    Execute { id: u64, action: ProposalAction, nonce: u64 },
    RemoveSigner { caller: Seq<char>, who: Seq<char> },
    AddSigner { caller: Seq<char>, who: Seq<char> },
    RotateSigners {
        caller: Seq<char>,
        add: Seq<Seq<char>>,
        remove: Seq<Seq<char>>,
        new_threshold: Option<u32>,
    },
}

/// The state after attempting `op`: its outcome where it succeeds, the same
/// state where it is refused (an execution is attempted only while the nonce
/// can still grow).
pub open spec fn step(s: MultiSigView, op: Operation) -> MultiSigView {
    let outcome = match op {
        Operation::Propose { proposer, action } => s.propose_outcome(proposer, action),
        Operation::Approve { id, signer } => s.approve_outcome(id, signer),
        Operation::Execute { id, action, nonce } => if s.nonce < u64::MAX {
            s.execute_outcome(id, action, nonce)
        } else {
            Err(MultiSigError::NonceMismatch)
        },
        Operation::RemoveSigner { caller, who } => s.remove_signer_outcome(caller, who),
        Operation::AddSigner { caller, who } => s.add_signer_outcome(caller, who),
        Operation::RotateSigners { caller, add, remove, new_threshold } =>
            s.rotate_signers_outcome(caller, add, remove, new_threshold),
    };
    match outcome {
        Ok(t) => t,
        Err(_) => s,
    }
}

/// The state after attempting each of `ops` in turn.
pub open spec fn run(s: MultiSigView, ops: Seq<Operation>) -> MultiSigView
    decreases ops.len(),
{
    if ops.len() == 0 {
        s
    } else {
        step(run(s, ops.drop_last()), ops.last())
    }
}

/// Growth composes: what grows out of a state grown out of `s` has grown out
/// of `s`.
pub proof fn law_growth_composes(s: MultiSigView, t: MultiSigView, u: MultiSigView)
    requires
        grows_into(s, t),
        grows_into(t, u),
    ensures
        grows_into(s, u),
{
    assert forall|i: int| #![trigger u.proposals[i]] 0 <= i < s.proposals.len() implies {
        let p = s.proposals[i];
        let r = u.proposals[i];
        &&& r.action == p.action
        &&& r.signers == p.signers
        &&& r.threshold == p.threshold
        &&& p.approvals.is_prefix_of(r.approvals)
        &&& p.executed ==> r == p
    } by {
        let p = s.proposals[i];
        let q = t.proposals[i];
        let r = u.proposals[i];
        assert(p.approvals =~= r.approvals.subrange(0, p.approvals.len() as int)) by {
            assert forall|k: int| 0 <= k < p.approvals.len() implies p.approvals[k]
                == r.approvals[k] by {
                assert(p.approvals[k] == q.approvals.subrange(0, p.approvals.len() as int)[k]);
                assert(q.approvals[k] == r.approvals.subrange(0, q.approvals.len() as int)[k]);
            }
        }
    }
    assert(s.events =~= u.events.subrange(0, s.events.len() as int)) by {
        assert forall|k: int| 0 <= k < s.events.len() implies s.events[k] == u.events[k] by {
            assert(s.events[k] == t.events.subrange(0, s.events.len() as int)[k]);
            assert(t.events[k] == u.events.subrange(0, t.events.len() as int)[k]);
        }
    }
}

proof fn lemma_grows_into_itself(s: MultiSigView)
    ensures
        grows_into(s, s),
{
    assert forall|i: int| #![trigger s.proposals[i]]
        0 <= i < s.proposals.len() implies s.proposals[i].approvals.is_prefix_of(
        s.proposals[i].approvals,
    ) by {
        let a = s.proposals[i].approvals;
        assert(a =~= a.subrange(0, a.len() as int));
    }
    assert(s.events =~= s.events.subrange(0, s.events.len() as int));
}

/// Attempting any sequence of operations only lets the state grow: proposals
/// are only appended and keep their action, signer snapshot and threshold,
/// executed proposals stay as they are, the nonce never decreases and events
/// are only appended.
pub proof fn law_runs_only_grow_the_state(s: MultiSigView, ops: Seq<Operation>)
    ensures
        grows_into(s, run(s, ops)),
    decreases ops.len(),
{
    if ops.len() == 0 {
        lemma_grows_into_itself(s);
    } else {
        law_runs_only_grow_the_state(s, ops.drop_last());
        let m = run(s, ops.drop_last());
        let t = run(s, ops);
        match ops.last() {
            Operation::Propose { proposer, action } => {
                law_operations_only_grow_the_state(
                    m, proposer, action, 0, proposer, 0, proposer, proposer, Seq::empty(),
                    Seq::empty(), None,
                );
            },
            Operation::Approve { id, signer } => {
                law_operations_only_grow_the_state(
                    m, signer, arbitrary(), id, signer, 0, signer, signer,
                    Seq::empty(), Seq::empty(), None,
                );
            },
            Operation::Execute { id, action, nonce } => {
                law_operations_only_grow_the_state(
                    m, Seq::empty(), action, id, Seq::empty(), nonce, Seq::empty(), Seq::empty(),
                    Seq::empty(), Seq::empty(), None,
                );
            },
            Operation::RemoveSigner { caller, who } => {
                law_operations_only_grow_the_state(
                    m, caller, arbitrary(), 0, caller, 0, caller, who,
                    Seq::empty(), Seq::empty(), None,
                );
            },
            Operation::AddSigner { caller, who } => {
                law_operations_only_grow_the_state(
                    m, caller, arbitrary(), 0, caller, 0, caller, who,
                    Seq::empty(), Seq::empty(), None,
                );
            },
            Operation::RotateSigners { caller, add, remove, new_threshold } => {
                law_operations_only_grow_the_state(
                    m, caller, arbitrary(), 0, caller, 0, caller, caller,
                    add, remove, new_threshold,
                );
            },
        }
        if t == m {
            lemma_grows_into_itself(m);
        }
        law_growth_composes(s, m, t);
    }
}

/// A proposal keeps its id and the action it was proposed with through any
/// later sequence of operations, so reading its action back always gives the
/// proposed one.
pub proof fn law_proposed_action_persists(
    s: MultiSigView,
    proposer: Seq<char>,
    action: ProposalAction,
    ops: Seq<Operation>,
)
    requires
        s.proposals.len() < u64::MAX,
        s.propose_outcome(proposer, action) is Ok,
    ensures
        ({
            let id = s.next_id() as u64;
            let t = run(s.propose_outcome(proposer, action)->Ok_0, ops);
            &&& t.has_proposal(id)
            &&& t.proposal(id).action == action
        }),
{
    let p = s.propose_outcome(proposer, action)->Ok_0;
    law_runs_only_grow_the_state(p, ops);
    let t = run(p, ops);
    assert(t.proposals[s.proposals.len() as int].action == p.proposals[s.proposals.len() as int].action);
}

} // verus!
