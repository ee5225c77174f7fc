use vstd::prelude::*;

use crate::address::{strkeys, Address};

verus! {

broadcast use vstd::array::group_array_axioms;

/// The action a proposal is bound to.
#[derive(Clone, Copy, Debug, PartialEq, Eq)]
pub enum ProposalAction {
    /// Replace the contract code by the WASM blob with this hash.
    Upgrade([u8; 32]),
}

/// Whether two 32-byte hashes are equal.
pub fn same_hash(a: &[u8; 32], b: &[u8; 32]) -> (same: bool)
    ensures
        same == (*a == *b),
{
    let mut i: usize = 0;
    while i < 32
        invariant
            i <= 32,
            forall|k: int| 0 <= k < i ==> a@[k] == b@[k],
        decreases 32 - i,
    {
        if a[i] != b[i] {
            assert(a@[i as int] != b@[i as int]);
            return false;
        }
        i += 1;
    }
    assert(a@ =~= b@);
    assert(*a =~= *b);
    true
}

impl ProposalAction {
    /// Whether two actions are the same action with the same payload.
    pub fn same_as(&self, other: &ProposalAction) -> (same: bool)
        ensures
            same == (*self == *other),
    {
        match self {
            ProposalAction::Upgrade(a) => match other {
                ProposalAction::Upgrade(b) => same_hash(a, b),
            },
        }
    }
}

/// Why a multisig operation was refused.
#[derive(Debug, Clone, Copy, PartialEq, Eq, Structural)]
pub enum MultiSigError {
    NotSigner,
    AlreadyApproved,
    ProposalNotFound,
    AlreadyExecuted,
    ThresholdNotMet,
    InvalidThreshold,
    ActionMismatch,
    NonceMismatch,
    /// Removing the signer would leave fewer signers than the configured
    /// threshold, making the multisig permanently un-executable.
    RemovalWouldBreakThreshold,
    AlreadySigner,
}

/// The signer set and the number of approvals a proposal needs.
pub struct MultiSigConfig {
    pub signers: Vec<Address>,
    pub threshold: u32,
}

/// The abstract signer configuration.
pub struct ConfigView {
    pub signers: Seq<Seq<char>>,
    pub threshold: u32,
}

impl View for MultiSigConfig {
    type V = ConfigView;

    open spec fn view(&self) -> ConfigView {
        ConfigView { signers: strkeys(self.signers@), threshold: self.threshold }
    }
}

/// A proposal, with the signer set and threshold in force when it was made.
pub struct Proposal {
    pub action: ProposalAction,
    pub approvals: Vec<Address>,
    pub executed: bool,
    pub signers: Vec<Address>,
    pub threshold: u32,
    /// Execution nonce consumed when this proposal was executed. `None` until
    /// execution succeeds; binds the proposal's execution record to a single,
    /// non-reusable nonce value.
    pub executed_nonce: Option<u64>,
}

/// The abstract proposal.
pub struct ProposalView {
    pub action: ProposalAction,
    pub approvals: Seq<Seq<char>>,
    pub executed: bool,
    pub signers: Seq<Seq<char>>,
    pub threshold: u32,
    pub executed_nonce: Option<u64>,
}

impl View for Proposal {
    type V = ProposalView;

    open spec fn view(&self) -> ProposalView {
        ProposalView {
            action: self.action,
            approvals: strkeys(self.approvals@),
            executed: self.executed,
            signers: strkeys(self.signers@),
            threshold: self.threshold,
            executed_nonce: self.executed_nonce,
        }
    }
}

/// What a successful operation reports, in the order it happened.
pub enum MultiSigEvent {
    /// A proposal was created.
    Proposed { proposal_id: u64 },
    /// An upgrade was proposed.
    UpgradeProposed { proposal_id: u64, proposer: Address, wasm_hash: [u8; 32] },
    /// A signer approved a proposal.
    Approved { proposal_id: u64, signer: Address },
    /// A signer approved an upgrade; `approval_count` counts the approvals so far.
    UpgradeApproved { proposal_id: u64, signer: Address, approval_count: usize },
    /// A proposal was executed, consuming `nonce`.
    Executed { proposal_id: u64, nonce: u64 },
    /// `caller` added `signer`; `threshold` is the threshold afterwards.
    SignerAdded { caller: Address, signer: Address, threshold: u32 },
    /// `caller` removed `signer`; `threshold` is the threshold afterwards.
    SignerRemoved { caller: Address, signer: Address, threshold: u32 },
    /// `caller` changed only the threshold, to `threshold`.
    ThresholdUpdated { caller: Address, threshold: u32 },
}

/// The abstract event.
pub enum EventView {
    Proposed { proposal_id: u64 },
    UpgradeProposed { proposal_id: u64, proposer: Seq<char>, wasm_hash: [u8; 32] },
    Approved { proposal_id: u64, signer: Seq<char> },
    UpgradeApproved { proposal_id: u64, signer: Seq<char>, approval_count: nat },
    Executed { proposal_id: u64, nonce: u64 },
    SignerAdded { caller: Seq<char>, signer: Seq<char>, threshold: u32 },
    SignerRemoved { caller: Seq<char>, signer: Seq<char>, threshold: u32 },
    ThresholdUpdated { caller: Seq<char>, threshold: u32 },
}

impl View for MultiSigEvent {
    type V = EventView;

    open spec fn view(&self) -> EventView {
        match self {
            MultiSigEvent::Proposed { proposal_id } => EventView::Proposed {
                proposal_id: *proposal_id,
            },
            MultiSigEvent::UpgradeProposed { proposal_id, proposer, wasm_hash } =>
                EventView::UpgradeProposed {
                proposal_id: *proposal_id,
                proposer: proposer@,
                wasm_hash: *wasm_hash,
            },
            MultiSigEvent::Approved { proposal_id, signer } => EventView::Approved {
                proposal_id: *proposal_id,
                signer: signer@,
            },
            MultiSigEvent::UpgradeApproved { proposal_id, signer, approval_count } =>
                EventView::UpgradeApproved {
                proposal_id: *proposal_id,
                signer: signer@,
                approval_count: *approval_count as nat,
            },
            MultiSigEvent::Executed { proposal_id, nonce } => EventView::Executed {
                proposal_id: *proposal_id,
                nonce: *nonce,
            },
            MultiSigEvent::SignerAdded { caller, signer, threshold } => EventView::SignerAdded {
                caller: caller@,
                signer: signer@,
                threshold: *threshold,
            },
            MultiSigEvent::SignerRemoved { caller, signer, threshold } =>
                EventView::SignerRemoved {
                caller: caller@,
                signer: signer@,
                threshold: *threshold,
            },
            MultiSigEvent::ThresholdUpdated { caller, threshold } => EventView::ThresholdUpdated {
                caller: caller@,
                threshold: *threshold,
            },
        }
    }
}

/// The abstract views of a list of proposals.
pub open spec fn proposal_views(ps: Seq<Proposal>) -> Seq<ProposalView> {
    Seq::new(ps.len(), |i: int| ps[i]@)
}

/// The abstract views of a list of events.
pub open spec fn event_views(es: Seq<MultiSigEvent>) -> Seq<EventView> {
    Seq::new(es.len(), |i: int| es[i]@)
}

} // verus!
