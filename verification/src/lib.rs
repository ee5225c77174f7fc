//! A threshold multi-signature scheme for approving and executing contract
//! upgrades: a signer set proposes actions, signers approve them, and an
//! action runs once it has gathered enough approvals and the caller presents
//! the current execution nonce.
//!
//! - `address`: account and contract identities, and list operations on them;
//! - `types`: configuration, proposals, errors and events, with their views;
//! - `model`: the abstract state and what each operation does to it;
//! - `multisig`: the executable multisig, proved against `model`;
//! - `laws`: properties that span operations, proved over `model`;
//! - `operation_laws`: what each operation does, stated over its inputs and
//!   the state's fields, proved over `model`.

pub mod address;
pub mod laws;
pub mod model;
pub mod multisig;
pub mod operation_laws;
pub mod types;

pub use address::Address;
pub use multisig::MultiSig;
pub use types::{MultiSigConfig, MultiSigError, MultiSigEvent, Proposal, ProposalAction};
