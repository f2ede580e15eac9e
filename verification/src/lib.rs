//! Verified core of the settlement contracts: an escrow switch, an M-of-N
//! multi-signature authority and a fee treasury.
//!
//! Each contract is a plain state value whose operations return either the
//! event to publish or a [`ContractError`].  Storage, authorisation and event
//! publication stay with the host that runs the contract.

pub mod address;
pub mod error;
pub mod escrow;
pub mod keyed;
pub mod multisig;
pub mod text;
pub mod treasury;

pub use address::Address;
pub use error::ContractError;
pub use escrow::EscrowContract;
pub use multisig::{MultisigAuthority, Proposal};
pub use treasury::{FeeSchedule, TreasuryContract, MAX_BASIS_POINTS, MAX_SINGLE_FEE_BP};
