//! A verified ledger of owner-tagged book entries.
//!
//! The ledger assigns strictly increasing identities through a sequence
//! counter, enforces owner authorization on mutation, and serves paginated
//! listings in ascending id order.

pub mod contract;
pub mod error;
pub mod laws;
pub mod msg;
pub mod state;

pub use error::ContractError;
