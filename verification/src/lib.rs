//! An owner-gated distribution ledger: a finite token supply, per-account
//! balances, and a mutable recipient list, with bulk distribution of tokens
//! to every recipient at once.

pub mod account;
pub mod audit;
pub mod balances;
pub mod laws;
pub mod ledger;
pub mod registry;
