//! A ledger of shared expenses: groups of parties, the expenses posted
//! against them, and the debts between their members that follow.
//!
//! The ledger is one value, [`state::Ledger`], that every operation takes.
//! An operation that is rejected leaves it as it was. Amounts are `u128` in
//! minor units of one currency, times are nanoseconds, and parties go by the
//! canonical names that the identity service of the hosting runtime gives
//! them: a message carries each party as the service resolved it
//! ([`host::Resolved`]). Moving funds is asked of the runtime in the
//! response and never done here.
//!
//! Every contract speaks of the ledger's view, [`state::LedgerView`]: maps
//! from identifiers to records and from `(group, debtor, creditor)` to the
//! amount owed. [`laws`] holds what follows from the contracts for every
//! ledger and every call.
pub mod consistency;
pub mod contract;
pub mod error;
pub mod expenses;
pub mod host;
pub mod laws;
pub mod msg;
pub mod queries;
pub mod registry;
pub mod seqs;
pub mod settlement;
pub mod sorting;
pub mod state;
pub mod table;
pub mod text;

pub use crate::error::ContractError;
