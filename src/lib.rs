//! Replays deposits, withdrawals, disputes, resolves and chargebacks against
//! per-client accounts, keeping every balance exact and reporting each record
//! that the rules skip.

pub mod account;
pub mod amount;
pub mod transaction;
pub mod ledger;
pub mod engine;
