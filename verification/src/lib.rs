//! A small account ledger: it replays an ordered stream of transactions
//! (deposits, withdrawals, disputes, resolutions, chargebacks) against a set
//! of per-client accounts and renders the final balances as a report.

pub mod client;
pub mod laws;
pub mod parse;
pub mod processing;
pub mod render;
pub mod style;
pub mod transaction;
