//! Lending logic of a small library system: member and book records, the
//! loan cache, transaction numbering, and the maintenance passes over loan
//! records, each stated as a contract over mathematical models.

pub mod text;
pub mod error;
pub mod item;
pub mod views;
pub mod check_transaction_ids;
pub mod dump_transaction_ids;
pub mod fix_transaction_ids;
pub mod migration;
