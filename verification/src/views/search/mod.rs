//! Searching the records.

pub mod user;
