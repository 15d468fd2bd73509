//! Adding, changing and removing member and book records.

pub mod edit;
