//! The request-level rules of the library: lending, returning, editing
//! records, member pages and searches.

pub mod cache;
pub mod edit;
pub mod member;
pub mod path;
pub mod search;
pub mod transaction;
pub mod work;
