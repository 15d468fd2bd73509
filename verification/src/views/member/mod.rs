//! The member pages: signing in, the member's loans, the home page.

pub mod member;
