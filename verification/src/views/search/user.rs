//! The member search form.

use vstd::prelude::*;
use crate::error::{id_outcome, outcome, parse_id, BibError, BibErrorResponse};
use crate::item::User;

verus! {

/// The member search form; an empty identifier searches all members.
#[derive(Debug, PartialEq, Eq)]
pub struct FormData {
    pub id: String,
    pub name: String,
    pub kana: String,
    pub category: String,
}

/// The identifier a member search looks for: `0`, meaning any, when the
/// form gives none.
pub open spec fn query_id(form: FormData) -> Result<u32, BibError> {
    if form.id@.len() == 0 {
        Ok(0)
    } else {
        id_outcome(form.id@)
    }
}

/// The member record that a search form stands for: the identifier and the
/// name, kana and category of the form, every other field empty.
pub fn user_query(form: &FormData) -> (res: Result<User, BibErrorResponse>)
    ensures
        match query_id(*form) {
            Ok(n) => res matches Ok(u) && u.is_fresh(
                n,
                form.name@,
                form.kana@,
                form.category@,
                Seq::<char>::empty(),
                Seq::<char>::empty(),
                Seq::<char>::empty(),
            ),
            Err(e) => outcome(res) == Err::<User, BibError>(e),
        },
{
    let id = if form.id.as_str().is_empty() {
        0
    } else {
        match parse_id(form.id.as_str()) {
            Ok(n) => n,
            Err(e) => return Err(e),
        }
    };
    proof {
        reveal_strlit("");
        assert(""@ =~= Seq::<char>::empty());
    }
    Ok(User::blank(id, form.name.as_str(), form.kana.as_str(), form.category.as_str(), "", "", ""))
}

} // verus!
