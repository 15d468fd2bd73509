//! The decisions behind the member pages.

use vstd::prelude::*;
use crate::error::{outcome, BibError, BibErrorResponse};
use crate::item::{SystemSetting, User};
use crate::text::{decimal_string, decimal_text, replace_all, replace_text, same_text};
use crate::views::work::only_item;

verus! {

/// The sign-in form of a member.
#[derive(Debug, PartialEq, Eq)]
pub struct FormData1 {
    pub user_id: String,
    pub member_password: String,
}

/// The member that a lookup by identifier found: a failed lookup means the
/// member is not there, and anything but exactly one answer is a duplicate
/// (reported with `duplicate_code`).
pub fn single_user(found: Option<Vec<User>>, user_id: u32, duplicate_code: u32) -> (res: Result<
    User,
    BibErrorResponse,
>)
    ensures
        found is None ==> outcome(res) == Err::<User, BibError>(BibError::UserNotFound(user_id)),
        found matches Some(v) ==> (v@.len() != 1 ==> outcome(res) == Err::<User, BibError>(
            BibError::DataDuplicated(duplicate_code),
        )),
        found matches Some(v) ==> (v@.len() == 1 ==> res == Ok::<User, BibErrorResponse>(v@[0])),
{
    match found {
        None => Err(BibErrorResponse::UserNotFound(user_id)),
        Some(users) => match only_item(users) {
            Some(u) => Ok(u),
            None => Err(BibErrorResponse::DataDuplicated(duplicate_code)),
        },
    }
}

/// Admits a member who gives the member password of the library: the
/// settings lookup must succeed and find exactly one setting, whose
/// password matches; the answer is the database of the library.
pub fn admit_member(settings: Result<Vec<SystemSetting>, String>, password: &str) -> (res: Result<
    String,
    BibErrorResponse,
>)
    ensures
        settings matches Err(m) ==> outcome(res) == Err::<String, BibError>(
            BibError::DataNotFound(m@),
        ),
        settings matches Ok(v) ==> (v@.len() == 1 && v@[0].member_password@ == password@
            ==> res == Ok::<String, BibErrorResponse>(v@[0].dbname)),
        settings matches Ok(v) ==> (!(v@.len() == 1 && v@[0].member_password@ == password@)
            ==> outcome(res) == Err::<String, BibError>(BibError::LoginFailed)),
{
    match settings {
        Err(m) => Err(BibErrorResponse::DataNotFound(m)),
        Ok(found) => match only_item(found) {
            Some(setting) => {
                if same_text(setting.member_password.as_str(), password) {
                    Ok(setting.dbname)
                } else {
                    Err(BibErrorResponse::LoginFailed)
                }
            },
            None => Err(BibErrorResponse::LoginFailed),
        },
    }
}

/// The home page of a member: the page template with each `{{USER_ID}}`
/// replaced by the decimal identifier of the member.
pub fn render_member_home(page: &str, user_id: u32) -> (res: String)
    ensures
        res@ == replace_text(page@, "{{USER_ID}}"@, decimal_text(user_id as nat)),
{
    proof {
        reveal_strlit("{{USER_ID}}");
    }
    let id = decimal_string(user_id);
    replace_all(page, "{{USER_ID}}", id.as_str())
}

} // verus!
