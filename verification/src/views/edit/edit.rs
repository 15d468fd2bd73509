//! The decisions behind the record editing forms: whether a record may be
//! added, changed or removed, and what it becomes.

use vstd::prelude::*;
use crate::error::{outcome, BibError, BibErrorResponse};
use crate::item::{Book, User};
use crate::text::same_text;
use crate::views::cache::{BorrowInfo, Cache};

verus! {

/// The member form of the editing page.
#[derive(Debug, PartialEq, Eq)]
pub struct UpdateUserForm {
    pub user_id: String,
    pub user_name: String,
    pub user_kana: String,
    pub user_category: String,
    pub user_grade: String,
    pub user_remark: String,
    pub user_register_date: String,
}

/// The book form of the editing page.
#[derive(Debug, PartialEq, Eq)]
pub struct UpdateBookForm {
    pub book_id: String,
    pub book_title: String,
    pub book_location: String,
    pub book_category: String,
    pub book_status: String,
    pub book_author: String,
    pub book_publisher: String,
    pub book_published_date: String,
    pub book_series: String,
    pub book_volume: String,
    pub book_page: String,
    pub book_kana: String,
    pub book_category_symbol: String,
    pub book_library_symbol: String,
    pub book_volume_symbol: String,
    pub book_forbidden: String,
    pub book_remark: String,
    pub book_isbn: String,
    pub book_register_date: String,
    pub book_register_type: String,
}

/// What the lookup of a record by identifier found: the record, or, when
/// there is none, how many records of its kind are registered.
pub enum Lookup<T> {
    Found(T),
    Missing { registered: u32 },
}

/// The write that an edit comes down to.
#[derive(Debug, PartialEq, Eq, Structural)]
pub enum EditAction {
    Insert,
    Update,
    Delete,
}

/// The write that the operation names, for a record that holds `loans`
/// loans; a record with loans cannot be removed.
pub open spec fn user_edit_action(operation: Seq<char>, loans: nat) -> Result<EditAction, BibError> {
    if operation == "insert"@ {
        Ok(EditAction::Insert)
    } else if operation == "update"@ {
        Ok(EditAction::Update)
    } else if operation == "delete"@ {
        if loans > 0 {
            Err(BibError::NotPossibleToDelete)
        } else {
            Ok(EditAction::Delete)
        }
    } else {
        Err(BibError::NotImplemented)
    }
}

/// `after` is `before` with the profile of the form.
pub open spec fn user_from_form(after: User, before: User, form: UpdateUserForm) -> bool {
    &&& after.id == before.id
    &&& after.name == form.user_name
    &&& after.kana == form.user_kana
    &&& after.category == form.user_category
    &&& after.grade == form.user_grade
    &&& after.remark == form.user_remark
    &&& after.register_date == form.user_register_date
    &&& after.borrowed_count == before.borrowed_count
    &&& after.reserved == before.reserved
    &&& after.borrowed_books == before.borrowed_books
}

/// The result of an edit: the write and the record it writes, or a refusal.
pub open spec fn edit_matches<T>(
    res: Result<(EditAction, T), BibErrorResponse>,
    expected: Result<EditAction, BibError>,
    record: spec_fn(T) -> bool,
) -> bool {
    match expected {
        Ok(a) => res matches Ok(r) && r.0 == a && record(r.1),
        Err(e) => outcome(res) matches Err(err) && err == e,
    }
}

/// Decides a member edit. A found record cannot be added again; otherwise
/// it takes the profile of the form. A record that is not there is new,
/// unless `max_registered` members are registered already. Then the
/// operation names the write.
pub fn plan_user_edit(
    operation: &str,
    form: &UpdateUserForm,
    user_id: u32,
    lookup: Lookup<User>,
    max_registered: u32,
) -> (res: Result<(EditAction, User), BibErrorResponse>)
    ensures
        match lookup {
            Lookup::Found(before) => if operation@ == "insert"@ {
                outcome(res) == Err::<(EditAction, User), BibError>(
                    BibError::ItemAlreadyExists(before.id),
                )
            } else {
                edit_matches(
                    res,
                    user_edit_action(operation@, before.borrowed_books@.len()),
                    |u: User| user_from_form(u, before, *form),
                )
            },
            Lookup::Missing { registered } => if registered == max_registered {
                outcome(res) == Err::<(EditAction, User), BibError>(
                    BibError::ExceedLimit(registered),
                )
            } else {
                edit_matches(
                    res,
                    user_edit_action(operation@, 0),
                    |u: User|
                        u.is_fresh(
                            user_id,
                            form.user_name@,
                            form.user_kana@,
                            form.user_category@,
                            form.user_grade@,
                            form.user_remark@,
                            form.user_register_date@,
                        ),
                )
            },
        },
        res matches Ok(r) ==> (r.0 == EditAction::Delete ==> r.1.borrowed_books@.len() == 0
            && operation@ == "delete"@),
        operation@ == "delete"@ ==> (lookup matches Lookup::Found(before) ==> (
        before.borrowed_books@.len() > 0 ==> outcome(res) == Err::<(EditAction, User), BibError>(
            BibError::NotPossibleToDelete,
        ))),
{
    proof {
        lemma_operation_names_differ();
    }
    let user = match lookup {
        Lookup::Found(before) => {
            if same_text(operation, "insert") {
                return Err(BibErrorResponse::ItemAlreadyExists(before.id));
            }
            let mut user = before;
            user.name = form.user_name.clone();
            user.kana = form.user_kana.clone();
            user.category = form.user_category.clone();
            user.grade = form.user_grade.clone();
            user.remark = form.user_remark.clone();
            user.register_date = form.user_register_date.clone();
            user
        },
        Lookup::Missing { registered } => {
            if registered == max_registered {
                return Err(BibErrorResponse::ExceedLimit(registered));
            }
            User::blank(
                user_id,
                form.user_name.as_str(),
                form.user_kana.as_str(),
                form.user_category.as_str(),
                form.user_grade.as_str(),
                form.user_remark.as_str(),
                form.user_register_date.as_str(),
            )
        },
    };
    if same_text(operation, "insert") {
        Ok((EditAction::Insert, user))
    } else if same_text(operation, "update") {
        Ok((EditAction::Update, user))
    } else if same_text(operation, "delete") {
        if user.borrowed_books.len() > 0 {
            return Err(BibErrorResponse::NotPossibleToDelete);
        }
        Ok((EditAction::Delete, user))
    } else {
        Err(BibErrorResponse::NotImplemented)
    }
}


/// The write that the operation names for book `book_id`. Removing a book
/// needs the loan cache of the library, and a book that is out cannot be
/// removed.
pub open spec fn book_edit_action(
    operation: Seq<char>,
    loans: Option<Map<u32, BorrowInfo>>,
    book_id: u32,
) -> Result<EditAction, BibError> {
    if operation == "insert"@ {
        Ok(EditAction::Insert)
    } else if operation == "update"@ {
        Ok(EditAction::Update)
    } else if operation == "delete"@ {
        match loans {
            None => Err(BibError::NotAuthorized),
            Some(m) => if m.contains_key(book_id) {
                Err(BibError::NotPossibleToDelete)
            } else {
                Ok(EditAction::Delete)
            },
        }
    } else {
        Err(BibError::NotImplemented)
    }
}

/// The loans that a cache shows, when there is a cache.
pub open spec fn cache_loans(cache: Option<&Cache>) -> Option<Map<u32, BorrowInfo>> {
    match cache {
        Some(c) => Some(c@),
        None => None,
    }
}

/// `after` is `before` with the fields of the form; the identifier, the
/// ISBN, the loan count and the character field stay.
pub open spec fn book_from_form(after: Book, before: Book, form: UpdateBookForm) -> bool {
    after == Book {
        title: form.book_title,
        location: form.book_location,
        category: form.book_category,
        status: form.book_status,
        author: form.book_author,
        publisher: form.book_publisher,
        published_date: form.book_published_date,
        series: form.book_series,
        volume: form.book_volume,
        page: form.book_page,
        kana: form.book_kana,
        category_symbol: form.book_category_symbol,
        library_symbol: form.book_library_symbol,
        volume_symbol: form.book_volume_symbol,
        forbidden: form.book_forbidden,
        remark: form.book_remark,
        register_date: form.book_register_date,
        register_type: form.book_register_type,
        ..before
    }
}

/// `book` is a new record `book_id` with the fields of the form, the ISBN
/// included, no loans and an empty character field.
pub open spec fn new_book_from_form(book: Book, book_id: u32, form: UpdateBookForm) -> bool {
    &&& book == Book {
        id: book_id,
        title: form.book_title,
        location: form.book_location,
        category: form.book_category,
        status: form.book_status,
        author: form.book_author,
        publisher: form.book_publisher,
        published_date: form.book_published_date,
        series: form.book_series,
        volume: form.book_volume,
        page: form.book_page,
        kana: form.book_kana,
        category_symbol: form.book_category_symbol,
        library_symbol: form.book_library_symbol,
        volume_symbol: form.book_volume_symbol,
        forbidden: form.book_forbidden,
        remark: form.book_remark,
        isbn: form.book_isbn,
        register_date: form.book_register_date,
        register_type: form.book_register_type,
        borrowed_count: 0,
        char: book.char,
    }
    &&& book.char@ == Seq::<char>::empty()
}

fn new_book(book_id: u32, form: &UpdateBookForm) -> (res: Book)
    ensures
        new_book_from_form(res, book_id, *form),
{
    Book {
        id: book_id,
        title: form.book_title.clone(),
        location: form.book_location.clone(),
        category: form.book_category.clone(),
        status: form.book_status.clone(),
        author: form.book_author.clone(),
        publisher: form.book_publisher.clone(),
        published_date: form.book_published_date.clone(),
        series: form.book_series.clone(),
        volume: form.book_volume.clone(),
        page: form.book_page.clone(),
        kana: form.book_kana.clone(),
        category_symbol: form.book_category_symbol.clone(),
        library_symbol: form.book_library_symbol.clone(),
        volume_symbol: form.book_volume_symbol.clone(),
        forbidden: form.book_forbidden.clone(),
        remark: form.book_remark.clone(),
        isbn: form.book_isbn.clone(),
        register_date: form.book_register_date.clone(),
        register_type: form.book_register_type.clone(),
        borrowed_count: 0,
        char: String::new(),
    }
}

/// Decides a book edit, as a member edit is decided (the registered limit
/// of the library is the one for members); removing a book also needs the
/// loan cache of the library and the book not to be out.
pub fn plan_book_edit(
    operation: &str,
    form: &UpdateBookForm,
    book_id: u32,
    lookup: Lookup<Book>,
    max_registered: u32,
    cache: Option<&Cache>,
) -> (res: Result<(EditAction, Book), BibErrorResponse>)
    ensures
        match lookup {
            Lookup::Found(before) => if operation@ == "insert"@ {
                outcome(res) == Err::<(EditAction, Book), BibError>(
                    BibError::ItemAlreadyExists(before.id),
                )
            } else {
                edit_matches(
                    res,
                    book_edit_action(operation@, cache_loans(cache), before.id),
                    |b: Book| book_from_form(b, before, *form),
                )
            },
            Lookup::Missing { registered } => if registered == max_registered {
                outcome(res) == Err::<(EditAction, Book), BibError>(
                    BibError::ExceedLimit(registered),
                )
            } else {
                edit_matches(
                    res,
                    book_edit_action(operation@, cache_loans(cache), book_id),
                    |b: Book| new_book_from_form(b, book_id, *form),
                )
            },
        },
        operation@ == "update"@ ==> (lookup matches Lookup::Found(before) ==> (res matches Ok(r)
            && r.0 == EditAction::Update && book_from_form(r.1, before, *form))),
        operation@ == "update"@ ==> (lookup matches Lookup::Missing { registered } ==> (registered
            != max_registered ==> (res matches Ok(r) && r.0 == EditAction::Update
            && new_book_from_form(r.1, book_id, *form)))),
        res matches Err(e) ==> (e@ == BibError::NotPossibleToDelete ==> operation@ == "delete"@),
{
    proof {
        lemma_operation_names_differ();
    }
    let book = match lookup {
        Lookup::Found(before) => {
            if same_text(operation, "insert") {
                return Err(BibErrorResponse::ItemAlreadyExists(before.id));
            }
            let mut book = before;
            book.title = form.book_title.clone();
            book.location = form.book_location.clone();
            book.category = form.book_category.clone();
            book.status = form.book_status.clone();
            book.author = form.book_author.clone();
            book.publisher = form.book_publisher.clone();
            book.published_date = form.book_published_date.clone();
            book.series = form.book_series.clone();
            book.volume = form.book_volume.clone();
            book.page = form.book_page.clone();
            book.kana = form.book_kana.clone();
            book.category_symbol = form.book_category_symbol.clone();
            book.library_symbol = form.book_library_symbol.clone();
            book.volume_symbol = form.book_volume_symbol.clone();
            book.forbidden = form.book_forbidden.clone();
            book.remark = form.book_remark.clone();
            book.register_date = form.book_register_date.clone();
            book.register_type = form.book_register_type.clone();
            book
        },
        Lookup::Missing { registered } => {
            if registered == max_registered {
                return Err(BibErrorResponse::ExceedLimit(registered));
            }
            new_book(book_id, form)
        },
    };
    if same_text(operation, "insert") {
        Ok((EditAction::Insert, book))
    } else if same_text(operation, "update") {
        Ok((EditAction::Update, book))
    } else if same_text(operation, "delete") {
        match cache {
            None => Err(BibErrorResponse::NotAuthorized),
            Some(c) => {
                if c.get(book.id).is_some() {
                    return Err(BibErrorResponse::NotPossibleToDelete);
                }
                Ok((EditAction::Delete, book))
            },
        }
    } else {
        Err(BibErrorResponse::NotImplemented)
    }
}


/// The names of the edit operations are distinct texts.
proof fn lemma_operation_names_differ()
    ensures
        "insert"@ != "update"@,
        "insert"@ != "delete"@,
        "update"@ != "delete"@,
{
    reveal_strlit("insert");
    reveal_strlit("update");
    reveal_strlit("delete");
    assert("insert"@[0] != "update"@[0]);
    assert("insert"@[0] != "delete"@[0]);
    assert("update"@[0] != "delete"@[0]);
}

/// Removing a member who holds any loan is refused, and removal is the
/// answer only for a member who holds none, and only for `delete`.
pub proof fn lemma_member_with_loans_is_kept(operation: Seq<char>, loans: nat)
    ensures
        loans > 0 ==> user_edit_action("delete"@, loans) == Err::<EditAction, BibError>(
            BibError::NotPossibleToDelete,
        ),
        user_edit_action("delete"@, 0) == Ok::<EditAction, BibError>(EditAction::Delete),
        user_edit_action(operation, loans) == Ok::<EditAction, BibError>(EditAction::Delete) ==> loans
            == 0 && operation == "delete"@,
{
    lemma_operation_names_differ();
}

/// The loan cache only ever refuses the removal of a book: adding and
/// changing a book are answered whatever the cache holds, and removal is
/// refused exactly when the cache shows the book as out (or there is no
/// cache).
pub proof fn lemma_book_loans_only_refuse_delete(
    operation: Seq<char>,
    loans: Option<Map<u32, BorrowInfo>>,
    book_id: u32,
)
    ensures
        operation == "update"@ ==> book_edit_action(operation, loans, book_id) == Ok::<
            EditAction,
            BibError,
        >(EditAction::Update),
        operation == "insert"@ ==> book_edit_action(operation, loans, book_id) == Ok::<
            EditAction,
            BibError,
        >(EditAction::Insert),
        book_edit_action(operation, loans, book_id) == Err::<EditAction, BibError>(
            BibError::NotPossibleToDelete,
        ) ==> operation == "delete"@ && (loans matches Some(m) && m.contains_key(book_id)),
        operation == "delete"@ ==> (loans matches Some(m) ==> (book_edit_action(
            operation,
            loans,
            book_id,
        ) == Ok::<EditAction, BibError>(EditAction::Delete) <==> !m.contains_key(book_id))),
{
    lemma_operation_names_differ();
}

} // verus!
