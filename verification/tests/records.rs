use bib::error::BibErrorResponse;
use bib::item::{Book, BorrowedBook, SystemSetting, User};
use bib::views::cache::Cache;
use bib::views::edit::edit::{
    plan_book_edit, plan_user_edit, EditAction, Lookup, UpdateBookForm, UpdateUserForm,
};
use bib::views::member::member::{admit_member, render_member_home, single_user, FormData1};
use bib::views::path::Path;
use bib::views::search::user::{user_query, FormData};

fn user_form(id: &str) -> UpdateUserForm {
    UpdateUserForm {
        user_id: id.to_string(),
        user_name: "Jiro".to_string(),
        user_kana: "jiro".to_string(),
        user_category: "staff".to_string(),
        user_grade: "2".to_string(),
        user_remark: "new".to_string(),
        user_register_date: "2026/03/01".to_string(),
    }
}

fn stored_user(id: u32, loans: usize) -> User {
    let mut u = User::blank(id, "Old", "old", "student", "1", "", "2020/01/01");
    for k in 0..loans {
        u.borrowed_books.push(BorrowedBook {
            book_id: k as u32,
            book_title: String::new(),
            borrowed_date: String::new(),
            return_deadline: String::new(),
            transaction_id: k as u32,
            char: String::new(),
        });
    }
    u.borrowed_count = 9;
    u.reserved = "r".to_string();
    u
}

fn book_form(id: &str) -> UpdateBookForm {
    UpdateBookForm {
        book_id: id.to_string(),
        book_title: "T".to_string(),
        book_location: "L".to_string(),
        book_category: "C".to_string(),
        book_status: "S".to_string(),
        book_author: "A".to_string(),
        book_publisher: "P".to_string(),
        book_published_date: "PD".to_string(),
        book_series: "SE".to_string(),
        book_volume: "V".to_string(),
        book_page: "PG".to_string(),
        book_kana: "K".to_string(),
        book_category_symbol: "CS".to_string(),
        book_library_symbol: "LS".to_string(),
        book_volume_symbol: "VS".to_string(),
        book_forbidden: "F".to_string(),
        book_remark: "R".to_string(),
        book_isbn: "ISBN-NEW".to_string(),
        book_register_date: "RD".to_string(),
        book_register_type: "RT".to_string(),
    }
}

fn stored_book(id: u32) -> Book {
    Book {
        id,
        title: "old".to_string(),
        location: String::new(),
        category: String::new(),
        status: String::new(),
        author: String::new(),
        publisher: String::new(),
        published_date: String::new(),
        series: String::new(),
        volume: String::new(),
        page: String::new(),
        kana: String::new(),
        category_symbol: String::new(),
        library_symbol: String::new(),
        volume_symbol: String::new(),
        forbidden: String::new(),
        remark: String::new(),
        isbn: "ISBN-OLD".to_string(),
        register_date: String::new(),
        register_type: String::new(),
        borrowed_count: 3,
        char: "c".to_string(),
    }
}

#[test]
fn a_found_member_cannot_be_added_again() {
    let r = plan_user_edit("insert", &user_form("5"), 5, Lookup::Found(stored_user(5, 0)), 10);
    assert_eq!(r, Err(BibErrorResponse::ItemAlreadyExists(5)));
}

#[test]
fn a_found_member_takes_the_profile_of_the_form() {
    let (action, user) =
        plan_user_edit("update", &user_form("5"), 5, Lookup::Found(stored_user(5, 2)), 10).unwrap();
    assert_eq!(action, EditAction::Update);
    assert_eq!(user.id, 5);
    assert_eq!(user.name, "Jiro");
    assert_eq!(user.grade, "2");
    assert_eq!(user.register_date, "2026/03/01");
    assert_eq!(user.borrowed_count, 9);
    assert_eq!(user.reserved, "r");
    assert_eq!(user.borrowed_books.len(), 2);
}

#[test]
fn a_member_with_loans_cannot_be_removed() {
    let r = plan_user_edit("delete", &user_form("5"), 5, Lookup::Found(stored_user(5, 1)), 10);
    assert_eq!(r, Err(BibErrorResponse::NotPossibleToDelete));
    let (action, _) =
        plan_user_edit("delete", &user_form("5"), 5, Lookup::Found(stored_user(5, 0)), 10).unwrap();
    assert_eq!(action, EditAction::Delete);
}

#[test]
fn a_new_member_needs_room() {
    let r = plan_user_edit("insert", &user_form("6"), 6, Lookup::Missing { registered: 10 }, 10);
    assert_eq!(r, Err(BibErrorResponse::ExceedLimit(10)));
    let r = plan_user_edit("update", &user_form("6"), 6, Lookup::Missing { registered: 10 }, 10);
    assert_eq!(r, Err(BibErrorResponse::ExceedLimit(10)));
    let (action, user) =
        plan_user_edit("insert", &user_form("6"), 6, Lookup::Missing { registered: 9 }, 10)
            .unwrap();
    assert_eq!(action, EditAction::Insert);
    assert_eq!(user, User::blank(6, "Jiro", "jiro", "staff", "2", "new", "2026/03/01"));
    let r = plan_user_edit("insert", &user_form("6"), 6, Lookup::Missing { registered: 11 }, 10);
    assert!(r.is_ok());
}

#[test]
fn an_unknown_operation_is_not_implemented() {
    let r = plan_user_edit("merge", &user_form("5"), 5, Lookup::Found(stored_user(5, 0)), 10);
    assert_eq!(r, Err(BibErrorResponse::NotImplemented));
}

#[test]
fn a_found_book_keeps_its_isbn_on_update() {
    let (action, b) =
        plan_book_edit("update", &book_form("7"), 7, Lookup::Found(stored_book(7)), 10, None)
            .unwrap();
    assert_eq!(action, EditAction::Update);
    assert_eq!(b.title, "T");
    assert_eq!(b.register_type, "RT");
    assert_eq!(b.isbn, "ISBN-OLD");
    assert_eq!(b.borrowed_count, 3);
    assert_eq!(b.char, "c");
}

#[test]
fn a_new_book_takes_every_field_of_the_form() {
    let (action, b) =
        plan_book_edit("insert", &book_form("8"), 8, Lookup::Missing { registered: 0 }, 10, None)
            .unwrap();
    assert_eq!(action, EditAction::Insert);
    assert_eq!(b.id, 8);
    assert_eq!(b.isbn, "ISBN-NEW");
    assert_eq!(b.borrowed_count, 0);
    assert_eq!(b.char, "");
}

#[test]
fn removing_a_book_needs_the_cache_and_the_book_in() {
    let r = plan_book_edit("delete", &book_form("7"), 7, Lookup::Found(stored_book(7)), 10, None);
    assert_eq!(r, Err(BibErrorResponse::NotAuthorized));
    let mut cache = Cache::new();
    cache.borrow(7, 1, "d".to_string());
    let r = plan_book_edit(
        "delete",
        &book_form("7"),
        7,
        Lookup::Found(stored_book(7)),
        10,
        Some(&cache),
    );
    assert_eq!(r, Err(BibErrorResponse::NotPossibleToDelete));
    cache.unborrow(7);
    let (action, _) = plan_book_edit(
        "delete",
        &book_form("7"),
        7,
        Lookup::Found(stored_book(7)),
        10,
        Some(&cache),
    )
    .unwrap();
    assert_eq!(action, EditAction::Delete);
    let r = plan_book_edit("insert", &book_form("7"), 7, Lookup::Found(stored_book(7)), 10, None);
    assert_eq!(r, Err(BibErrorResponse::ItemAlreadyExists(7)));
    let r = plan_book_edit("insert", &book_form("9"), 9, Lookup::Missing { registered: 10 }, 10, None);
    assert_eq!(r, Err(BibErrorResponse::ExceedLimit(10)));
}

#[test]
fn exactly_one_member_must_be_found() {
    assert_eq!(single_user(None, 4, 0), Err(BibErrorResponse::UserNotFound(4)));
    assert_eq!(single_user(Some(vec![]), 4, 0), Err(BibErrorResponse::DataDuplicated(0)));
    assert_eq!(
        single_user(Some(vec![stored_user(4, 0), stored_user(4, 0)]), 4, 4),
        Err(BibErrorResponse::DataDuplicated(4))
    );
    assert_eq!(single_user(Some(vec![stored_user(4, 0)]), 4, 0), Ok(stored_user(4, 0)));
}

fn setting(password: &str) -> SystemSetting {
    SystemSetting {
        id: 1,
        dbname: "library-a".to_string(),
        member_password: password.to_string(),
        time_zone: "Asia/Tokyo".to_string(),
        max_registered_users: 500,
    }
}

#[test]
fn members_sign_in_with_the_member_password() {
    let form = FormData1 { user_id: "4".to_string(), member_password: "open".to_string() };
    assert_eq!(admit_member(Ok(vec![setting("open")]), &form.member_password), Ok("library-a".to_string()));
    assert_eq!(admit_member(Ok(vec![setting("shut")]), "open"), Err(BibErrorResponse::LoginFailed));
    assert_eq!(
        admit_member(Ok(vec![setting("open"), setting("open")]), "open"),
        Err(BibErrorResponse::LoginFailed)
    );
    assert_eq!(admit_member(Ok(vec![]), "open"), Err(BibErrorResponse::LoginFailed));
    assert_eq!(
        admit_member(Err("no db".to_string()), "open"),
        Err(BibErrorResponse::DataNotFound("no db".to_string()))
    );
}

#[test]
fn the_home_page_carries_the_member_identifier() {
    assert_eq!(
        render_member_home("<p>{{USER_ID}}</p><a href=\"/u/{{USER_ID}}\">", 1289),
        "<p>1289</p><a href=\"/u/1289\">"
    );
    assert_eq!(render_member_home("{{USER_ID}}", 0), "0");
    assert_eq!(render_member_home("no id", 5), "no id");
}

#[test]
fn a_search_form_becomes_a_query_record() {
    let form = FormData {
        id: String::new(),
        name: "Ha".to_string(),
        kana: "ha".to_string(),
        category: "student".to_string(),
    };
    assert_eq!(user_query(&form), Ok(User::blank(0, "Ha", "ha", "student", "", "", "")));
    let form = FormData { id: "12".to_string(), ..form };
    assert_eq!(user_query(&form).map(|u| u.id), Ok(12));
    let form = FormData { id: "1x".to_string(), ..form };
    assert_eq!(
        user_query(&form),
        Err(BibErrorResponse::InvalidArgument("invalid digit found in string".to_string()))
    );
}

#[test]
fn new_member_record_reads_its_identifier() {
    let u = User::new("42", "N", "n", "c", "g", "r", "d").unwrap();
    assert_eq!(u.id, 42);
    assert_eq!(u.borrowed_books.len(), 0);
    assert!(User::new("", "", "", "", "", "", "").is_err());
}

#[test]
fn route_paths_join_the_prefix() {
    let p = Path { prefix: "/member".to_string() };
    assert_eq!(p.define("/borrowed-books".to_string()), "/member/borrowed-books");
}
