use bib::error::BibErrorResponse;
use bib::item::{Book, BorrowedBook, RentalSetting, User};
use bib::views::cache::{BorrowInfo, Cache};
use bib::views::transaction::Transaction;
use bib::views::work::{
    borrow_precheck, borrower_to_load, lend, newest_first, only_item, parse_barcode, pick_book,
    pick_rental_setting, plan_work, take_back, FormData, WorkPlan, BOOK_BARCODE_KETA,
};

fn member(id: u32, loans: Vec<BorrowedBook>) -> User {
    User {
        id,
        name: "Hanako".to_string(),
        kana: "hanako".to_string(),
        category: "student".to_string(),
        grade: "3".to_string(),
        remark: String::new(),
        register_date: "2024/04/01".to_string(),
        borrowed_count: loans.len() as u32,
        reserved: String::new(),
        borrowed_books: loans,
    }
}

fn book(id: u32, title: &str) -> Book {
    Book {
        id,
        title: title.to_string(),
        location: "A".to_string(),
        category: "novel".to_string(),
        status: String::new(),
        author: "Soseki".to_string(),
        publisher: String::new(),
        published_date: String::new(),
        series: String::new(),
        volume: String::new(),
        page: String::new(),
        kana: String::new(),
        category_symbol: String::new(),
        library_symbol: String::new(),
        volume_symbol: String::new(),
        forbidden: String::new(),
        remark: String::new(),
        isbn: "978".to_string(),
        register_date: String::new(),
        register_type: String::new(),
        borrowed_count: 4,
        char: "ア".to_string(),
    }
}

fn loan(book_id: u32, transaction_id: u32, date: &str) -> BorrowedBook {
    BorrowedBook {
        book_id,
        book_title: format!("book {}", book_id),
        borrowed_date: date.to_string(),
        return_deadline: "2026/04/01".to_string(),
        transaction_id,
        char: String::new(),
    }
}

fn form(user_id: &str, borrowed: &str, returned: &str) -> FormData {
    FormData {
        user_id: user_id.to_string(),
        borrowed_book_id: borrowed.to_string(),
        returned_book_id: returned.to_string(),
    }
}

#[test]
fn a_form_with_only_a_returned_book_is_a_return() {
    assert_eq!(plan_work(&form("", "", "1234567")), Ok(WorkPlan::ReturnOnly));
}

#[test]
fn a_form_with_a_member_serves_that_member() {
    assert_eq!(
        plan_work(&form("12", "0000003", "")),
        Ok(WorkPlan::ForUser { user_id: 12, borrow: true, give_back: false })
    );
    assert_eq!(
        plan_work(&form("12", "", "5")),
        Ok(WorkPlan::ForUser { user_id: 12, borrow: false, give_back: true })
    );
    assert_eq!(
        plan_work(&form("12", "3", "5")),
        Ok(WorkPlan::ForUser { user_id: 12, borrow: true, give_back: true })
    );
}

#[test]
fn an_empty_form_is_refused_as_an_empty_number() {
    assert_eq!(
        plan_work(&form("", "", "")),
        Err(BibErrorResponse::InvalidArgument(
            "cannot parse integer from empty string".to_string()
        ))
    );
    assert_eq!(
        plan_work(&form("abc", "1", "")),
        Err(BibErrorResponse::InvalidArgument("invalid digit found in string".to_string()))
    );
}

#[test]
fn barcodes_starting_with_zero_have_seven_bytes() {
    assert_eq!(BOOK_BARCODE_KETA, 7);
    assert_eq!(parse_barcode("0123456"), Ok(123456));
    assert_eq!(parse_barcode("012"), Err(BibErrorResponse::InvalidArgument("012".to_string())));
    assert_eq!(
        parse_barcode("01234567"),
        Err(BibErrorResponse::InvalidArgument("01234567".to_string()))
    );
    assert_eq!(parse_barcode("123"), Ok(123));
    assert_eq!(
        parse_barcode("0ｘ"),
        Err(BibErrorResponse::InvalidArgument("0ｘ".to_string()))
    );
    assert_eq!(
        parse_barcode("0ｘｘ"),
        Err(BibErrorResponse::InvalidArgument("invalid digit found in string".to_string()))
    );
    assert_eq!(
        parse_barcode(""),
        Err(BibErrorResponse::InvalidArgument(
            "cannot parse integer from empty string".to_string()
        ))
    );
}

#[test]
fn members_at_the_limit_cannot_borrow() {
    let user = member(1, vec![loan(1, 1, "d"), loan(2, 2, "d")]);
    assert_eq!(borrow_precheck(&user, "5", 2), Err(BibErrorResponse::OverBorrowingLimit));
    assert_eq!(borrow_precheck(&user, "x", 2), Err(BibErrorResponse::OverBorrowingLimit));
    assert_eq!(borrow_precheck(&user, "5", 3), Ok(5));
    assert_eq!(borrow_precheck(&member(2, vec![]), "5", 0), Err(BibErrorResponse::OverBorrowingLimit));
}

#[test]
fn exactly_one_book_must_be_found() {
    assert_eq!(pick_book(None, 9), Err(BibErrorResponse::BookNotFound(9)));
    assert_eq!(pick_book(Some(vec![]), 9), Err(BibErrorResponse::DataDuplicated(9)));
    assert_eq!(
        pick_book(Some(vec![book(9, "a"), book(9, "b")]), 9),
        Err(BibErrorResponse::DataDuplicated(9))
    );
    assert_eq!(pick_book(Some(vec![book(9, "a")]), 9), Ok(book(9, "a")));
    assert_eq!(only_item(vec![1, 2]), None);
    assert_eq!(only_item(vec![3]), Some(3));
}

#[test]
fn exactly_one_rental_setting_must_be_found() {
    let setting = RentalSetting { id: 1, num_books: 3, num_days: 14 };
    assert_eq!(
        pick_rental_setting(Err("down".to_string())),
        Err(BibErrorResponse::DataNotFound("down".to_string()))
    );
    assert_eq!(pick_rental_setting(Ok(vec![])), Err(BibErrorResponse::DataDuplicated(0)));
    assert_eq!(pick_rental_setting(Ok(vec![setting.clone_setting()])), Ok(setting));
}

trait CloneSetting {
    fn clone_setting(&self) -> Self;
}

impl CloneSetting for RentalSetting {
    fn clone_setting(&self) -> Self {
        RentalSetting { id: self.id, num_books: self.num_books, num_days: self.num_days }
    }
}

#[test]
fn lending_adds_the_loan_and_counts_it() {
    let cache = Cache::new();
    let mut counter = Transaction::new(100, 41);
    let mut user = member(7, vec![loan(1, 3, "2026/01/01")]);
    let mut lent = book(20, "Kokoro");
    let result = lend(
        &cache,
        &mut counter,
        &mut user,
        &mut lent,
        20,
        "2026/03/10 10:00".to_string(),
        "2026/03/24".to_string(),
    );
    assert_eq!(result, Ok(42));
    assert_eq!(counter.counter, 42);
    assert_eq!(user.borrowed_books.len(), 2);
    assert_eq!(user.borrowed_count, 2);
    assert_eq!(
        user.borrowed_books[1],
        BorrowedBook {
            book_id: 20,
            book_title: "Kokoro".to_string(),
            borrowed_date: "2026/03/10 10:00".to_string(),
            return_deadline: "2026/03/24".to_string(),
            transaction_id: 42,
            char: "ア".to_string(),
        }
    );
    assert_eq!(lent.borrowed_count, 5);
    assert_eq!(lent.title, "Kokoro");
}

#[test]
fn a_book_that_is_out_is_not_lent_again() {
    let mut cache = Cache::new();
    cache.borrow(20, 3, "2026/03/01".to_string());
    let mut counter = Transaction::new(100, 41);
    let mut user = member(7, vec![]);
    let mut lent = book(20, "Kokoro");
    let result = lend(
        &cache,
        &mut counter,
        &mut user,
        &mut lent,
        20,
        "d".to_string(),
        "e".to_string(),
    );
    assert_eq!(result, Err(BibErrorResponse::BookNotReturned));
    assert_eq!(counter.counter, 41);
    assert_eq!(user, member(7, vec![]));
    assert_eq!(lent, book(20, "Kokoro"));
}

#[test]
fn lending_rotates_the_transaction_identifier() {
    let cache = Cache::new();
    let mut counter = Transaction::new(3, 3);
    let mut user = member(7, vec![]);
    let mut lent = book(20, "Kokoro");
    let id = lend(&cache, &mut counter, &mut user, &mut lent, 20, "d".to_string(), "e".to_string());
    assert_eq!(id, Ok(1));
}

#[test]
fn a_return_without_member_goes_to_the_holder() {
    let mut cache = Cache::new();
    cache.borrow(20, 33, "2026/03/01".to_string());
    let anyone = member(0, vec![]);
    assert_eq!(borrower_to_load(&cache, &anyone, &book(20, "x")), Ok(Some(33)));
    assert_eq!(
        borrower_to_load(&cache, &anyone, &book(21, "x")),
        Err(BibErrorResponse::BookNotBorrowed)
    );
    assert_eq!(borrower_to_load(&cache, &member(5, vec![]), &book(21, "x")), Ok(None));
}

#[test]
fn taking_back_removes_the_first_loan_of_the_book() {
    let mut user = member(7, vec![loan(1, 10, "a"), loan(2, 11, "b"), loan(2, 12, "c")]);
    let count = user.borrowed_count;
    assert_eq!(take_back(&mut user, 2), Ok((11, "b".to_string())));
    assert_eq!(user.borrowed_books, vec![loan(1, 10, "a"), loan(2, 12, "c")]);
    assert_eq!(user.borrowed_count, count);
}

#[test]
fn taking_back_a_book_not_held_is_refused() {
    let mut user = member(7, vec![loan(1, 10, "a")]);
    assert_eq!(take_back(&mut user, 3), Err(BibErrorResponse::BookNotBorrowed));
    assert_eq!(user, member(7, vec![loan(1, 10, "a")]));
}

#[test]
fn lend_then_take_back_restores_the_loans() {
    let mut cache = Cache::new();
    let mut counter = Transaction::new(1000, 0);
    let before = vec![loan(1, 10, "a"), loan(2, 11, "b")];
    let mut user = member(7, before.clone());
    let mut lent = book(30, "Sanshiro");
    let id = lend(&cache, &mut counter, &mut user, &mut lent, 30, "d".to_string(), "e".to_string())
        .unwrap();
    cache.borrow(lent.id, user.id, "e".to_string());
    assert_eq!(take_back(&mut user, 30), Ok((id, "d".to_string())));
    cache.unborrow(lent.id);
    assert_eq!(user.borrowed_books, before);
    assert!(cache.get(30).is_none());
}

#[test]
fn the_loans_are_listed_newest_first() {
    let loans = vec![loan(1, 10, "a"), loan(2, 11, "b"), loan(3, 12, "c")];
    assert_eq!(newest_first(&loans), vec![loan(3, 12, "c"), loan(2, 11, "b"), loan(1, 10, "a")]);
    assert_eq!(newest_first(&vec![]), vec![]);
}

#[test]
fn the_cache_answers_what_was_written() {
    let mut cache = Cache::new();
    assert!(cache.get(5).is_none());
    cache.borrow(5, 9, "2026/04/01".to_string());
    cache.borrow(6, 8, "2026/04/02".to_string());
    assert_eq!(
        cache.get(5),
        Some(BorrowInfo { owner_id: 9, return_deadline: "2026/04/01".to_string() })
    );
    cache.unborrow(5);
    assert!(cache.get(5).is_none());
    assert_eq!(cache.get(6).map(|i| i.owner_id), Some(8));
}
