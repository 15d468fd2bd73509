use bib::item::{Book, User};
use bib::views::transaction::Transaction;

fn blank_book(id: u32, title: &str) -> Book {
    Book {
        id,
        title: title.to_string(),
        location: String::new(),
        category: String::new(),
        status: String::new(),
        author: String::new(),
        publisher: String::new(),
        published_date: String::new(),
        series: String::new(),
        volume: String::new(),
        page: String::new(),
        kana: String::new(),
        category_symbol: String::new(),
        library_symbol: String::new(),
        volume_symbol: String::new(),
        forbidden: String::new(),
        remark: String::new(),
        isbn: String::new(),
        register_date: String::new(),
        register_type: String::new(),
        borrowed_count: 0,
        char: String::new(),
    }
}

#[test]
fn new_counter_keeps_its_values() {
    let t = Transaction::new(50000, 17);
    assert_eq!(t.max_counter, 50000);
    assert_eq!(t.counter, 17);
}

#[test]
fn identifiers_rotate_through_one_to_max() {
    let mut t = Transaction::new(3, 1);
    let ids: Vec<u32> = (0..6).map(|_| t.issue_id()).collect();
    assert_eq!(ids, vec![2, 3, 1, 2, 3, 1]);
}

#[test]
fn one_rotation_issues_each_identifier_once_and_returns() {
    let mut t = Transaction::new(5, 2);
    let ids: Vec<u32> = (0..5).map(|_| t.issue_id()).collect();
    assert_eq!(ids, vec![3, 4, 5, 1, 2]);
    assert_eq!(t.counter, 2);
}

#[test]
fn a_counter_beyond_the_maximum_is_brought_back() {
    let mut t = Transaction::new(3, 10);
    assert_eq!(t.issue_id(), 3);
    let mut t = Transaction::new(3, 7);
    assert_eq!(t.issue_id(), 1);
    let mut t = Transaction::new(0, 5);
    assert_eq!(t.issue_id(), 1);
    assert_eq!(t.issue_id(), 1);
}

#[test]
fn the_counter_starts_from_the_latest_loan() {
    assert_eq!(Transaction::counter_from_latest(Some(1289)), 1289);
    assert_eq!(Transaction::counter_from_latest(None), 0);
}

#[test]
fn log_entries_of_loans_and_returns() {
    let user = User::blank(4, "Taro", "taro", "", "", "", "");
    let book = blank_book(8, "Botchan");
    let out = Transaction::borrow_record(12, &user, &book, "2026/03/10 09:00".to_string());
    assert_eq!(out.id, 12);
    assert_eq!(out.user_id, 4);
    assert_eq!(out.user_name, "Taro");
    assert_eq!(out.book_id, 8);
    assert_eq!(out.book_title, "Botchan");
    assert_eq!(out.borrowed_date, "2026/03/10 09:00");
    assert_eq!(out.returned_date, "");
    let back = Transaction::return_record(
        12,
        &user,
        &book,
        "2026/03/10 09:00".to_string(),
        "2026/03/17 15:30".to_string(),
    );
    assert_eq!(back.returned_date, "2026/03/17 15:30");
    assert_eq!(back.borrowed_date, "2026/03/10 09:00");
    assert_eq!(back.id, 12);
}
