use bib::check_transaction_ids::{
    count_duplicated, find_conflicts, group_by_transaction, loan_entries, LoanEntry,
};
use bib::dump_transaction_ids::{
    count_in_range, distribution, distribution_ranges, duplicated_ids, id_range, sort_ids,
    transaction_ids, RangeCount,
};
use bib::fix_transaction_ids::{
    shift_transaction_ids, transaction_id_offset, DATE_0228, DATE_0307, OFFSET_0228,
    OFFSET_0307, RANGE_HI, RANGE_LO,
};
use bib::item::{Book, BorrowedBook, TransactionItem, User};
use bib::migration::clean_book_char;

fn loan(book_id: u32, transaction_id: u32, date: &str) -> BorrowedBook {
    BorrowedBook {
        book_id,
        book_title: format!("title {}", book_id),
        borrowed_date: date.to_string(),
        return_deadline: String::new(),
        transaction_id,
        char: String::new(),
    }
}

fn holder(id: u32, name: &str, loans: Vec<BorrowedBook>) -> User {
    let mut u = User::blank(id, name, "", "", "", "", "");
    u.borrowed_count = loans.len() as u32;
    u.borrowed_books = loans;
    u
}

fn record(id: u32, user_id: u32, book_id: u32) -> TransactionItem {
    TransactionItem {
        id,
        user_id,
        user_name: String::new(),
        book_id,
        book_title: String::new(),
        borrowed_date: String::new(),
        returned_date: String::new(),
    }
}

fn members() -> Vec<User> {
    vec![
        holder(1, "A", vec![loan(10, 5, "2026/02/14"), loan(11, 6, "2026/02/14")]),
        holder(2, "B", vec![]),
        holder(3, "C", vec![loan(12, 5, "2026/02/28")]),
    ]
}

#[test]
fn loans_are_listed_member_by_member() {
    let entries = loan_entries(&members());
    let ids: Vec<(u32, u32, u32)> =
        entries.iter().map(|e| (e.transaction_id, e.user_id, e.book_id)).collect();
    assert_eq!(ids, vec![(5, 1, 10), (6, 1, 11), (5, 3, 12)]);
    assert_eq!(entries[2].user_name, "C");
    assert_eq!(entries[2].book_title, "title 12");
    assert_eq!(entries[2].borrowed_date, "2026/02/28");
}

#[test]
fn loans_are_grouped_by_identifier() {
    let entries = loan_entries(&members());
    let groups = group_by_transaction(&entries);
    assert_eq!(groups.len(), 2);
    assert_eq!(groups[0].transaction_id, 5);
    assert_eq!(groups[0].entries.len(), 2);
    assert_eq!(groups[0].entries[1].user_id, 3);
    assert_eq!(groups[1].transaction_id, 6);
    assert_eq!(count_duplicated(&groups), 1);
    assert_eq!(duplicated_ids(&groups), vec![5]);
}

#[test]
fn conflicts_are_loans_that_disagree_with_the_log() {
    let entries = loan_entries(&members());
    let groups = group_by_transaction(&entries);
    let conflicts = find_conflicts(&groups[0], &vec![record(5, 1, 10)]);
    assert_eq!(conflicts.len(), 1);
    assert_eq!(conflicts[0].entry.user_id, 3);
    assert_eq!(conflicts[0].record.user_id, 1);
    let none = find_conflicts(&groups[1], &vec![record(6, 1, 11)]);
    assert!(none.is_empty());
    let both = find_conflicts(&groups[1], &vec![record(6, 2, 11), record(6, 1, 99)]);
    assert_eq!(both.len(), 2);
    assert!(find_conflicts(&groups[1], &vec![]).is_empty());
}

#[test]
fn identifiers_are_sorted_with_their_repeats() {
    assert_eq!(sort_ids(&vec![5, 1, 3, 1, 4000, 0]), vec![0, 1, 1, 3, 5, 4000]);
    assert_eq!(sort_ids(&vec![]), Vec::<u32>::new());
    let entries: Vec<LoanEntry> = loan_entries(&members());
    assert_eq!(transaction_ids(&entries), vec![5, 6, 5]);
}

#[test]
fn the_distribution_leaves_out_empty_ranges() {
    assert_eq!(distribution_ranges().len(), 9);
    let ids = vec![1, 99, 100, 1001, 1499, 1500, 50000, 50001];
    assert_eq!(count_in_range(&ids, 1000, 1500), 2);
    assert_eq!(
        distribution(&ids),
        vec![
            RangeCount { lo: 0, hi: 100, count: 2 },
            RangeCount { lo: 100, hi: 500, count: 1 },
            RangeCount { lo: 1000, hi: 1500, count: 2 },
            RangeCount { lo: 1500, hi: 2000, count: 1 },
            RangeCount { lo: 49000, hi: 50001, count: 1 },
        ]
    );
}

#[test]
fn smallest_and_largest_identifier() {
    assert_eq!(id_range(&vec![]), None);
    assert_eq!(id_range(&vec![7]), Some((7, 7)));
    assert_eq!(id_range(&vec![1300, 4, 2050, 4]), Some((4, 2050)));
}

#[test]
fn rotated_identifiers_move_by_the_date_of_the_loan() {
    assert_eq!((RANGE_LO, RANGE_HI, OFFSET_0228, OFFSET_0307), (1001, 1500, 1000, 2000));
    assert_eq!(DATE_0228, "2026/02/28");
    assert_eq!(DATE_0307, "2026/03/07");
    assert_eq!(transaction_id_offset(1001, "2026/03/07 10:00"), 2000);
    assert_eq!(transaction_id_offset(1500, "2026/02/28 18:00"), 1000);
    assert_eq!(transaction_id_offset(1200, "2026/02/14 09:00"), 0);
    assert_eq!(transaction_id_offset(1000, "2026/03/07"), 0);
    assert_eq!(transaction_id_offset(1501, "2026/03/07"), 0);
}

#[test]
fn shifting_twice_moves_no_further() {
    let mut books = vec![
        loan(1, 1001, "2026/03/07 11:00"),
        loan(2, 1289, "2026/02/28 12:00"),
        loan(3, 1100, "2026/02/14"),
        loan(4, 17, "2026/03/07"),
    ];
    assert!(shift_transaction_ids(&mut books));
    let ids: Vec<u32> = books.iter().map(|b| b.transaction_id).collect();
    assert_eq!(ids, vec![3001, 2289, 1100, 17]);
    assert_eq!(books[0].book_id, 1);
    assert_eq!(books[0].borrowed_date, "2026/03/07 11:00");
    let again = books.clone();
    assert!(!shift_transaction_ids(&mut books));
    assert_eq!(books, again);
}

fn book_with_char(c: &str) -> Book {
    Book {
        id: 1,
        title: "t".to_string(),
        location: String::new(),
        category: String::new(),
        status: String::new(),
        author: String::new(),
        publisher: String::new(),
        published_date: String::new(),
        series: String::new(),
        volume: String::new(),
        page: String::new(),
        kana: String::new(),
        category_symbol: String::new(),
        library_symbol: String::new(),
        volume_symbol: String::new(),
        forbidden: String::new(),
        remark: String::new(),
        isbn: String::new(),
        register_date: String::new(),
        register_type: String::new(),
        borrowed_count: 2,
        char: c.to_string(),
    }
}

#[test]
fn nul_characters_leave_the_character_field() {
    let mut b = book_with_char("ア\0イ\0");
    assert!(clean_book_char(&mut b));
    assert_eq!(b.char, "アイ");
    assert_eq!(b.char.as_bytes(), "アイ".as_bytes());
    assert!(!clean_book_char(&mut b));
    assert_eq!(b, book_with_char("アイ"));
}
