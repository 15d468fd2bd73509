//! Lending and returning books at the counter.

use vstd::prelude::*;
use crate::error::{id_outcome, outcome, parse_id, BibError, BibErrorResponse};
use crate::item::{Book, BorrowedBook, RentalSetting, User};
use crate::text::starts_with;
use crate::views::cache::Cache;
use crate::views::transaction::{next_transaction_id, Transaction};

verus! {

/// The length in bytes of a barcode that starts with `0`.
pub const BOOK_BARCODE_KETA: usize = 7;

/// The form of the lending counter: a member, a book to lend, a book to
/// take back; each may be empty.
#[derive(Debug, PartialEq, Eq)]
pub struct FormData {
    pub user_id: String,
    pub borrowed_book_id: String,
    pub returned_book_id: String,
}

/// What a counter form asks for.
#[derive(Debug, PartialEq, Eq, Structural)]
pub enum WorkPlan {
    /// Take a book back from whoever holds it.
    ReturnOnly,
    /// Serve the member `user_id`: lend a book, take one back, or both, in
    /// that order.
    ForUser { user_id: u32, borrow: bool, give_back: bool },
}

/// The form names only a book to take back.
pub open spec fn is_return_only(form: FormData) -> bool {
    &&& form.user_id@.len() == 0
    &&& form.borrowed_book_id@.len() == 0
    &&& form.returned_book_id@.len() > 0
}

/// What the form asks for, or the refusal of a member identifier that is
/// not a number.
pub open spec fn work_plan(form: FormData) -> Result<WorkPlan, BibError> {
    if is_return_only(form) {
        Ok(WorkPlan::ReturnOnly)
    } else {
        match id_outcome(form.user_id@) {
            Ok(n) => Ok(
                WorkPlan::ForUser {
                    user_id: n,
                    borrow: form.borrowed_book_id@.len() > 0,
                    give_back: form.returned_book_id@.len() > 0,
                },
            ),
            Err(e) => Err(e),
        }
    }
}

/// Decides what a counter form asks for.
pub fn plan_work(form: &FormData) -> (res: Result<WorkPlan, BibErrorResponse>)
    ensures
        outcome(res) == work_plan(*form),
{
    if form.user_id.as_str().is_empty() && form.borrowed_book_id.as_str().is_empty()
        && !form.returned_book_id.as_str().is_empty() {
        return Ok(WorkPlan::ReturnOnly);
    }
    let user_id = parse_id(&form.user_id)?;
    Ok(
        WorkPlan::ForUser {
            user_id,
            borrow: !form.borrowed_book_id.as_str().is_empty(),
            give_back: !form.returned_book_id.as_str().is_empty(),
        },
    )
}

/// A barcode that starts with `0` must be exactly `BOOK_BARCODE_KETA`
/// bytes long.
pub open spec fn barcode_rejected(barcode: &str) -> bool {
    &&& "0"@.is_prefix_of(barcode@)
    &&& barcode.len() != BOOK_BARCODE_KETA
}

/// The book identifier that a barcode names, or its refusal.
pub open spec fn barcode_outcome(barcode: &str) -> Result<u32, BibError> {
    if barcode_rejected(barcode) {
        Err(BibError::InvalidArgument(barcode@))
    } else {
        id_outcome(barcode@)
    }
}

/// A barcode that starts with `0` and is not `BOOK_BARCODE_KETA` bytes
/// long is refused with its own text; any other barcode names the book its
/// number names.
pub proof fn lemma_barcode_rule(barcode: &str)
    ensures
        "0"@.is_prefix_of(barcode@) && barcode.len() != 7 ==> barcode_outcome(barcode) == Err::<
            u32,
            BibError,
        >(BibError::InvalidArgument(barcode@)),
        !("0"@.is_prefix_of(barcode@) && barcode.len() != 7) ==> barcode_outcome(barcode)
            == id_outcome(barcode@),
{
}

/// A counter form with no member and no book to lend but a book to take
/// back is a plain return; any other form serves the member its identifier
/// names, lending when a book to lend is given and taking back when a book
/// to take back is given.
pub proof fn lemma_work_plan_rule(form: FormData)
    ensures
        work_plan(form) == Ok::<WorkPlan, BibError>(WorkPlan::ReturnOnly) <==> (form.user_id@.len()
            == 0 && form.borrowed_book_id@.len() == 0 && form.returned_book_id@.len() > 0),
        work_plan(form) matches Ok(WorkPlan::ForUser { user_id, borrow, give_back }) ==> (
        id_outcome(form.user_id@) == Ok::<u32, BibError>(user_id) && borrow == (
        form.borrowed_book_id@.len() > 0) && give_back == (form.returned_book_id@.len() > 0)),
        !(form.user_id@.len() == 0 && form.borrowed_book_id@.len() == 0
            && form.returned_book_id@.len() > 0) ==> (id_outcome(form.user_id@) matches Err(e)
            ==> work_plan(form) == Err::<WorkPlan, BibError>(e)),
{
}

/// Reads the book identifier of a barcode.
pub fn parse_barcode(barcode: &str) -> (res: Result<u32, BibErrorResponse>)
    ensures
        outcome(res) == barcode_outcome(barcode),
{
    if starts_with(barcode, "0") && barcode.len() != BOOK_BARCODE_KETA {
        return Err(BibErrorResponse::InvalidArgument(String::from_str(barcode)));
    }
    parse_id(barcode)
}

/// The checks made before a book is looked up for lending: the member must
/// hold fewer than `max_books` books, then the barcode must name a book.
pub fn borrow_precheck(user: &User, barcode: &str, max_books: u32) -> (res: Result<
    u32,
    BibErrorResponse,
>)
    requires
        user.borrowed_books@.len() <= u32::MAX,
    ensures
        user.borrowed_books@.len() >= max_books ==> outcome(res) == Err::<u32, BibError>(
            BibError::OverBorrowingLimit,
        ),
        user.borrowed_books@.len() < max_books ==> outcome(res) == barcode_outcome(barcode),
{
    let held = user.borrowed_books.len() as u32;
    if held >= max_books {
        return Err(BibErrorResponse::OverBorrowingLimit);
    }
    parse_barcode(barcode)
}

/// The only item of a query's answer, when there is exactly one.
pub fn only_item<T>(items: Vec<T>) -> (res: Option<T>)
    ensures
        items@.len() == 1 ==> res == Some(items@[0]),
        items@.len() != 1 ==> res is None,
{
    let mut items = items;
    if items.len() == 1 {
        items.pop()
    } else {
        None
    }
}

/// The book that a lookup by identifier found: a failed lookup means the
/// book is not there, and anything but exactly one answer is a duplicate.
pub fn pick_book(found: Option<Vec<Book>>, book_id: u32) -> (res: Result<Book, BibErrorResponse>)
    ensures
        found is None ==> outcome(res) == Err::<Book, BibError>(BibError::BookNotFound(book_id)),
        found matches Some(v) && v@.len() != 1 ==> outcome(res) == Err::<Book, BibError>(
            BibError::DataDuplicated(book_id),
        ),
        found matches Some(v) ==> (v@.len() == 1 ==> res == Ok::<Book, BibErrorResponse>(v@[0])),
{
    match found {
        None => Err(BibErrorResponse::BookNotFound(book_id)),
        Some(books) => match only_item(books) {
            Some(book) => Ok(book),
            None => Err(BibErrorResponse::DataDuplicated(book_id)),
        },
    }
}

/// The lending rules of the library database: a failed lookup means they
/// are not there, and anything but exactly one answer is a duplicate.
pub fn pick_rental_setting(found: Result<Vec<RentalSetting>, String>) -> (res: Result<
    RentalSetting,
    BibErrorResponse,
>)
    ensures
        found matches Err(m) ==> outcome(res) == Err::<RentalSetting, BibError>(
            BibError::DataNotFound(m@),
        ),
        found matches Ok(v) && v@.len() != 1 ==> outcome(res) == Err::<RentalSetting, BibError>(
            BibError::DataDuplicated(0),
        ),
        found matches Ok(v) ==> (v@.len() == 1 ==> res == Ok::<RentalSetting, BibErrorResponse>(
            v@[0],
        )),
{
    match found {
        Err(m) => Err(BibErrorResponse::DataNotFound(m)),
        Ok(settings) => match only_item(settings) {
            Some(s) => Ok(s),
            None => Err(BibErrorResponse::DataDuplicated(0)),
        },
    }
}

/// The loan a member's record gets when `book` goes out under transaction
/// `transaction_id`.
pub open spec fn loan_entry(
    book_id: u32,
    book: Book,
    borrowed_date: String,
    return_deadline: String,
    transaction_id: u32,
) -> BorrowedBook {
    BorrowedBook {
        book_id,
        book_title: book.title,
        borrowed_date,
        return_deadline,
        transaction_id,
        char: book.char,
    }
}

/// Lends `book` (looked up by `book_id`) to `user`: a book that the cache
/// shows as out is refused and nothing changes; otherwise a transaction
/// identifier is issued, the loan is added to the member's record, and the
/// loan counts of the member and of the book go up by one.
pub fn lend(
    cache: &Cache,
    transaction: &mut Transaction,
    user: &mut User,
    book: &mut Book,
    book_id: u32,
    borrowed_date: String,
    return_deadline: String,
) -> (res: Result<u32, BibErrorResponse>)
    requires
        old(transaction).can_advance(),
        old(user).borrowed_count < u32::MAX,
        old(book).borrowed_count < u32::MAX,
    ensures
        cache@.contains_key(old(book).id) ==> {
            &&& outcome(res) == Err::<u32, BibError>(BibError::BookNotReturned)
            &&& *final(transaction) == *old(transaction)
            &&& *final(user) == *old(user)
            &&& *final(book) == *old(book)
        },
        !cache@.contains_key(old(book).id) ==> {
            let id = next_transaction_id(
                old(transaction).counter as int,
                old(transaction).max_counter as int,
            );
            &&& res == Ok::<u32, BibErrorResponse>(id as u32)
            &&& final(transaction).counter == id
            &&& final(transaction).max_counter == old(transaction).max_counter
            &&& final(user).borrowed_books@ == old(user).borrowed_books@.push(
                loan_entry(book_id, *old(book), borrowed_date, return_deadline, id as u32),
            )
            &&& final(user).borrowed_books@.len() == old(user).borrowed_books@.len() + 1
            &&& final(user).borrowed_count == old(user).borrowed_count + 1
            &&& final(user).same_profile(*old(user))
            &&& *final(book) == Book { borrowed_count: (old(book).borrowed_count + 1) as u32, ..*old(book) }
        },
{
    if cache.get(book.id).is_some() {
        return Err(BibErrorResponse::BookNotReturned);
    }
    let transaction_id = transaction.issue_id();
    let loan = BorrowedBook {
        book_id,
        book_title: book.title.clone(),
        borrowed_date,
        return_deadline,
        transaction_id,
        char: book.char.clone(),
    };
    user.borrowed_books.push(loan);
    user.borrowed_count = user.borrowed_count + 1;
    book.borrowed_count = book.borrowed_count + 1;
    Ok(transaction_id)
}


/// Whose record to take a book back from: the member of the form, or, when
/// the form names none (identifier `0`), whoever the cache shows holding
/// the book; a book the cache does not show as out is refused.
pub fn borrower_to_load(cache: &Cache, user: &User, book: &Book) -> (res: Result<
    Option<u32>,
    BibErrorResponse,
>)
    ensures
        user.id != 0 ==> res == Ok::<Option<u32>, BibErrorResponse>(None),
        user.id == 0 && cache@.contains_key(book.id) ==> res == Ok::<
            Option<u32>,
            BibErrorResponse,
        >(Some(cache@[book.id].owner_id)),
        user.id == 0 && !cache@.contains_key(book.id) ==> outcome(res) == Err::<
            Option<u32>,
            BibError,
        >(BibError::BookNotBorrowed),
{
    if user.id != 0 {
        return Ok(None);
    }
    match cache.get(book.id) {
        Some(info) => Ok(Some(info.owner_id)),
        None => Err(BibErrorResponse::BookNotBorrowed),
    }
}

/// The position of the first loan of book `book_id` in `loans`, or the
/// length of `loans` when there is none.
pub open spec fn first_loan(loans: Seq<BorrowedBook>, book_id: u32) -> int
    decreases loans.len(),
{
    if loans.len() == 0 {
        0
    } else if loans[0].book_id == book_id {
        0
    } else {
        1 + first_loan(loans.drop_first(), book_id)
    }
}

/// `first_loan` is the position of the first loan of the book.
pub proof fn lemma_first_loan(loans: Seq<BorrowedBook>, book_id: u32, i: int)
    requires
        0 <= i <= loans.len(),
        forall|j: int| 0 <= j < i ==> loans[j].book_id != book_id,
        i == loans.len() || loans[i].book_id == book_id,
    ensures
        first_loan(loans, book_id) == i,
    decreases i,
{
    if i > 0 {
        let rest = loans.drop_first();
        assert forall|j: int| 0 <= j < i - 1 implies rest[j].book_id != book_id by {
            assert(rest[j] == loans[j + 1]);
        }
        if i - 1 < rest.len() {
            assert(rest[i - 1] == loans[i]);
        }
        lemma_first_loan(rest, book_id, i - 1);
    }
}

/// Takes the book back from the member: the first loan of the book leaves
/// the member's record, and its transaction identifier and borrowing date
/// are handed back; a member who holds no such loan is refused and the
/// record stays as it was. The loan count of the member does not change.
pub fn take_back(user: &mut User, book_id: u32) -> (res: Result<(u32, String), BibErrorResponse>)
    ensures
        ({
            let loans = old(user).borrowed_books@;
            let k = first_loan(loans, book_id);
            &&& k < loans.len() ==> {
                &&& res matches Ok(r) && r.0 == loans[k].transaction_id && r.1
                    == loans[k].borrowed_date
                &&& final(user).borrowed_books@ == loans.remove(k)
                &&& final(user).borrowed_books@.len() == loans.len() - 1
                &&& final(user).borrowed_count == old(user).borrowed_count
                &&& final(user).same_profile(*old(user))
            }
            &&& k >= loans.len() ==> {
                &&& outcome(res) == Err::<(u32, String), BibError>(BibError::BookNotBorrowed)
                &&& *final(user) == *old(user)
            }
        }),
{
    let n = user.borrowed_books.len();
    let mut i: usize = 0;
    while i < n
        invariant
            n == user.borrowed_books@.len(),
            i <= n,
            *user == *old(user),
            forall|j: int| 0 <= j < i ==> user.borrowed_books@[j].book_id != book_id,
        decreases n - i,
    {
        if user.borrowed_books[i].book_id == book_id {
            proof {
                lemma_first_loan(user.borrowed_books@, book_id, i as int);
            }
            let loan = user.borrowed_books.remove(i);
            return Ok((loan.transaction_id, loan.borrowed_date));
        }
        i = i + 1;
    }
    proof {
        lemma_first_loan(user.borrowed_books@, book_id, n as int);
    }
    Err(BibErrorResponse::BookNotBorrowed)
}

/// The loans of a member, most recent first.
pub fn newest_first(loans: &Vec<BorrowedBook>) -> (res: Vec<BorrowedBook>)
    ensures
        res@ == loans@.reverse(),
{
    let n = loans.len();
    let mut res: Vec<BorrowedBook> = Vec::new();
    let mut i: usize = n;
    while i > 0
        invariant
            n == loans@.len(),
            i <= n,
            res@.len() == n - i,
            forall|j: int| 0 <= j < n - i ==> res@[j] == loans@[n - 1 - j],
        decreases i,
    {
        i = i - 1;
        res.push(loans[i].clone());
    }
    assert(res@ =~= loans@.reverse());
    res
}

/// Taking back a book right after lending it restores the member's loans,
/// when the member held no other loan of that book: the loan added last is
/// the first loan of the book.
pub proof fn lemma_lend_then_take_back(loans: Seq<BorrowedBook>, loan: BorrowedBook)
    requires
        forall|j: int| 0 <= j < loans.len() ==> loans[j].book_id != loan.book_id,
    ensures
        first_loan(loans.push(loan), loan.book_id) == loans.len(),
        loans.push(loan).remove(loans.len() as int) == loans,
{
    let grown = loans.push(loan);
    assert forall|j: int| 0 <= j < loans.len() implies grown[j].book_id != loan.book_id by {
        assert(grown[j] == loans[j]);
    }
    lemma_first_loan(grown, loan.book_id, loans.len() as int);
    assert(grown.remove(loans.len() as int) =~= loans);
}

/// A member who passes the lending check (holds fewer than `max_books`
/// loans) holds at most `max_books` loans once the book is lent.
pub proof fn lemma_lending_respects_limit(loans: Seq<BorrowedBook>, loan: BorrowedBook, max_books: u32)
    requires
        loans.len() < max_books,
    ensures
        loans.push(loan).len() <= max_books,
{
}

} // verus!
