//! The one-off shift of rotated transaction identifiers: identifiers of the
//! range that rotated more than once are moved to a range of their own,
//! chosen by the date the loan was made.

use vstd::prelude::*;
use crate::item::BorrowedBook;
use crate::text::starts_with;

verus! {

/// The lowest identifier of the rotated range.
pub const RANGE_LO: u32 = 1001;

/// The highest identifier of the rotated range.
pub const RANGE_HI: u32 = 1500;

/// The date prefix of the second rotation.
pub const DATE_0228: &'static str = "2026/02/28";

/// The date prefix of the third rotation.
pub const DATE_0307: &'static str = "2026/03/07";

/// The shift of the identifiers of the second rotation.
pub const OFFSET_0228: u32 = 1000;

/// The shift of the identifiers of the third rotation.
pub const OFFSET_0307: u32 = 2000;

/// How far the identifier of a loan made on `borrowed_date` moves: only
/// identifiers of the rotated range move, by `OFFSET_0307` for loans of
/// the third rotation and by `OFFSET_0228` for loans of the second; the
/// others stay.
pub open spec fn shift_of(transaction_id: u32, borrowed_date: Seq<char>) -> u32 {
    if transaction_id < RANGE_LO || transaction_id > RANGE_HI {
        0
    } else if DATE_0307@.is_prefix_of(borrowed_date) {
        OFFSET_0307
    } else if DATE_0228@.is_prefix_of(borrowed_date) {
        OFFSET_0228
    } else {
        0
    }
}

/// How far the identifier of a loan made on `borrowed_date` moves.
pub fn transaction_id_offset(transaction_id: u32, borrowed_date: &str) -> (res: u32)
    ensures
        res == shift_of(transaction_id, borrowed_date@),
        res > 0 ==> RANGE_LO <= transaction_id <= RANGE_HI,
        res > 0 ==> DATE_0307@.is_prefix_of(borrowed_date@) || DATE_0228@.is_prefix_of(
            borrowed_date@,
        ),
        res == OFFSET_0307 <==> (RANGE_LO <= transaction_id <= RANGE_HI
            && DATE_0307@.is_prefix_of(borrowed_date@)),
        res == OFFSET_0228 <==> (RANGE_LO <= transaction_id <= RANGE_HI
            && !DATE_0307@.is_prefix_of(borrowed_date@) && DATE_0228@.is_prefix_of(
            borrowed_date@,
        )),
        res == 0 || res == OFFSET_0228 || res == OFFSET_0307,
{
    if transaction_id < RANGE_LO || transaction_id > RANGE_HI {
        return 0;
    }
    if starts_with(borrowed_date, DATE_0307) {
        OFFSET_0307
    } else if starts_with(borrowed_date, DATE_0228) {
        OFFSET_0228
    } else {
        0
    }
}

/// `after` is `before` with its identifier shifted.
pub open spec fn shifted(after: BorrowedBook, before: BorrowedBook) -> bool {
    after == BorrowedBook {
        transaction_id: (before.transaction_id + shift_of(
            before.transaction_id,
            before.borrowed_date@,
        )) as u32,
        ..before
    }
}

/// Shifts the identifiers of a member's loans; the answer tells whether any
/// identifier moved.
pub fn shift_transaction_ids(books: &mut Vec<BorrowedBook>) -> (modified: bool)
    ensures
        final(books)@.len() == old(books)@.len(),
        forall|k: int| 0 <= k < old(books)@.len() ==> shifted(#[trigger] final(books)@[k], old(books)@[k]),
        modified == exists|k: int|
            0 <= k < old(books)@.len() && #[trigger] shift_of(
                old(books)@[k].transaction_id,
                old(books)@[k].borrowed_date@,
            ) > 0,
{
    let n = books.len();
    let mut modified = false;
    let mut i: usize = 0;
    while i < n
        invariant
            n == books@.len(),
            n == old(books)@.len(),
            i <= n,
            forall|k: int| 0 <= k < i ==> shifted(#[trigger] books@[k], old(books)@[k]),
            forall|k: int| i <= k < n ==> books@[k] == old(books)@[k],
            modified == exists|k: int|
                0 <= k < i && #[trigger] shift_of(
                    old(books)@[k].transaction_id,
                    old(books)@[k].borrowed_date@,
                ) > 0,
        decreases n - i,
    {
        let offset = transaction_id_offset(books[i].transaction_id, books[i].borrowed_date.as_str());
        if offset > 0 {
            let book = &mut books[i];
            book.transaction_id = book.transaction_id + offset;
            modified = true;
        }
        assert(shifted(books@[i as int], old(books)@[i as int]));
        i = i + 1;
    }
    modified
}

/// Only loans of the rotated range dated on one of the two rotation days
/// move: by `OFFSET_0307` for a date beginning with `DATE_0307`, else by
/// `OFFSET_0228` for a date beginning with `DATE_0228`; a loan of any other
/// date, or an identifier outside the range, stays.
pub proof fn lemma_shift_only_on_rotation_days(transaction_id: u32, borrowed_date: Seq<char>)
    ensures
        shift_of(transaction_id, borrowed_date) > 0 ==> RANGE_LO <= transaction_id <= RANGE_HI,
        shift_of(transaction_id, borrowed_date) > 0 ==> DATE_0307@.is_prefix_of(borrowed_date)
            || DATE_0228@.is_prefix_of(borrowed_date),
        !DATE_0307@.is_prefix_of(borrowed_date) && !DATE_0228@.is_prefix_of(borrowed_date)
            ==> shift_of(transaction_id, borrowed_date) == 0,
        RANGE_LO <= transaction_id <= RANGE_HI && DATE_0307@.is_prefix_of(borrowed_date)
            ==> shift_of(transaction_id, borrowed_date) == OFFSET_0307,
        RANGE_LO <= transaction_id <= RANGE_HI && !DATE_0307@.is_prefix_of(borrowed_date)
            && DATE_0228@.is_prefix_of(borrowed_date) ==> shift_of(transaction_id, borrowed_date)
            == OFFSET_0228,
        !(RANGE_LO <= transaction_id <= RANGE_HI) ==> shift_of(transaction_id, borrowed_date)
            == 0,
{
}

/// The shift is done once: a shifted identifier leaves the rotated range,
/// so shifting it again moves it no further.
pub proof fn lemma_shift_once(transaction_id: u32, borrowed_date: Seq<char>)
    ensures
        shift_of(
            (transaction_id + shift_of(transaction_id, borrowed_date)) as u32,
            borrowed_date,
        ) == 0 || shift_of(transaction_id, borrowed_date) == 0,
{
}

/// A shifted identifier lands in the range of its rotation:
/// `RANGE_LO + OFFSET ..= RANGE_HI + OFFSET`, which lies above the rotated
/// range.
pub proof fn lemma_shift_target(transaction_id: u32, borrowed_date: Seq<char>)
    requires
        shift_of(transaction_id, borrowed_date) > 0,
    ensures
        RANGE_LO + shift_of(transaction_id, borrowed_date) <= transaction_id + shift_of(
            transaction_id,
            borrowed_date,
        ) <= RANGE_HI + shift_of(transaction_id, borrowed_date),
        transaction_id + shift_of(transaction_id, borrowed_date) > RANGE_HI,
{
}

} // verus!
