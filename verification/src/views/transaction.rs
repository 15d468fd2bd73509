//! Transaction numbering and the entries of the transaction log.

use vstd::prelude::*;
use crate::item::{Book, TransactionItem, User};

verus! {

/// The identifier that follows `counter` when identifiers rotate through
/// `1..=max_counter`: one more than the counter, taken modulo
/// `max_counter + 1`, with `0` skipped in favour of `1`.
pub open spec fn next_transaction_id(counter: int, max_counter: int) -> int {
    let r = (counter + 1) % (max_counter + 1);
    if r == 0 {
        1
    } else {
        r
    }
}

/// The identifier issued after `k` further loans, starting from `counter`.
pub open spec fn issued_after(counter: int, max_counter: int, k: nat) -> int
    decreases k,
{
    if k == 0 {
        counter
    } else {
        next_transaction_id(issued_after(counter, max_counter, (k - 1) as nat), max_counter)
    }
}

/// The transaction counter of one library database.
pub struct Transaction {
    /// The largest identifier; identifiers rotate back to 1 after it.
    pub max_counter: u32,
    /// The identifier issued last.
    pub counter: u32,
}

impl Transaction {
    /// The counter can be advanced without leaving `u32`.
    pub open spec fn can_advance(self) -> bool {
        &&& self.counter < u32::MAX
        &&& self.max_counter < u32::MAX
    }

    /// A counter that rotates through `1..=max_counter` and last issued
    /// `counter`.
    pub fn new(max_counter: u32, counter: u32) -> (res: Self)
        ensures
            res.max_counter == max_counter,
            res.counter == counter,
    {
        Transaction { max_counter, counter }
    }

    /// The counter to start from, given the identifier of the most recently
    /// borrowed transaction, if the log holds one.
    pub fn counter_from_latest(latest_id: Option<u32>) -> (res: u32)
        ensures
            res == (match latest_id {
                Some(id) => id,
                None => 0,
            }),
    {
        match latest_id {
            Some(id) => id,
            None => 0,
        }
    }

    /// Issues the identifier of a new loan and remembers it.
    pub fn issue_id(&mut self) -> (id: u32)
        requires
            old(self).can_advance(),
        ensures
            id == next_transaction_id(old(self).counter as int, old(self).max_counter as int),
            final(self).counter == id,
            final(self).max_counter == old(self).max_counter,
            final(self).can_advance(),
    {
        proof {
            lemma_next_id_bounds(self.counter as int, self.max_counter as int);
        }
        let mut id = (self.counter + 1) % (self.max_counter + 1);
        if id == 0 {
            id = 1;
        }
        self.counter = id;
        id
    }

    /// The log entry of a loan: the member and the book, the date the book
    /// went out, and no return yet.
    pub fn borrow_record(counter: u32, user: &User, book: &Book, borrowed_date: String) -> (res:
        TransactionItem)
        ensures
            res.id == counter,
            res.user_id == user.id,
            res.user_name == user.name,
            res.book_id == book.id,
            res.book_title == book.title,
            res.borrowed_date == borrowed_date,
            res.returned_date@ == Seq::<char>::empty(),
    {
        TransactionItem {
            id: counter,
            user_id: user.id,
            user_name: user.name.clone(),
            book_id: book.id,
            book_title: book.title.clone(),
            borrowed_date,
            returned_date: String::new(),
        }
    }

    /// The log entry of a return: the entry of the loan, now with the date
    /// the book came back.
    pub fn return_record(
        counter: u32,
        user: &User,
        book: &Book,
        borrowed_date: String,
        returned_date: String,
    ) -> (res: TransactionItem)
        ensures
            res.id == counter,
            res.user_id == user.id,
            res.user_name == user.name,
            res.book_id == book.id,
            res.book_title == book.title,
            res.borrowed_date == borrowed_date,
            res.returned_date == returned_date,
    {
        TransactionItem {
            id: counter,
            user_id: user.id,
            user_name: user.name.clone(),
            book_id: book.id,
            book_title: book.title.clone(),
            borrowed_date,
            returned_date,
        }
    }
}

/// An issued identifier lies in `1..=max_counter` (it is `1` when the
/// maximum is `0`), whatever the counter was.
pub proof fn lemma_next_id_bounds(counter: int, max_counter: int)
    requires
        0 <= counter,
        0 <= max_counter,
    ensures
        1 <= next_transaction_id(counter, max_counter),
        max_counter >= 1 ==> next_transaction_id(counter, max_counter) <= max_counter,
        max_counter == 0 ==> next_transaction_id(counter, max_counter) == 1,
{
    let r = (counter + 1) % (max_counter + 1);
    assert(0 <= r < max_counter + 1) by (nonlinear_arith)
        requires
            0 <= counter,
            0 <= max_counter,
            r == (counter + 1) % (max_counter + 1),
    ;
}

/// Identifiers rotate: after `c` in `0..max_counter` comes `c + 1`, and
/// after `max_counter` comes `1`.
pub proof fn lemma_next_id_rotates(counter: int, max_counter: int)
    requires
        0 <= counter <= max_counter,
    ensures
        counter < max_counter ==> next_transaction_id(counter, max_counter) == counter + 1,
        counter == max_counter ==> next_transaction_id(counter, max_counter) == 1,
{
    if counter < max_counter {
        assert((counter + 1) % (max_counter + 1) == counter + 1) by (nonlinear_arith)
            requires
                0 <= counter < max_counter,
        ;
    } else {
        assert((counter + 1) % (max_counter + 1) == 0) by (nonlinear_arith)
            requires
                counter == max_counter,
                0 <= counter,
        ;
    }
}

proof fn lemma_issued_after_closed_form(counter: int, max_counter: int, k: nat)
    requires
        1 <= counter <= max_counter,
    ensures
        issued_after(counter, max_counter, k) == (counter - 1 + k) % max_counter + 1,
    decreases k,
{
    if k > 0 {
        lemma_issued_after_closed_form(counter, max_counter, (k - 1) as nat);
        let prev = issued_after(counter, max_counter, (k - 1) as nat);
        let x = counter - 1 + (k - 1);
        assert(0 <= x % max_counter < max_counter) by (nonlinear_arith)
            requires
                max_counter >= 1,
                x >= 0,
        ;
        lemma_next_id_rotates(prev, max_counter);
        if x % max_counter < max_counter - 1 {
            assert((x + 1) % max_counter == x % max_counter + 1) by (nonlinear_arith)
                requires
                    max_counter >= 1,
                    x >= 0,
                    x % max_counter < max_counter - 1,
            ;
        } else {
            assert((x + 1) % max_counter == 0) by (nonlinear_arith)
                requires
                    max_counter >= 1,
                    x >= 0,
                    x % max_counter == max_counter - 1,
            ;
        }
    } else {
        assert((counter - 1) % max_counter == counter - 1) by (nonlinear_arith)
            requires
                1 <= counter <= max_counter,
        ;
    }
}

/// Over one full rotation no identifier is issued twice: starting from an
/// identifier `c` in `1..=max_counter`, the next `max_counter - 1` loans get
/// identifiers other than `c` and other than each other, and the loan after
/// them gets `c` again.
pub proof fn lemma_rotation_period(counter: int, max_counter: int, i: nat, j: nat)
    requires
        1 <= counter <= max_counter,
        i < j <= max_counter,
    ensures
        j < max_counter ==> issued_after(counter, max_counter, i) != issued_after(
            counter,
            max_counter,
            j,
        ),
        issued_after(counter, max_counter, max_counter as nat) == counter,
{
    lemma_issued_after_closed_form(counter, max_counter, i);
    lemma_issued_after_closed_form(counter, max_counter, j);
    lemma_issued_after_closed_form(counter, max_counter, max_counter as nat);
    let a = counter - 1 + i;
    let b = counter - 1 + j;
    if j < max_counter {
        assert(a % max_counter != b % max_counter) by (nonlinear_arith)
            requires
                0 <= counter - 1 < max_counter,
                0 <= i < j < max_counter,
                a == counter - 1 + i,
                b == counter - 1 + j,
        ;
    }
    assert((counter - 1 + max_counter) % max_counter == counter - 1) by (nonlinear_arith)
        requires
            0 <= counter - 1 < max_counter,
    ;
}

} // verus!
