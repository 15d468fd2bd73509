//! The loan cache: which book is out, with whom, and until when.

use vstd::prelude::*;
use std::collections::HashMap;

verus! {

broadcast use vstd::std_specs::hash::group_hash_axioms;

/// Who holds a book, and until when.
#[derive(Debug, PartialEq, Eq)]
pub struct BorrowInfo {
    pub owner_id: u32,
    pub return_deadline: String,
}

impl Clone for BorrowInfo {
    fn clone(&self) -> (res: Self)
        ensures
            res == *self,
    {
        BorrowInfo { owner_id: self.owner_id, return_deadline: self.return_deadline.clone() }
    }
}

/// The books that are out, keyed by book identifier.
pub struct Cache {
    loans: HashMap<u32, BorrowInfo>,
}

impl View for Cache {
    type V = Map<u32, BorrowInfo>;

    closed spec fn view(&self) -> Map<u32, BorrowInfo> {
        self.loans@
    }
}

impl Cache {
    /// A cache in which no book is out.
    pub fn new() -> (res: Cache)
        ensures
            res@ == Map::<u32, BorrowInfo>::empty(),
    {
        Cache { loans: HashMap::new() }
    }

    /// Who holds the book, if it is out.
    pub fn get(&self, book_id: u32) -> (res: Option<BorrowInfo>)
        ensures
            res == (if self@.contains_key(book_id) {
                Some(self@[book_id])
            } else {
                None::<BorrowInfo>
            }),
    {
        match self.loans.get(&book_id) {
            Some(info) => Some(info.clone()),
            None => None,
        }
    }

    /// Records that the book went out to `owner_id` until `return_deadline`.
    pub fn borrow(&mut self, book_id: u32, owner_id: u32, return_deadline: String)
        ensures
            final(self)@ == old(self)@.insert(
                book_id,
                BorrowInfo { owner_id, return_deadline },
            ),
    {
        self.loans.insert(book_id, BorrowInfo { owner_id, return_deadline });
    }

    /// Records that the book came back.
    pub fn unborrow(&mut self, book_id: u32)
        ensures
            final(self)@ == old(self)@.remove(book_id),
    {
        self.loans.remove(&book_id);
    }
}

/// What a read gives back of a write: right after a book goes out, the
/// cache answers with its holder and deadline; right after it comes back,
/// the cache answers that it is not out; every other book keeps its answer.
pub proof fn lemma_cache_read_after_write(
    before: Map<u32, BorrowInfo>,
    book_id: u32,
    info: BorrowInfo,
    other: u32,
)
    requires
        other != book_id,
    ensures
        before.insert(book_id, info).contains_key(book_id),
        before.insert(book_id, info)[book_id] == info,
        !before.remove(book_id).contains_key(book_id),
        before.insert(book_id, info).contains_key(other) == before.contains_key(other),
        before.insert(book_id, info).contains_key(other) ==> before.insert(book_id, info)[other]
            == before[other],
        before.remove(book_id).contains_key(other) == before.contains_key(other),
        before.remove(book_id).contains_key(other) ==> before.remove(book_id)[other]
            == before[other],
{
}

/// Lending a book that is not out and taking it back leaves the cache as
/// it was.
pub proof fn lemma_cache_borrow_then_unborrow(
    before: Map<u32, BorrowInfo>,
    book_id: u32,
    info: BorrowInfo,
)
    requires
        !before.contains_key(book_id),
    ensures
        before.insert(book_id, info).remove(book_id) == before,
{
    assert(before.insert(book_id, info).remove(book_id) =~= before);
}

} // verus!
