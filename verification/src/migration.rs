//! The one-off clean-up of book records: NUL characters are removed from
//! the character field.

use vstd::prelude::*;
use crate::item::Book;
use crate::text::{strip_nul, without_nul};

verus! {

/// Removes the NUL characters of the character field of a book; the answer
/// tells whether there were any, and only then does the record change.
pub fn clean_book_char(book: &mut Book) -> (found: bool)
    ensures
        found == old(book).char@.contains('\0'),
        found ==> final(book).char@ == without_nul(old(book).char@),
        found ==> *final(book) == (Book { char: final(book).char, ..*old(book) }),
        !found ==> *final(book) == *old(book),
{
    let (cleaned, found) = strip_nul(book.char.as_str());
    if found {
        book.char = cleaned;
    }
    found
}

} // verus!
