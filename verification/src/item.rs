//! The records of the library: members, books, the loans a member holds,
//! the transaction log, and the settings of a library database.

use vstd::prelude::*;
use crate::text::{atoi, parse_u32, ParseError};

verus! {

/// A book on loan, as the member's record keeps it.
#[derive(Debug, PartialEq, Eq)]
pub struct BorrowedBook {
    pub book_id: u32,
    pub book_title: String,
    pub borrowed_date: String,
    pub return_deadline: String,
    pub transaction_id: u32,
    pub char: String,
}

impl Clone for BorrowedBook {
    fn clone(&self) -> (res: Self)
        ensures
            res == *self,
    {
        BorrowedBook {
            book_id: self.book_id,
            book_title: self.book_title.clone(),
            borrowed_date: self.borrowed_date.clone(),
            return_deadline: self.return_deadline.clone(),
            transaction_id: self.transaction_id,
            char: self.char.clone(),
        }
    }
}

/// A member of the library.
#[derive(Debug, PartialEq, Eq)]
pub struct User {
    pub id: u32,
    pub name: String,
    pub kana: String,
    pub category: String,
    pub grade: String,
    pub remark: String,
    pub register_date: String,
    pub borrowed_count: u32,
    pub reserved: String,
    pub borrowed_books: Vec<BorrowedBook>,
}

impl Clone for User {
    fn clone(&self) -> (res: Self)
        ensures
            res.same_profile(*self),
            res.borrowed_count == self.borrowed_count,
            res.borrowed_books@ == self.borrowed_books@,
    {
        let books = self.borrowed_books.clone();
        assert(books@ =~= self.borrowed_books@);
        User {
            id: self.id,
            name: self.name.clone(),
            kana: self.kana.clone(),
            category: self.category.clone(),
            grade: self.grade.clone(),
            remark: self.remark.clone(),
            register_date: self.register_date.clone(),
            borrowed_count: self.borrowed_count,
            reserved: self.reserved.clone(),
            borrowed_books: books,
        }
    }
}

/// A book of the library.
#[derive(Debug, PartialEq, Eq)]
pub struct Book {
    pub id: u32,
    pub title: String,
    pub location: String,
    pub category: String,
    pub status: String,
    pub author: String,
    pub publisher: String,
    pub published_date: String,
    pub series: String,
    pub volume: String,
    pub page: String,
    pub kana: String,
    pub category_symbol: String,
    pub library_symbol: String,
    pub volume_symbol: String,
    pub forbidden: String,
    pub remark: String,
    pub isbn: String,
    pub register_date: String,
    pub register_type: String,
    pub borrowed_count: u32,
    pub char: String,
}

impl Clone for Book {
    fn clone(&self) -> (res: Self)
        ensures
            res == *self,
    {
        Book {
            id: self.id,
            title: self.title.clone(),
            location: self.location.clone(),
            category: self.category.clone(),
            status: self.status.clone(),
            author: self.author.clone(),
            publisher: self.publisher.clone(),
            published_date: self.published_date.clone(),
            series: self.series.clone(),
            volume: self.volume.clone(),
            page: self.page.clone(),
            kana: self.kana.clone(),
            category_symbol: self.category_symbol.clone(),
            library_symbol: self.library_symbol.clone(),
            volume_symbol: self.volume_symbol.clone(),
            forbidden: self.forbidden.clone(),
            remark: self.remark.clone(),
            isbn: self.isbn.clone(),
            register_date: self.register_date.clone(),
            register_type: self.register_type.clone(),
            borrowed_count: self.borrowed_count,
            char: self.char.clone(),
        }
    }
}

/// One entry of the transaction log: a loan, and its return once the book
/// is back (`returned_date` is empty while it is out).
#[derive(Debug, PartialEq, Eq)]
pub struct TransactionItem {
    pub id: u32,
    pub user_id: u32,
    pub user_name: String,
    pub book_id: u32,
    pub book_title: String,
    pub borrowed_date: String,
    pub returned_date: String,
}

impl Clone for TransactionItem {
    fn clone(&self) -> (res: Self)
        ensures
            res == *self,
    {
        TransactionItem {
            id: self.id,
            user_id: self.user_id,
            user_name: self.user_name.clone(),
            book_id: self.book_id,
            book_title: self.book_title.clone(),
            borrowed_date: self.borrowed_date.clone(),
            returned_date: self.returned_date.clone(),
        }
    }
}

/// The settings of one library database.
#[derive(Debug, PartialEq, Eq)]
pub struct SystemSetting {
    pub id: u32,
    pub dbname: String,
    pub member_password: String,
    pub time_zone: String,
    pub max_registered_users: u32,
}

/// The lending rules of one library database.
#[derive(Debug, PartialEq, Eq)]
pub struct RentalSetting {
    pub id: u32,
    pub num_books: u32,
    pub num_days: u32,
}

impl User {
    /// A member record holding only the given profile: no loans, nothing
    /// reserved, a zero loan count.
    pub open spec fn is_fresh(
        self,
        id: u32,
        name: Seq<char>,
        kana: Seq<char>,
        category: Seq<char>,
        grade: Seq<char>,
        remark: Seq<char>,
        register_date: Seq<char>,
    ) -> bool {
        &&& self.id == id
        &&& self.name@ == name
        &&& self.kana@ == kana
        &&& self.category@ == category
        &&& self.grade@ == grade
        &&& self.remark@ == remark
        &&& self.register_date@ == register_date
        &&& self.borrowed_count == 0
        &&& self.reserved@ == Seq::<char>::empty()
        &&& self.borrowed_books@ == Seq::<BorrowedBook>::empty()
    }

    /// The two records agree on everything but the loans and the loan count.
    pub open spec fn same_profile(self, other: User) -> bool {
        &&& self.id == other.id
        &&& self.name == other.name
        &&& self.kana == other.kana
        &&& self.category == other.category
        &&& self.grade == other.grade
        &&& self.remark == other.remark
        &&& self.register_date == other.register_date
        &&& self.reserved == other.reserved
    }

    /// A member record with the given identifier and profile and no loans.
    pub fn blank(
        id: u32,
        name: &str,
        kana: &str,
        category: &str,
        grade: &str,
        remark: &str,
        register_date: &str,
    ) -> (res: User)
        ensures
            res.is_fresh(id, name@, kana@, category@, grade@, remark@, register_date@),
    {
        User {
            id,
            name: String::from_str(name),
            kana: String::from_str(kana),
            category: String::from_str(category),
            grade: String::from_str(grade),
            remark: String::from_str(remark),
            register_date: String::from_str(register_date),
            borrowed_count: 0,
            reserved: String::new(),
            borrowed_books: Vec::new(),
        }
    }

    /// A new member record from the texts of a form; the identifier is read
    /// as a decimal number.
    pub fn new(
        id: &str,
        name: &str,
        kana: &str,
        category: &str,
        grade: &str,
        remark: &str,
        register_date: &str,
    ) -> (res: Result<User, ParseError>)
        ensures
            match parse_u32(id@) {
                Ok(n) => res matches Ok(u) && u.is_fresh(
                    n,
                    name@,
                    kana@,
                    category@,
                    grade@,
                    remark@,
                    register_date@,
                ),
                Err(e) => res == Err::<User, ParseError>(e),
            },
    {
        match atoi(id) {
            Ok(n) => Ok(User::blank(n, name, kana, category, grade, remark, register_date)),
            Err(e) => Err(e),
        }
    }
}

} // verus!
