//! The errors that the lending rules answer a refused request with.

use vstd::prelude::*;
use crate::text::ParseError;

verus! {

/// The answer to a refused request.
#[derive(Debug, PartialEq, Eq)]
pub enum BibErrorResponse {
    NotAuthorized,
    LoginFailed,
    DataNotFound(String),
    DataDuplicated(u32),
    UserNotFound(u32),
    BookNotFound(u32),
    InvalidArgument(String),
    SystemError(String),
    OverBorrowingLimit,
    BookNotReturned,
    BookNotBorrowed,
    ConcurrencyError(String),
    ItemAlreadyExists(u32),
    ExceedLimit(u32),
    NotPossibleToDelete,
    NotImplemented,
}

/// A refused request, with its texts taken as character sequences.
pub enum BibError {
    NotAuthorized,
    LoginFailed,
    DataNotFound(Seq<char>),
    DataDuplicated(u32),
    UserNotFound(u32),
    BookNotFound(u32),
    InvalidArgument(Seq<char>),
    SystemError(Seq<char>),
    OverBorrowingLimit,
    BookNotReturned,
    BookNotBorrowed,
    ConcurrencyError(Seq<char>),
    ItemAlreadyExists(u32),
    ExceedLimit(u32),
    NotPossibleToDelete,
    NotImplemented,
}

impl View for BibErrorResponse {
    type V = BibError;

    open spec fn view(&self) -> BibError {
        match self {
            BibErrorResponse::NotAuthorized => BibError::NotAuthorized,
            BibErrorResponse::LoginFailed => BibError::LoginFailed,
            BibErrorResponse::DataNotFound(m) => BibError::DataNotFound(m@),
            BibErrorResponse::DataDuplicated(id) => BibError::DataDuplicated(*id),
            BibErrorResponse::UserNotFound(id) => BibError::UserNotFound(*id),
            BibErrorResponse::BookNotFound(id) => BibError::BookNotFound(*id),
            BibErrorResponse::InvalidArgument(m) => BibError::InvalidArgument(m@),
            BibErrorResponse::SystemError(m) => BibError::SystemError(m@),
            BibErrorResponse::OverBorrowingLimit => BibError::OverBorrowingLimit,
            BibErrorResponse::BookNotReturned => BibError::BookNotReturned,
            BibErrorResponse::BookNotBorrowed => BibError::BookNotBorrowed,
            BibErrorResponse::ConcurrencyError(m) => BibError::ConcurrencyError(m@),
            BibErrorResponse::ItemAlreadyExists(id) => BibError::ItemAlreadyExists(*id),
            BibErrorResponse::ExceedLimit(n) => BibError::ExceedLimit(*n),
            BibErrorResponse::NotPossibleToDelete => BibError::NotPossibleToDelete,
            BibErrorResponse::NotImplemented => BibError::NotImplemented,
        }
    }
}

/// The message of a number that could not be read, as the standard library
/// words it for `u32::from_str`.
pub open spec fn parse_error_text(e: ParseError) -> Seq<char> {
    match e {
        ParseError::Empty => "cannot parse integer from empty string"@,
        ParseError::InvalidDigit => "invalid digit found in string"@,
        ParseError::Overflow => "number too large to fit in target type"@,
    }
}

/// The message of a number that could not be read.
pub fn parse_error_message(e: ParseError) -> (res: String)
    ensures
        res@ == parse_error_text(e),
{
    match e {
        ParseError::Empty => String::from_str("cannot parse integer from empty string"),
        ParseError::InvalidDigit => String::from_str("invalid digit found in string"),
        ParseError::Overflow => String::from_str("number too large to fit in target type"),
    }
}

/// The error of an argument that is not a number.
pub open spec fn invalid_number(e: ParseError) -> BibError {
    BibError::InvalidArgument(parse_error_text(e))
}

/// A result with its error taken by its view.
pub open spec fn outcome<T>(r: Result<T, BibErrorResponse>) -> Result<T, BibError> {
    match r {
        Ok(v) => Ok(v),
        Err(e) => Err(e@),
    }
}

/// The identifier that a decimal text names, or the refusal of a text that
/// names none.
pub open spec fn id_outcome(s: Seq<char>) -> Result<u32, BibError> {
    match crate::text::parse_u32(s) {
        Ok(n) => Ok(n),
        Err(e) => Err(invalid_number(e)),
    }
}

/// Reads a decimal identifier; a text that is not one is refused as an
/// invalid argument carrying the parse message.
pub fn parse_id(s: &str) -> (res: Result<u32, BibErrorResponse>)
    ensures
        outcome(res) == id_outcome(s@),
{
    match crate::text::atoi(s) {
        Ok(n) => Ok(n),
        Err(e) => Err(BibErrorResponse::InvalidArgument(parse_error_message(e))),
    }
}

} // verus!
