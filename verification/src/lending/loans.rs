//! Loans: which book is lent to which member until when.
use vstd::prelude::*;

verus! {

/// A loan of the book with `book_isbn` to the member `member_id`.
pub struct Loan {
    book_isbn: String,
    member_id: u32,
    due_date: String,
}

/// What a loan holds.
pub struct LoanView {
    pub book_isbn: Seq<char>,
    pub member_id: u32,
    pub due_date: Seq<char>,
}

impl View for Loan {
    type V = LoanView;

    closed spec fn view(&self) -> LoanView {
        LoanView { book_isbn: self.book_isbn@, member_id: self.member_id, due_date: self.due_date@ }
    }
}

impl Loan {
    /// A loan of the book `book_isbn` to `member_id`, due on `due_date`.
    pub fn new(book_isbn: String, member_id: u32, due_date: String) -> (l: Self)
        ensures
            l@ == (LoanView { book_isbn: book_isbn@, member_id, due_date: due_date@ }),
    {
        Loan { book_isbn, member_id, due_date }
    }

    /// The ISBN of the lent book.
    pub fn book_isbn(&self) -> (r: &str)
        ensures
            r@ == self@.book_isbn,
    {
        self.book_isbn.as_str()
    }

    /// The borrowing member.
    pub fn member_id(&self) -> (r: u32)
        ensures
            r == self@.member_id,
    {
        self.member_id
    }

    /// The due date.
    pub fn due_date(&self) -> (r: &str)
        ensures
            r@ == self@.due_date,
    {
        self.due_date.as_str()
    }
}

} // verus!
