//! Books, whose availability only the library may change.
use vstd::prelude::*;

verus! {

/// A book of the library.
pub struct Book {
    pub title: String,
    pub author: String,
    pub isbn: String,
    available: bool,
}

/// What a book holds.
pub struct BookView {
    pub title: Seq<char>,
    pub author: Seq<char>,
    pub isbn: Seq<char>,
    pub available: bool,
}

impl View for Book {
    type V = BookView;

    closed spec fn view(&self) -> BookView {
        BookView {
            title: self.title@,
            author: self.author@,
            isbn: self.isbn@,
            available: self.available,
        }
    }
}

impl Book {
    /// A new book, available for loan.
    pub fn new(title: String, author: String, isbn: String) -> (b: Self)
        ensures
            b@ == (BookView { title: title@, author: author@, isbn: isbn@, available: true }),
    {
        Book { title, author, isbn, available: true }
    }

    /// The ISBN of the book.
    pub(crate) fn isbn_of(&self) -> (r: &str)
        ensures
            r@ == self@.isbn,
    {
        self.isbn.as_str()
    }

    /// Whether the book may be lent.
    pub fn is_available(&self) -> (r: bool)
        ensures
            r == self@.available,
    {
        self.available
    }

    /// Marks the book as available or lent.
    pub(super) fn set_available(&mut self, available: bool)
        ensures
            final(self)@ == (BookView { available, ..old(self)@ }),
    {
        self.available = available;
    }
}

} // verus!
