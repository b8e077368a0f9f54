//! The library: books, members and the open loans, with checkout and return.
use vstd::prelude::*;
use crate::seqs::{first_match, lemma_first_match, lemma_first_match_at, lemma_first_match_none};
use crate::text::{owned, str_eq};
use super::loans::{Loan, LoanView};
pub use super::books::{Book, BookView};
pub use super::members::{Member, MemberView};

verus! {

/// The library: public lists of books and members, and its private list of
/// open loans.
pub struct Library {
    pub books: Vec<Book>,
    pub members: Vec<Member>,
    loans: Vec<Loan>,
}

/// What a library holds: its books, its members and its open loans, oldest
/// first.
pub struct LibraryView {
    pub books: Seq<BookView>,
    pub members: Seq<MemberView>,
    pub loans: Seq<LoanView>,
}

impl View for Library {
    type V = LibraryView;

    closed spec fn view(&self) -> LibraryView {
        LibraryView {
            books: self.books@.map_values(|b: Book| b@),
            members: self.members@.map_values(|m: Member| m@),
            loans: self.loans@.map_values(|l: Loan| l@),
        }
    }
}

/// Whether a book has the ISBN `isbn`.
pub open spec fn has_isbn(isbn: Seq<char>) -> spec_fn(BookView) -> bool {
    |b: BookView| b.isbn == isbn
}

/// Whether a member has the id `id`.
pub open spec fn has_id(id: u32) -> spec_fn(MemberView) -> bool {
    |m: MemberView| m.id == id
}

/// Whether a loan is of the book with ISBN `isbn`.
pub open spec fn lends(isbn: Seq<char>) -> spec_fn(LoanView) -> bool {
    |l: LoanView| l.book_isbn == isbn
}

/// What a checkout of `isbn` by `member_id` decides: the position of the book
/// to lend, or the error message.
pub open spec fn checkout_outcome(lib: LibraryView, isbn: Seq<char>, member_id: u32) -> Result<
    int,
    Seq<char>,
> {
    match first_match(lib.books, has_isbn(isbn)) {
        None => Err("Book not found"@),
        Some(i) => if !lib.books[i].available {
            Err("Book is not available"@)
        } else {
            match first_match(lib.members, has_id(member_id)) {
                None => Err("Member not found"@),
                Some(j) => if !lib.members[j].active {
                    Err("Member is not active"@)
                } else {
                    Ok(i)
                },
            }
        },
    }
}

/// The books with the one at position `i` marked available or lent.
pub open spec fn mark(books: Seq<BookView>, i: int, available: bool) -> Seq<BookView> {
    books.update(i, BookView { available, ..books[i] })
}

/// `after` is `before` with the book at position `i` lent to `member_id`
/// until `due`.
pub open spec fn lent(
    before: LibraryView,
    after: LibraryView,
    i: int,
    isbn: Seq<char>,
    member_id: u32,
    due: Seq<char>,
) -> bool {
    after == LibraryView {
        books: mark(before.books, i, false),
        loans: before.loans.push(LoanView { book_isbn: isbn, member_id, due_date: due }),
        ..before
    }
}

impl Library {
    /// An empty library.
    pub fn new() -> (l: Self)
        ensures
            l@.books == Seq::<BookView>::empty(),
            l@.members == Seq::<MemberView>::empty(),
            l@.loans == Seq::<LoanView>::empty(),
    {
        let l = Library { books: Vec::new(), members: Vec::new(), loans: Vec::new() };
        assert(l@.books =~= Seq::<BookView>::empty());
        assert(l@.members =~= Seq::<MemberView>::empty());
        assert(l@.loans =~= Seq::<LoanView>::empty());
        l
    }

    /// Adds a book at the end of the list of books.
    pub fn add_book(&mut self, book: Book)
        ensures
            final(self)@ == (LibraryView { books: old(self)@.books.push(book@), ..old(self)@ }),
    {
        self.books.push(book);
        assert(self@.books =~= old(self)@.books.push(book@));
    }

    /// Adds a member at the end of the list of members.
    pub fn add_member(&mut self, member: Member)
        ensures
            final(self)@ == (LibraryView {
                members: old(self)@.members.push(member@),
                ..old(self)@
            }),
    {
        self.members.push(member);
        assert(self@.members =~= old(self)@.members.push(member@));
    }

    /// The position of the first book with ISBN `isbn`, or the number of books.
    fn find_book(&self, isbn: &str) -> (i: usize)
        ensures
            i <= self@.books.len(),
            i < self@.books.len() ==> first_match(self@.books, has_isbn(isbn@)) == Some(i as int),
            i == self@.books.len() ==> first_match(self@.books, has_isbn(isbn@)) is None,
    {
        let ghost books = self@.books;
        let mut i: usize = 0;
        while i < self.books.len()
            invariant
                books == self@.books,
                i <= books.len(),
                forall|j: int| 0 <= j < i ==> !has_isbn(isbn@)(books[j]),
            decreases books.len() - i,
        {
            if str_eq(self.books[i].isbn_of(), isbn) {
                proof {
                    lemma_first_match_at(books, has_isbn(isbn@), i as int);
                }
                return i;
            }
            i = i + 1;
        }
        proof {
            lemma_first_match_none(books, has_isbn(isbn@));
        }
        i
    }

    /// The position of the first member with id `member_id`, or the number of
    /// members.
    fn find_member(&self, member_id: u32) -> (k: usize)
        ensures
            k <= self@.members.len(),
            k < self@.members.len() ==> first_match(self@.members, has_id(member_id)) == Some(
                k as int,
            ),
            k == self@.members.len() ==> first_match(self@.members, has_id(member_id)) is None,
    {
        let ghost members = self@.members;
        let mut k: usize = 0;
        while k < self.members.len()
            invariant
                members == self@.members,
                k <= members.len(),
                forall|j: int| 0 <= j < k ==> !has_id(member_id)(members[j]),
            decreases members.len() - k,
        {
            if self.members[k].id_of() == member_id {
                proof {
                    lemma_first_match_at(members, has_id(member_id), k as int);
                }
                return k;
            }
            k = k + 1;
        }
        proof {
            lemma_first_match_none(members, has_id(member_id));
        }
        k
    }

    /// The position of the first open loan of the book `isbn`, or the number
    /// of loans.
    fn find_loan(&self, isbn: &str) -> (j: usize)
        ensures
            j <= self@.loans.len(),
            j < self@.loans.len() ==> first_match(self@.loans, lends(isbn@)) == Some(j as int),
            j == self@.loans.len() ==> first_match(self@.loans, lends(isbn@)) is None,
    {
        let ghost loans = self@.loans;
        let mut j: usize = 0;
        while j < self.loans.len()
            invariant
                loans == self@.loans,
                j <= loans.len(),
                forall|m: int| 0 <= m < j ==> !lends(isbn@)(loans[m]),
            decreases loans.len() - j,
        {
            if str_eq(self.loans[j].book_isbn(), isbn) {
                proof {
                    lemma_first_match_at(loans, lends(isbn@), j as int);
                }
                return j;
            }
            j = j + 1;
        }
        proof {
            lemma_first_match_none(loans, lends(isbn@));
        }
        j
    }

    /// Marks the book at position `i` available or lent.
    fn mark_book(&mut self, i: usize, available: bool)
        requires
            i < old(self)@.books.len(),
        ensures
            final(self)@ == (LibraryView {
                books: mark(old(self)@.books, i as int, available),
                ..old(self)@
            }),
    {
        let mut book = self.books.remove(i);
        book.set_available(available);
        self.books.insert(i, book);
        assert(self@.books =~= mark(old(self)@.books, i as int, available));
    }

    /// Lends the first book with ISBN `isbn` to the first member with id
    /// `member_id`. Fails, changing nothing, when there is no such book, it is
    /// lent already, there is no such member, or the member is not active.
    pub fn checkout_book(&mut self, isbn: &str, member_id: u32, due_date: String) -> (r: Result<
        (),
        String,
    >)
        ensures
            match checkout_outcome(old(self)@, isbn@, member_id) {
                Ok(i) => r is Ok && lent(old(self)@, final(self)@, i, isbn@, member_id, due_date@),
                Err(msg) => r matches Err(e) && e@ == msg && final(self)@ == old(self)@,
            },
    {
        let i = self.find_book(isbn);
        if i == self.books.len() {
            return Err(owned("Book not found"));
        }
        if !self.books[i].is_available() {
            return Err(owned("Book is not available"));
        }
        let k = self.find_member(member_id);
        if k == self.members.len() {
            return Err(owned("Member not found"));
        }
        if !self.members[k].is_active() {
            return Err(owned("Member is not active"));
        }
        self.mark_book(i, false);
        let loan = Loan::new(owned(isbn), member_id, due_date);
        let ghost mid = self@;
        self.loans.push(loan);
        assert(self@.loans =~= mid.loans.push(loan@));
        Ok(())
    }

    /// Closes the first open loan of the book `isbn` and marks the first book
    /// with that ISBN available again. Fails, changing nothing, when no loan of
    /// the book is open; fails after closing the loan when the library holds
    /// no book with that ISBN.
    pub fn return_book(&mut self, isbn: &str) -> (r: Result<(), String>)
        ensures
            match first_match(old(self)@.loans, lends(isbn@)) {
                None => r matches Err(e) && e@ == "No active loan found for this book"@
                    && final(self)@ == old(self)@,
                Some(j) => match first_match(old(self)@.books, has_isbn(isbn@)) {
                    None => r matches Err(e) && e@ == "Book not found"@ && final(self)@
                        == LibraryView { loans: old(self)@.loans.remove(j), ..old(self)@ },
                    Some(i) => r is Ok && final(self)@ == LibraryView {
                        books: mark(old(self)@.books, i, true),
                        loans: old(self)@.loans.remove(j),
                        ..old(self)@
                    },
                },
            },
    {
        let j = self.find_loan(isbn);
        if j == self.loans.len() {
            return Err(owned("No active loan found for this book"));
        }
        let ghost before = self@;
        self.loans.remove(j);
        assert(self@.loans =~= before.loans.remove(j as int));
        let i = self.find_book(isbn);
        if i == self.books.len() {
            return Err(owned("Book not found"));
        }
        self.mark_book(i, true);
        Ok(())
    }

    /// The number of open loans.
    pub fn active_loans(&self) -> (r: usize)
        ensures
            r == self@.loans.len(),
    {
        self.loans.len()
    }

    /// The first open loan of the book `isbn`, if any.
    pub fn get_loan(&self, isbn: &str) -> (r: Option<&Loan>)
        ensures
            match first_match(self@.loans, lends(isbn@)) {
                Some(j) => r is Some && r.unwrap()@ == self@.loans[j],
                None => r is None,
            },
    {
        let j = self.find_loan(isbn);
        if j == self.loans.len() {
            None
        } else {
            Some(&self.loans[j])
        }
    }
}

/// After a successful checkout of a book, returning that book succeeds; and
/// when no loan of the book was open before the checkout, the return gives
/// back the library exactly as it was before the checkout.
pub proof fn lemma_checkout_then_return(
    before: LibraryView,
    after: LibraryView,
    isbn: Seq<char>,
    member_id: u32,
    due: Seq<char>,
)
    requires
        checkout_outcome(before, isbn, member_id) is Ok,
        lent(before, after, checkout_outcome(before, isbn, member_id)->Ok_0, isbn, member_id, due),
    ensures
        first_match(after.loans, lends(isbn)) is Some,
        first_match(after.books, has_isbn(isbn)) is Some,
        first_match(before.loans, lends(isbn)) is None ==> {
            let j = first_match(after.loans, lends(isbn))->Some_0;
            let i = first_match(after.books, has_isbn(isbn))->Some_0;
            LibraryView { books: mark(after.books, i, true), loans: after.loans.remove(j), ..after }
                == before
        },
{
    let i = checkout_outcome(before, isbn, member_id)->Ok_0;
    lemma_first_match(before.books, has_isbn(isbn));
    assert forall|m: int| 0 <= m < i implies !has_isbn(isbn)(after.books[m]) by {
        assert(after.books[m] == before.books[m]);
    }
    lemma_first_match_at(after.books, has_isbn(isbn), i);
    let last = after.loans.len() - 1;
    assert(lends(isbn)(after.loans[last]));
    lemma_first_match(after.loans, lends(isbn));
    if first_match(before.loans, lends(isbn)) is None {
        lemma_first_match(before.loans, lends(isbn));
        assert forall|m: int| 0 <= m < last implies !lends(isbn)(after.loans[m]) by {
            assert(after.loans[m] == before.loans[m]);
        }
        lemma_first_match_at(after.loans, lends(isbn), last);
        assert(after.loans.remove(last) =~= before.loans);
        assert(mark(after.books, i, true) =~= before.books);
    }
}

} // verus!
