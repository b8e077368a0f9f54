//! A library management system split into modules: books and members with
//! private state, loans, and the library that lends books to members.
pub mod books;
pub mod members;
pub mod loans;
pub mod library;
