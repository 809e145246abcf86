//! The data model of books.
pub mod book;
