//! EPUB books: the archive, its package document, the table of contents and
//! the chapters.
pub mod path;
pub mod resources;
pub mod titles;
pub mod xml;
pub mod toc;
pub mod archive;
pub mod package;
pub mod adapter;

pub use adapter::EpubAdapter;
