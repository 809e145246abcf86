//! Easy Read: the logic of a portable e-reader for EPUB, plain-text and
//! Markdown books, with its persisted reading state, annotations and search.
pub mod adapters;
pub mod commands;
pub mod models;
pub mod sanitize;
pub mod state;
pub mod text;
