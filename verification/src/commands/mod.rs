//! The reader's commands, as transitions of the reading state.
pub mod search;
pub mod annotations;
pub mod history;
pub mod preferences;
pub mod progress;
pub mod book;
