//! The book format adapters.
pub mod epub;
pub mod txt;
