//! The data model shared by the whole crate.
pub mod ast;
pub mod report;
