//! A multiline-aware text filter: groups contiguous input lines into records
//! using a start-of-record marker pattern and emits whole records whose first
//! line matches a content pattern.

pub mod assembler;
pub mod event;
pub mod model;
pub mod laws;
pub mod pattern;
