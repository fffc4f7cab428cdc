//! Extraction of achievement levels and solved-problem flags from the
//! markup of a progress page.
//!
//! The caller parses the page and selects two element sets (one anchor per
//! level, one table cell per problem); this crate validates those elements
//! against the expected page shape and produces typed, strictly ordered
//! collections, failing fast with a descriptive error on any drift.

pub mod dom;
pub mod error;
pub mod levels;
pub mod link;
pub mod problems;
