//! The error taxonomy shared by the two extractors.
//!
//! The tracked page is unversioned and externally controlled, so every
//! structural violation aborts the whole extraction: a partial result
//! would mislead the caller. Each error names its kind, the 0-based
//! position of the offending element in the input sequence, and, where
//! there is one, the malformed fragment.

use vstd::prelude::*;

verus! {

/// Why an extraction aborted.
#[derive(Debug)]
pub enum ExtractError {
    /// The link did not split into exactly two parts on `=`.
    Format { position: usize, href: String },
    /// The part of the link after `=` is not a non-negative integer in range.
    Numeric { position: usize, href: String },
    /// The index parsed from the link does not continue the running sequence.
    SequenceGap { position: usize, expected: usize, found: usize },
    /// The element that should carry the link has no `href` attribute.
    MissingAttribute { position: usize },
    /// The level anchor does not begin with a recognized completion marker.
    UnrecognizedCompletionMarker { position: usize },
    /// The level description does not have the expected shape.
    UnrecognizedDescriptionFormat { position: usize },
    /// The problem cell does not hold exactly one anchor element.
    UnrecognizedCellStructure { position: usize },
    /// The problem cell carries both status classes, or neither.
    AmbiguousOrMissingStatus { position: usize },
}

/// The two errors have the same kind and the same payload
/// (strings compared by their characters).
pub open spec fn errors_alike(a: ExtractError, b: ExtractError) -> bool {
    match (a, b) {
        (
            ExtractError::Format { position: p1, href: h1 },
            ExtractError::Format { position: p2, href: h2 },
        ) => p1 == p2 && h1@ == h2@,
        (
            ExtractError::Numeric { position: p1, href: h1 },
            ExtractError::Numeric { position: p2, href: h2 },
        ) => p1 == p2 && h1@ == h2@,
        (
            ExtractError::SequenceGap { position: p1, expected: e1, found: f1 },
            ExtractError::SequenceGap { position: p2, expected: e2, found: f2 },
        ) => p1 == p2 && e1 == e2 && f1 == f2,
        (
            ExtractError::MissingAttribute { position: p1 },
            ExtractError::MissingAttribute { position: p2 },
        ) => p1 == p2,
        (
            ExtractError::UnrecognizedCompletionMarker { position: p1 },
            ExtractError::UnrecognizedCompletionMarker { position: p2 },
        ) => p1 == p2,
        (
            ExtractError::UnrecognizedDescriptionFormat { position: p1 },
            ExtractError::UnrecognizedDescriptionFormat { position: p2 },
        ) => p1 == p2,
        (
            ExtractError::UnrecognizedCellStructure { position: p1 },
            ExtractError::UnrecognizedCellStructure { position: p2 },
        ) => p1 == p2,
        (
            ExtractError::AmbiguousOrMissingStatus { position: p1 },
            ExtractError::AmbiguousOrMissingStatus { position: p2 },
        ) => p1 == p2,
        _ => false,
    }
}

} // verus!
