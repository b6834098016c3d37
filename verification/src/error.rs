//! Errors.

use vstd::prelude::*;
use crate::text::append_decimal;
use crate::text::append_str;
use crate::text::decimal_spec;
use crate::text::string_of;
use crate::ids::format_id;
use crate::ids::hyphenated_spec;

verus! {

/// What can go wrong in the memory stores.
#[derive(Debug, Clone, Copy, PartialEq, Eq, Structural)]
pub enum MemoryError {
    /// An embedding's length disagrees with the store's dimension.
    DimensionMismatch { expected: usize, actual: usize },
    /// The subject of a relation is not a known concept.
    SubjectNotFound { id: u128 },
    /// The object of a relation is not a known concept.
    ObjectNotFound { id: u128 },
    /// A text that should denote an identifier does not.
    InvalidId,
    /// An embedding archive is shorter than its own header.
    ArchiveTooSmall { actual: usize },
    /// A count, a length or an offset does not fit its field in the archive.
    ArchiveTooLarge,
}

impl MemoryError {
    /// The message for this error.
    pub open spec fn message_spec(self) -> Seq<char> {
        match self {
            MemoryError::DimensionMismatch { expected, actual } => {
                "Embedding dimension mismatch: expected "@ + decimal_spec(expected as nat)
                    + ", got "@ + decimal_spec(actual as nat)
            },
            MemoryError::SubjectNotFound { id } => {
                "Subject concept not found: "@ + hyphenated_spec(id)
            },
            MemoryError::ObjectNotFound { id } => {
                "Object concept not found: "@ + hyphenated_spec(id)
            },
            MemoryError::InvalidId => "Invalid UUID"@,
            MemoryError::ArchiveTooSmall { actual } => {
                "Embeddings file is too small: "@ + decimal_spec(actual as nat) + " < 32"@
            },
            MemoryError::ArchiveTooLarge => "Embeddings do not fit the archive format"@,
        }
    }

    /// Writes the message for this error.
    pub fn message(&self) -> (text: String)
        ensures
            text@ == self.message_spec(),
    {
        let mut out: Vec<char> = Vec::new();
        match self {
            MemoryError::DimensionMismatch { expected, actual } => {
                append_str(&mut out, "Embedding dimension mismatch: expected ");
                append_decimal(&mut out, *expected as u64);
                append_str(&mut out, ", got ");
                append_decimal(&mut out, *actual as u64);
            },
            MemoryError::SubjectNotFound { id } => {
                append_str(&mut out, "Subject concept not found: ");
                let written = format_id(*id);
                append_str(&mut out, written.as_str());
            },
            MemoryError::ObjectNotFound { id } => {
                append_str(&mut out, "Object concept not found: ");
                let written = format_id(*id);
                append_str(&mut out, written.as_str());
            },
            MemoryError::InvalidId => {
                append_str(&mut out, "Invalid UUID");
            },
            MemoryError::ArchiveTooSmall { actual } => {
                append_str(&mut out, "Embeddings file is too small: ");
                append_decimal(&mut out, *actual as u64);
                append_str(&mut out, " < 32");
            },
            MemoryError::ArchiveTooLarge => {
                append_str(&mut out, "Embeddings do not fit the archive format");
            },
        }
        assert(out@ =~= self.message_spec());
        string_of(out.as_slice())
    }
}

} // verus!
