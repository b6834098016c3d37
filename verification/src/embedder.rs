//! The embedding model, as far as the memory needs to know it.

use vstd::prelude::*;
use crate::error::MemoryError;
use crate::text::append_str;
use crate::text::string_of;

verus! {

/// Anything that turns a text into an embedding of a fixed dimension: one
/// single-precision word per component. The same text is expected to give
/// the same embedding; nothing here depends on that.
pub trait Embedder {
    /// The embedding of a text, or a message that says why there is none.
    fn embed(&self, text: &str) -> Result<Vec<u32>, String>;

    /// The length of the embeddings.
    fn embedding_dim(&self) -> usize;
}

/// What can go wrong where the memory works with an embedder.
#[derive(Debug, Clone, PartialEq, Eq)]
pub enum MemoryFailure {
    /// The embedder gave no embedding; the message is its own.
    Embedder { message: String },
    /// The extractor found nothing to hand over; the message is its own.
    Extractor { message: String },
    /// The memory refused what it was given.
    Memory { error: MemoryError },
}

impl MemoryFailure {
    /// The message for this failure.
    pub fn message(&self) -> (text: String)
        ensures
            text@ == match self {
                MemoryFailure::Embedder { message } => "Embedding failed: "@ + message@,
                MemoryFailure::Extractor { message } => "Extraction failed: "@ + message@,
                MemoryFailure::Memory { error } => error.message_spec(),
            },
    {
        match self {
            MemoryFailure::Embedder { message } => {
                let mut out: Vec<char> = Vec::new();
                append_str(&mut out, "Embedding failed: ");
                append_str(&mut out, message.as_str());
                string_of(out.as_slice())
            },
            MemoryFailure::Extractor { message } => {
                let mut out: Vec<char> = Vec::new();
                append_str(&mut out, "Extraction failed: ");
                append_str(&mut out, message.as_str());
                string_of(out.as_slice())
            },
            MemoryFailure::Memory { error } => error.message(),
        }
    }
}

} // verus!
