//! Memory substrate of a conversational agent.
//!
//! Three stores work together. The vector store ranks embedded records by
//! cosine similarity. The episodic memory keeps the current conversation, a
//! bounded history of past ones, and one record per exchange, and recalls
//! past exchanges by similarity and by keywords. The semantic memory keeps
//! what was learnt from conversations: concepts with a confidence that
//! decays, freed of duplicates and contradictions, indexed by category, and
//! linked by relations. Around them stand the formats that make the stores
//! durable: records for the structured documents and a binary archive for
//! the embeddings.
//!
//! Scores and confidences are integers counted in millionths, instants are
//! milliseconds since the Unix epoch, identifiers are the 128-bit values of
//! UUIDs, and embeddings are sequences of single-precision words. What a
//! function reads from the clock or draws at random it also accepts as an
//! argument, in a variant whose name ends in `_at`.
//!
//! Relations name concepts by identifier and are never removed: a relation
//! whose concept has been removed, merged away or forgotten stays in the
//! graph and names a concept that is no longer there.

pub mod archive;
pub mod clock;
pub mod config;
pub mod context;
pub mod device;
pub mod embedder;
pub mod episodic;
pub mod error;
pub mod fixed;
pub mod ids;
pub mod metadata;
pub mod persistence;
pub mod persona;
pub mod ranking;
pub mod semantic;
pub mod similarity;
pub mod text;
pub mod vector_store;
