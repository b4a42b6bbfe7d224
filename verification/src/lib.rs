//! Retrieval-augmented conversational pipeline: document chunking, embedded
//! vector storage with similarity search, bounded conversation memory, and the
//! per-turn orchestration that assembles prompts and commits finished turns.
//!
//! Text is carried as UTF-8 bytes (`Vec<u8>`); embeddings are fixed-point
//! coordinates (`Vec<i64>`), so that scores are exact integers. The embedding
//! and generation backends, and the persistent database, live outside this
//! crate: callers hand their results in as plain values.

pub mod chain;
pub mod chunker;
pub mod document;
pub mod embedding;
pub mod errors;
pub mod memory;
pub mod store;
