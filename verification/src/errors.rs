//! Error kinds for each stage of the pipeline.

use vstd::prelude::*;

verus! {

/// A source could not be turned into documents.
#[derive(Debug, Clone, Copy, PartialEq, Eq, Structural)]
pub enum LoadError {
    /// The source could not be read at all.
    Unreadable,
    /// The source's format is not one the loader converts.
    UnsupportedFormat,
}

/// A document could not be split under the given configuration.
#[derive(Debug, Clone, Copy, PartialEq, Eq, Structural)]
pub enum ChunkError {
    /// `max_chunk_size` was zero.
    ZeroMaxChunkSize,
    /// `overlap` was not smaller than `max_chunk_size`.
    OverlapTooLarge,
}

/// An embedding request failed.
#[derive(Debug, Clone, Copy, PartialEq, Eq, Structural)]
pub enum EmbeddingError {
    /// The input text was empty.
    EmptyInput,
    /// The backend did not answer in time.
    BackendTimeout,
    /// The backend answered with an error.
    BackendFailure,
}

/// A vector-store operation failed.
#[derive(Debug, Clone, Copy, PartialEq, Eq, Structural)]
pub enum StoreError {
    /// The requested dimension is zero or above the supported bound.
    BadDimension,
    /// `initialize` has not completed on this store.
    NotReady,
    /// A record's embedding length differs from the store's dimension,
    /// or a coordinate lies outside the fixed-point range.
    InvalidEmbedding,
    /// A record id is already present, or repeated within one batch.
    DuplicateId,
    /// The store's logical insertion clock has no room for the batch.
    Exhausted,
    /// The store cannot be reached.
    Connectivity,
}

/// Generation ended without producing a complete answer.
#[derive(Debug, Clone, Copy, PartialEq, Eq, Structural)]
pub enum GenerationError {
    /// The backend reported a failure mid-stream.
    BackendFailure,
    /// The stream was cancelled before its natural end.
    Cancelled,
}

/// One invalid or missing field of a chain configuration.
#[derive(Debug, Clone, Copy, PartialEq, Eq, Structural)]
pub enum ChainConfigIssue {
    /// The retrieval count `k` is zero.
    ZeroTopK,
    /// The history retention bound is zero.
    ZeroHistoryCapacity,
    /// The system instructions are empty.
    EmptySystemInstructions,
}

} // verus!
