//! Error taxonomy of the engine, by failing stage.

use vstd::prelude::*;

verus! {

/// What went wrong, and at which stage.
#[derive(Clone, Copy, Debug, PartialEq, Eq, Structural)]
pub enum EngineError {
    /// The embedding provider failed for a batch; aborts the batch or run.
    Embedding,
    /// A file could not be opened, read or written.
    Io,
    /// An index file's size is not a multiple of the entry width, or its
    /// paired blob file is unusable.
    CorruptIndex,
    /// A single source row could not be parsed; skipped, never fatal.
    MalformedRecord,
    /// Filter construction was given zero anchor phrases, so the embedding
    /// dimension cannot be inferred; fatal for that filter only.
    EmptyAnchorSet,
}

impl EngineError {
    /// A short diagnostic label naming the failing stage.
    pub fn label(&self) -> (r: &'static str)
        ensures
            r@ == match self {
                EngineError::Embedding => "embedding provider failure"@,
                EngineError::Io => "file I/O failure"@,
                EngineError::CorruptIndex => "corrupt index file"@,
                EngineError::MalformedRecord => "malformed source record"@,
                EngineError::EmptyAnchorSet => "empty anchor set"@,
            },
    {
        match self {
            EngineError::Embedding => "embedding provider failure",
            EngineError::Io => "file I/O failure",
            EngineError::CorruptIndex => "corrupt index file",
            EngineError::MalformedRecord => "malformed source record",
            EngineError::EmptyAnchorSet => "empty anchor set",
        }
    }
}

} // verus!
