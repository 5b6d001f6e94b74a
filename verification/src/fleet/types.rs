//! The values that a worker and its cloud exchange.

use vstd::prelude::*;

verus! {

/// The name of a chunk.
#[derive(Debug)]
pub struct ChunkId(pub String);

impl ChunkId {
    /// The name.
    pub fn as_str(&self) -> (r: &str)
        ensures
            r@ == self.0@,
    {
        self.0.as_str()
    }
}

/// A piece of work.
#[derive(Debug)]
pub struct Chunk {
    pub id: ChunkId,
    /// What to do, as the queue gives it.
    pub payload: String,
}

/// Where a blob lies.
#[derive(Debug)]
pub struct ArtifactKey(pub String);

/// What is known of a blob.
#[derive(Debug)]
pub struct BlobMeta {
    pub size: u64,
    pub etag: Option<String>,
}

/// The name of a worker.
#[derive(Debug)]
pub struct WorkerId(pub String);

/// What a worker is doing.
#[derive(Debug, Clone, Copy, PartialEq, Eq, Structural)]
pub enum WorkerStatus {
    Starting,
    Working { in_flight: u32 },
    Draining,
    Done,
}

/// How a chunk ended.
#[derive(Debug)]
pub enum ChunkOutcome {
    Done,
    Skipped { reason: String },
    Failed { error: String },
    Retryable { error: String },
}

/// What a worker has done.
#[derive(Debug, Clone, Copy, PartialEq, Eq, Structural)]
pub struct WorkerSummary {
    pub dispatched: u64,
    pub done: u64,
    pub skipped: u64,
    pub failed: u64,
}

impl Default for WorkerSummary {
    fn default() -> (r: WorkerSummary)
        ensures
            r == (WorkerSummary { dispatched: 0, done: 0, skipped: 0, failed: 0 }),
    {
        WorkerSummary { dispatched: 0, done: 0, skipped: 0, failed: 0 }
    }
}

/// The keys to a storage.
#[derive(Debug)]
pub struct Credentials {
    pub access_key_id: String,
    pub secret_access_key: String,
    pub session_token: Option<String>,
}

} // verus!
