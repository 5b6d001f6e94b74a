//! What a provider implements.

use crate::fleet::error::CloudError;
use crate::fleet::types::{
    ArtifactKey, BlobMeta, Chunk, ChunkId, ChunkOutcome, Credentials, WorkerId, WorkerStatus,
};
use vstd::prelude::*;

verus! {

/// A call of a queue and its answer; of an acknowledgement, what went wrong.
pub enum QueueEvent {
    Next(Result<Option<Chunk>, CloudError>),
    Ack(ChunkId, ChunkOutcome, Option<CloudError>),
}

/// What went wrong.
pub open spec fn fault_in(r: Result<(), CloudError>) -> Option<CloudError> {
    match r {
        Ok(_) => None,
        Err(e) => Some(e),
    }
}

/// Where chunks come from.
pub trait JobQueue {
    /// The calls so far, in their order. A queue that is itself verified says here
    /// what it keeps of them.
    open spec fn calls(&self) -> Seq<QueueEvent> {
        vstd::pervasive::arbitrary()
    }

    /// The next chunk, or `None` when there is none left.
    fn next_chunk(&mut self) -> (r: Result<Option<Chunk>, CloudError>)
        ensures
            final(self).calls() == old(self).calls().push(QueueEvent::Next(r)),
    ;

    /// Says how a chunk ended.
    fn ack_chunk(&mut self, id: &ChunkId, outcome: ChunkOutcome) -> (r: Result<(), CloudError>)
        ensures
            final(self).calls() == old(self).calls().push(QueueEvent::Ack(*id, outcome, fault_in(r))),
    ;
}

/// Where blobs lie.
pub trait BlobStorage {
    fn put(&self, key: &ArtifactKey, bytes: &[u8]) -> Result<(), CloudError>;

    fn get(&self, key: &ArtifactKey) -> Result<Vec<u8>, CloudError>;

    fn head(&self, key: &ArtifactKey) -> Result<Option<BlobMeta>, CloudError>;

    fn list(&self, prefix: &str) -> Result<Vec<ArtifactKey>, CloudError>;

    fn delete(&self, key: &ArtifactKey) -> Result<(), CloudError>;
}

/// A sign of life. A beat that fails stops no work.
pub trait Heartbeat {
    /// Was this beat sent, and answered so? A heartbeat that is itself verified says
    /// here what it keeps of its beats.
    open spec fn said(
        &self,
        worker: WorkerId,
        status: WorkerStatus,
        answer: Result<(), CloudError>,
    ) -> bool {
        vstd::pervasive::arbitrary()
    }

    fn beat(&self, worker: &WorkerId, status: WorkerStatus) -> (r: Result<(), CloudError>)
        ensures
            self.said(*worker, status, r),
    ;
}

/// Where credentials come from.
pub trait CredentialSource {
    fn resolve(&self) -> Result<Credentials, CloudError>;
}

/// The machine that a worker runs on.
pub trait WorkerHost {
    /// Is this the name of the worker? A host that is itself verified says here which
    /// name it gives.
    open spec fn known_as(&self, id: WorkerId) -> bool {
        vstd::pervasive::arbitrary()
    }

    fn worker_id(&self) -> (r: WorkerId)
        ensures
            self.known_as(r),
    ;

    fn scratch_dir(&self) -> String;

    fn gpu_count(&self) -> usize;
}

} // verus!
