//! What can go wrong between a worker and its cloud.

use crate::text::{copy, ends, starts};
use vstd::prelude::*;

verus! {

/// What can go wrong between a worker and its cloud.
#[derive(Debug)]
pub enum CloudError {
    /// The queue: taking or acknowledging a chunk.
    Queue(String),
    /// The storage.
    Storage(String),
    /// A heartbeat.
    Heartbeat(String),
    /// The credentials.
    Credentials(String),
    /// The host.
    Host(String),
    /// A computation that failed in a way it did not expect.
    Compute(String),
    /// Anything else.
    Other(String),
}

impl CloudError {
    /// The message of the error.
    pub open spec fn text(self) -> Seq<char> {
        match self {
            CloudError::Queue(m) => "job queue: "@ + m@,
            CloudError::Storage(m) => "blob storage: "@ + m@,
            CloudError::Heartbeat(m) => "heartbeat: "@ + m@,
            CloudError::Credentials(m) => "credentials: "@ + m@,
            CloudError::Host(m) => "worker host: "@ + m@,
            CloudError::Compute(m) => "compute: "@ + m@,
            CloudError::Other(m) => m@,
        }
    }

    /// The message of the error.
    pub fn message(&self) -> (r: String)
        ensures
            r@ == self.text(),
    {
        match self {
            CloudError::Queue(m) => led("job queue: ", m.as_str()),
            CloudError::Storage(m) => led("blob storage: ", m.as_str()),
            CloudError::Heartbeat(m) => led("heartbeat: ", m.as_str()),
            CloudError::Credentials(m) => led("credentials: ", m.as_str()),
            CloudError::Host(m) => led("worker host: ", m.as_str()),
            CloudError::Compute(m) => led("compute: ", m.as_str()),
            CloudError::Other(m) => copy(m.as_str()),
        }
    }

    /// A failure of the storage.
    pub fn storage(e: &str) -> (r: CloudError)
        ensures
            r matches CloudError::Storage(m) && m@ == e@,
    {
        CloudError::Storage(copy(e))
    }

    /// A failure of the queue.
    pub fn queue(e: &str) -> (r: CloudError)
        ensures
            r matches CloudError::Queue(m) && m@ == e@,
    {
        CloudError::Queue(copy(e))
    }
}

/// `a` before `b`.
fn led(a: &str, b: &str) -> (r: String)
    ensures
        r@ == a@ + b@,
{
    let mut s: String = copy(a);
    s.append(b);
    s
}

/// A message ends in what was reported, behind the part that failed.
pub proof fn law_message_kept(e: CloudError)
    ensures
        match e {
            CloudError::Queue(m) => ends(e.text(), m@) && starts(e.text(), "job queue"@),
            CloudError::Storage(m) => ends(e.text(), m@) && starts(e.text(), "blob storage"@),
            CloudError::Heartbeat(m) => ends(e.text(), m@) && starts(e.text(), "heartbeat"@),
            CloudError::Credentials(m) => ends(e.text(), m@) && starts(e.text(), "credentials"@),
            CloudError::Host(m) => ends(e.text(), m@) && starts(e.text(), "worker host"@),
            CloudError::Compute(m) => ends(e.text(), m@) && starts(e.text(), "compute"@),
            CloudError::Other(m) => e.text() == m@,
        },
{
    let t = e.text();
    let m = match e {
        CloudError::Queue(m) => m@,
        CloudError::Storage(m) => m@,
        CloudError::Heartbeat(m) => m@,
        CloudError::Credentials(m) => m@,
        CloudError::Host(m) => m@,
        CloudError::Compute(m) => m@,
        CloudError::Other(m) => m@,
    };
    assert(t.subrange(t.len() - m.len(), t.len() as int) =~= m);
    reveal_strlit("job queue");
    reveal_strlit("job queue: ");
    reveal_strlit("blob storage");
    reveal_strlit("blob storage: ");
    reveal_strlit("heartbeat");
    reveal_strlit("heartbeat: ");
    reveal_strlit("credentials");
    reveal_strlit("credentials: ");
    reveal_strlit("worker host");
    reveal_strlit("worker host: ");
    reveal_strlit("compute");
    reveal_strlit("compute: ");
    match e {
        CloudError::Queue(_) => {
            assert(t.take("job queue"@.len() as int) =~= "job queue"@);
        },
        CloudError::Storage(_) => {
            assert(t.take("blob storage"@.len() as int) =~= "blob storage"@);
        },
        CloudError::Heartbeat(_) => {
            assert(t.take("heartbeat"@.len() as int) =~= "heartbeat"@);
        },
        CloudError::Credentials(_) => {
            assert(t.take("credentials"@.len() as int) =~= "credentials"@);
        },
        CloudError::Host(_) => {
            assert(t.take("worker host"@.len() as int) =~= "worker host"@);
        },
        CloudError::Compute(_) => {
            assert(t.take("compute"@.len() as int) =~= "compute"@);
        },
        CloudError::Other(_) => {},
    }
}

} // verus!
