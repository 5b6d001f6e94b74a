//! Workers that do not know which cloud they run on.
//!
//! A worker takes chunks from a queue, computes each, and acknowledges it. The
//! queue, the storage, the heartbeat and the host are traits that a provider
//! implements.

pub mod error;
pub mod r2creds;
pub mod run;
pub mod salad;
pub mod traits;
pub mod types;
