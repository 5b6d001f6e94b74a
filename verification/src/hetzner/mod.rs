//! Worker boxes on Hetzner Cloud.
//!
//! A sweep's servers carry a label with the group's name; listing and deleting go
//! by that label. A server boots into a script that installs docker and runs the
//! worker, which takes its chunks from the bucket.

pub mod api;
pub mod cloud_init;
pub mod env;
pub mod sweep;
