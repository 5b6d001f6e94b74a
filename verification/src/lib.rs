//! Scoring image quality, sweeping codecs over their settings, and running such
//! sweeps on a fleet of workers.
//!
//! The library holds the decisions: what a command line, a table, a reply or a row
//! of scores means, what is to be done next, and what comes out. Reading files,
//! talking to services and everything in floating point is left to the program.

pub mod assemble;
pub mod backfill;
pub mod compare;
pub mod decode;
pub mod fleet;
pub mod hdr;
pub mod hetzner;
pub mod jobexec;
pub mod json;
pub mod listing;
pub mod metrics;
pub mod orchestrator_runner;
pub mod output;
pub mod score_pairs;
pub mod sweep;
pub mod text;
pub mod tsv;
