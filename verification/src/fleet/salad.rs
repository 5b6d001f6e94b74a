//! Workers that are handed their jobs over HTTP by a sidecar.

use crate::fleet::error::CloudError;
use crate::fleet::types::ChunkOutcome;
use crate::text::{
    copy, decimal, law_decimal_reads_back, law_large_number_refused, opt_text, parse_unsigned,
    unsigned,
};
use vstd::prelude::*;

verus! {

/// The port where a sidecar finds the worker, unless it is told another.
pub const DEFAULT_JOB_PORT: u16 = 80;

/// The port that the value of `SALAD_JOB_PORT` asks for; a value that is no port
/// number asks for nothing.
pub open spec fn asked_port(var: Option<Seq<char>>) -> Option<nat> {
    match var {
        Some(s) => match unsigned(s, 65535) {
            Ok(p) => Some(p),
            Err(_) => None,
        },
        None => None,
    }
}

/// The port to listen on.
pub fn salad_queue_config(var: Option<&str>) -> (r: u16)
    ensures
        r == match asked_port(opt_text(var)) {
            Some(p) => p,
            None => DEFAULT_JOB_PORT as nat,
        },
{
    match var {
        Some(s) => match parse_unsigned(s, 65535) {
            Ok(p) => p as u16,
            Err(_) => DEFAULT_JOB_PORT,
        },
        None => DEFAULT_JOB_PORT,
    }
}

/// What a chunk came to: an error in computing it is the chunk's failure, not the
/// worker's. Without the means to compute, the chunk cannot be done at all.
pub fn compute_chunk(computed: Option<Result<(), String>>) -> (r: Result<ChunkOutcome, CloudError>)
    ensures
        match computed {
            Some(Ok(_)) => r matches Ok(ChunkOutcome::Done),
            Some(Err(e)) => r matches Ok(ChunkOutcome::Failed { error }) && error@ == e@,
            None => r matches Err(CloudError::Compute(m)) && m@
                == "salad glue build has no encode+score compute; rebuild zen-sweep-worker with --features salad-sweep"@,
        },
{
    match computed {
        Some(Ok(_)) => Ok(ChunkOutcome::Done),
        Some(Err(error)) => Ok(ChunkOutcome::Failed { error }),
        None => Err(
            CloudError::Compute(
                copy(
                    "salad glue build has no encode+score compute; rebuild zen-sweep-worker with --features salad-sweep",
                ),
            ),
        ),
    }
}

/// A port is read from its decimal digits, and there is none beyond the last one.
pub proof fn law_port_reads_back(n: nat)
    ensures
        asked_port(Some(decimal(n))) == (if n <= 65535 {
            Some(n)
        } else {
            None
        }),
        asked_port(None) is None,
{
    if n <= 65535 {
        law_decimal_reads_back(n, 65535);
    } else {
        law_large_number_refused(n, 65535);
    }
}

} // verus!
