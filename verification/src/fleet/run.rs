//! The loop of a worker.

use crate::fleet::error::CloudError;
use crate::fleet::traits::{BlobStorage, Heartbeat, JobQueue, QueueEvent, WorkerHost};
use crate::fleet::types::{Chunk, ChunkOutcome, WorkerId, WorkerStatus, WorkerSummary};
use crate::text::copy;
use vstd::prelude::*;

verus! {

// ── One chunk ──────────────────────────────────────────────────────────

/// Is this how a chunk ended whose computation gave `reply`? An error of the
/// computation is a failure of the chunk.
pub open spec fn outcome_for(reply: Result<ChunkOutcome, CloudError>, outcome: ChunkOutcome) -> bool {
    match reply {
        Ok(o) => outcome == o,
        Err(e) => outcome matches ChunkOutcome::Failed { error } && error@ == e.text(),
    }
}

/// How a chunk ended whose computation gave `reply`.
pub fn chunk_outcome(reply: Result<ChunkOutcome, CloudError>) -> (r: ChunkOutcome)
    ensures
        outcome_for(reply, r),
{
    match reply {
        Ok(o) => o,
        Err(e) => ChunkOutcome::Failed { error: e.message() },
    }
}

/// The chunks that were done.
pub open spec fn done_count(outcomes: Seq<ChunkOutcome>) -> nat
    decreases outcomes.len(),
{
    if outcomes.len() == 0 {
        0
    } else {
        done_count(outcomes.drop_last()) + (if outcomes.last() is Done {
            1nat
        } else {
            0
        })
    }
}

/// The chunks that were skipped.
pub open spec fn skipped_count(outcomes: Seq<ChunkOutcome>) -> nat
    decreases outcomes.len(),
{
    if outcomes.len() == 0 {
        0
    } else {
        skipped_count(outcomes.drop_last()) + (if outcomes.last() is Skipped {
            1nat
        } else {
            0
        })
    }
}

/// The chunks that failed, for good or for now.
pub open spec fn failed_count(outcomes: Seq<ChunkOutcome>) -> nat
    decreases outcomes.len(),
{
    if outcomes.len() == 0 {
        0
    } else {
        failed_count(outcomes.drop_last()) + (if outcomes.last() is Failed || outcomes.last() is Retryable {
            1nat
        } else {
            0
        })
    }
}

/// Does the summary count these outcomes?
pub open spec fn counts(s: WorkerSummary, outcomes: Seq<ChunkOutcome>) -> bool {
    &&& s.dispatched == outcomes.len()
    &&& s.done == done_count(outcomes)
    &&& s.skipped == skipped_count(outcomes)
    &&& s.failed == failed_count(outcomes)
}

/// Every chunk is counted once: as done, as skipped or as failed.
pub proof fn law_every_chunk_counted(outcomes: Seq<ChunkOutcome>)
    ensures
        done_count(outcomes) + skipped_count(outcomes) + failed_count(outcomes) == outcomes.len(),
    decreases outcomes.len(),
{
    if outcomes.len() > 0 {
        law_every_chunk_counted(outcomes.drop_last());
    }
}

/// Counts one more outcome.
fn count_outcome(s: &mut WorkerSummary, outcome: &ChunkOutcome, Ghost(before): Ghost<Seq<ChunkOutcome>>)
    requires
        counts(*old(s), before),
        old(s).dispatched < u64::MAX,
    ensures
        counts(*final(s), before.push(*outcome)),
{
    proof {
        law_every_chunk_counted(before);
        assert(before.push(*outcome).drop_last() =~= before);
    }
    s.dispatched = s.dispatched + 1;
    match outcome {
        ChunkOutcome::Done => {
            s.done = s.done + 1;
        },
        ChunkOutcome::Skipped { reason: _ } => {
            s.skipped = s.skipped + 1;
        },
        ChunkOutcome::Failed { error: _ } => {
            s.failed = s.failed + 1;
        },
        ChunkOutcome::Retryable { error: _ } => {
            s.failed = s.failed + 1;
        },
    }
}

// ── The loop ───────────────────────────────────────────────────────────

/// The calls of a worker that took these chunks and ended them so: each chunk is
/// taken and acknowledged before the next one is taken.
pub open spec fn served(chunks: Seq<Chunk>, outcomes: Seq<ChunkOutcome>) -> Seq<QueueEvent>
    decreases chunks.len(),
{
    if chunks.len() == 0 {
        Seq::<QueueEvent>::empty()
    } else {
        served(chunks.drop_last(), outcomes.drop_last()).push(
            QueueEvent::Next(Ok(Some(chunks.last()))),
        ).push(QueueEvent::Ack(chunks.last().id, outcomes.last(), None))
    }
}

/// Did the computation give these outcomes of these chunks?
pub open spec fn computed<S, W, F>(
    compute: F,
    storage: &S,
    host: &W,
    chunks: Seq<Chunk>,
    outcomes: Seq<ChunkOutcome>,
) -> bool where
    S: BlobStorage,
    W: WorkerHost,
    F: Fn(&Chunk, &S, &W) -> Result<ChunkOutcome, CloudError>,
 {
    &&& chunks.len() == outcomes.len()
    &&& forall|i: int|
        0 <= i < chunks.len() ==> ended(compute, storage, host, #[trigger] chunks[i], outcomes[i])
}

/// Did the computation give this outcome of a chunk?
pub open spec fn ended<S, W, F>(
    compute: F,
    storage: &S,
    host: &W,
    chunk: Chunk,
    outcome: ChunkOutcome,
) -> bool where
    S: BlobStorage,
    W: WorkerHost,
    F: Fn(&Chunk, &S, &W) -> Result<ChunkOutcome, CloudError>,
 {
    exists|reply: Result<ChunkOutcome, CloudError>| #[trigger]
        call_ensures(compute, (&chunk, storage, host), reply) && outcome_for(reply, outcome)
}

/// The message of a worker that has taken as many chunks as it can count.
pub open spec fn too_many() -> Seq<char> {
    "too many chunks for one worker"@
}

/// How a worker came to its end, given the calls that it made.
pub open spec fn worker_end<S, W, F>(
    compute: F,
    storage: &S,
    host: &W,
    calls: Seq<QueueEvent>,
    r: Result<WorkerSummary, CloudError>,
    chunks: Seq<Chunk>,
    outcomes: Seq<ChunkOutcome>,
) -> bool where
    S: BlobStorage,
    W: WorkerHost,
    F: Fn(&Chunk, &S, &W) -> Result<ChunkOutcome, CloudError>,
 {
    &&& computed(compute, storage, host, chunks, outcomes)
    &&& match r {
        Ok(s) => {
            &&& calls == served(chunks, outcomes).push(QueueEvent::Next(Ok(None)))
            &&& counts(s, outcomes)
        },
        Err(e) => {
            ||| calls == served(chunks, outcomes).push(QueueEvent::Next(Err(e)))
            ||| exists|chunk: Chunk, outcome: ChunkOutcome|
                #![trigger ended(compute, storage, host, chunk, outcome)]
                ended(compute, storage, host, chunk, outcome) && calls == served(
                    chunks,
                    outcomes,
                ).push(QueueEvent::Next(Ok(Some(chunk)))).push(
                    QueueEvent::Ack(chunk.id, outcome, Some(e)),
                )
            ||| calls == served(chunks, outcomes) && outcomes.len() == u64::MAX && e.text()
                == too_many()
        },
    }
}

// ── Signs of life ──────────────────────────────────────────────────────

/// A beat: who sent it, what it said, how many calls the queue had had by then, and
/// how it was answered.
pub struct Beat {
    pub worker: WorkerId,
    pub status: WorkerStatus,
    pub at: nat,
    pub answer: Result<(), CloudError>,
}

/// A heartbeat with a record of the beats that were sent.
pub struct Beats<'a, H: Heartbeat> {
    heart: &'a H,
    log: Ghost<Seq<Beat>>,
}

impl<'a, H: Heartbeat> Beats<'a, H> {
    /// The heartbeat.
    pub closed spec fn heart(&self) -> &'a H {
        self.heart
    }

    /// The beats that were sent, in their order.
    pub closed spec fn log(&self) -> Seq<Beat> {
        self.log@
    }

    /// A heartbeat that has not sent a beat yet.
    pub fn new(heart: &'a H) -> (r: Self)
        ensures
            r.heart() == heart,
            r.log() == Seq::<Beat>::empty(),
    {
        Beats { heart, log: Ghost(Seq::empty()) }
    }

    /// Sends a beat, whatever its answer.
    fn beat(&mut self, worker: &WorkerId, status: WorkerStatus, Ghost(at): Ghost<nat>)
        ensures
            final(self).heart() == old(self).heart(),
            exists|answer: Result<(), CloudError>| #[trigger]
                old(self).heart().said(*worker, status, answer) && final(self).log() == old(
                    self,
                ).log().push(Beat { worker: *worker, status, at, answer }),
    {
        let answer = self.heart.beat(worker, status);
        proof {
            self.log@ = self.log@.push(Beat { worker: *worker, status, at, answer });
            assert(self.heart.said(*worker, status, answer));
        }
    }
}

/// How many chunks the queue gave.
pub open spec fn taken(calls: Seq<QueueEvent>) -> nat
    decreases calls.len(),
{
    if calls.len() == 0 {
        0
    } else {
        taken(calls.drop_last()) + (match calls.last() {
            QueueEvent::Next(Ok(Some(_))) => 1nat,
            _ => 0,
        })
    }
}

/// What the `i`-th beat of a worker says that was given `n` chunks: it starts, works
/// on one chunk after another, and at the end drains and is done.
pub open spec fn owed_status(i: int, n: nat) -> WorkerStatus {
    if i == 0 {
        WorkerStatus::Starting
    } else if i <= n {
        WorkerStatus::Working { in_flight: 1 }
    } else if i == n + 1 {
        WorkerStatus::Draining
    } else {
        WorkerStatus::Done
    }
}

/// How many calls the queue has had when the `i`-th beat is sent: none at the start;
/// each chunk's beat comes after it was given and before it is acknowledged; the last
/// two come when the queue was found empty.
pub open spec fn owed_at(i: int, n: nat) -> int {
    if i == 0 {
        0
    } else if i <= n {
        2 * i - 1
    } else {
        2 * (n as int) + 1
    }
}

/// Are these the beats of a worker that was given `n` chunks, and that came to its end
/// or did not?
pub open spec fn beats_owed(log: Seq<Beat>, worker: WorkerId, n: nat, ended: bool) -> bool {
    &&& log.len() == 1 + n + (if ended {
        2nat
    } else {
        0
    })
    &&& forall|i: int|
        0 <= i < log.len() ==> {
            &&& (#[trigger] log[i]).worker == worker
            &&& log[i].status == owed_status(i, n)
            &&& log[i].at == owed_at(i, n)
        }
}

/// Were all these beats sent?
pub open spec fn all_said<H: Heartbeat>(heart: &H, log: Seq<Beat>) -> bool {
    forall|i: int|
        0 <= i < log.len() ==> heart.said(
            (#[trigger] log[i]).worker,
            log[i].status,
            log[i].answer,
        )
}

/// The beats of a worker, given the calls that it made and how it ended.
pub open spec fn worker_beats<H: Heartbeat, W: WorkerHost>(
    heart: &H,
    host: &W,
    calls: Seq<QueueEvent>,
    r: Result<WorkerSummary, CloudError>,
    worker: WorkerId,
    log: Seq<Beat>,
) -> bool {
    &&& host.known_as(worker)
    &&& beats_owed(log, worker, taken(calls), r is Ok)
    &&& all_said(heart, log)
}

proof fn lemma_served_taken(chunks: Seq<Chunk>, outcomes: Seq<ChunkOutcome>)
    ensures
        taken(served(chunks, outcomes)) == chunks.len(),
        served(chunks, outcomes).len() == 2 * chunks.len(),
    decreases chunks.len(),
{
    if chunks.len() > 0 {
        let before = served(chunks.drop_last(), outcomes.drop_last());
        let mid = before.push(QueueEvent::Next(Ok(Some(chunks.last()))));
        lemma_served_taken(chunks.drop_last(), outcomes.drop_last());
        lemma_taken_push(before, QueueEvent::Next(Ok(Some(chunks.last()))));
        lemma_taken_push(mid, QueueEvent::Ack(chunks.last().id, outcomes.last(), None));
    }
}

proof fn lemma_taken_push(calls: Seq<QueueEvent>, e: QueueEvent)
    ensures
        taken(calls.push(e)) == taken(calls) + (match e {
            QueueEvent::Next(Ok(Some(_))) => 1nat,
            _ => 0,
        }),
{
    assert(calls.push(e).drop_last() =~= calls);
}

/// Runs a worker as [`run_worker`] does, with a record of its beats.
pub fn run_beating_worker<Q, S, H, W, F>(
    queue: &mut Q,
    storage: &S,
    beats: &mut Beats<H>,
    host: &W,
    compute: F,
) -> (r: Result<WorkerSummary, CloudError>) where
    Q: JobQueue,
    S: BlobStorage,
    H: Heartbeat,
    W: WorkerHost,
    F: Fn(&Chunk, &S, &W) -> Result<ChunkOutcome, CloudError>,

    requires
        forall|c: Chunk| #[trigger] call_requires(compute, (&c, storage, host)),
    ensures
        final(beats).heart() == old(beats).heart(),
        exists|
            calls: Seq<QueueEvent>,
            chunks: Seq<Chunk>,
            outcomes: Seq<ChunkOutcome>,
            worker: WorkerId,
            log: Seq<Beat>,
        |
            #![trigger worker_end(compute, storage, host, calls, r, chunks, outcomes), worker_beats(old(beats).heart(), host, calls, r, worker, log)]
            final(queue).calls() == old(queue).calls() + calls && worker_end(
                compute,
                storage,
                host,
                calls,
                r,
                chunks,
                outcomes,
            ) && final(beats).log() == old(beats).log() + log && worker_beats(
                old(beats).heart(),
                host,
                calls,
                r,
                worker,
                log,
            ),
{
    let worker = host.worker_id();
    let ghost heart = beats.heart();
    let ghost sent = beats.log();
    beats.beat(&worker, WorkerStatus::Starting, Ghost(0));
    let ghost mut log = beats.log().skip(sent.len() as int);
    assert(beats.log() =~= sent + log);
    let mut summary: WorkerSummary = WorkerSummary::default();
    let ghost base = queue.calls();
    let ghost mut chunks = Seq::<Chunk>::empty();
    let ghost mut outcomes = Seq::<ChunkOutcome>::empty();
    assert(base + served(chunks, outcomes) =~= base);
    while summary.dispatched < u64::MAX
        invariant
            forall|c: Chunk| #[trigger] call_requires(compute, (&c, storage, host)),
            base == old(queue).calls(),
            queue.calls() == base + served(chunks, outcomes),
            computed(compute, storage, host, chunks, outcomes),
            counts(summary, outcomes),
            heart == old(beats).heart(),
            beats.heart() == heart,
            sent == old(beats).log(),
            beats.log() == sent + log,
            host.known_as(worker),
            beats_owed(log, worker, chunks.len(), false),
            all_said(heart, log),
        decreases u64::MAX - summary.dispatched,
    {
        let next = queue.next_chunk();
        match next {
            Err(e) => {
                proof {
                    let calls = served(chunks, outcomes).push(QueueEvent::Next(next));
                    assert(queue.calls() =~= base + calls);
                    lemma_served_taken(chunks, outcomes);
                    lemma_taken_push(served(chunks, outcomes), QueueEvent::Next(next));
                    assert(worker_end(
                        compute,
                        storage,
                        host,
                        calls,
                        Err(e),
                        chunks,
                        outcomes,
                    ));
                    assert(worker_beats(heart, host, calls, Err(e), worker, log));
                }
                return Err(e);
            },
            Ok(None) => {
                beats.beat(
                    &worker,
                    WorkerStatus::Draining,
                    Ghost((queue.calls().len() - base.len()) as nat),
                );
                let ghost half = beats.log();
                beats.beat(
                    &worker,
                    WorkerStatus::Done,
                    Ghost((queue.calls().len() - base.len()) as nat),
                );
                proof {
                    lemma_served_taken(chunks, outcomes);
                    lemma_taken_push(served(chunks, outcomes), QueueEvent::Next(next));
                    let all = log.push(half.last()).push(beats.log().last());
                    assert(half =~= sent + log.push(half.last()));
                    assert(beats.log() =~= sent + all);
                    assert(beats_owed(all, worker, chunks.len(), true));
                    assert(all_said(heart, all));
                    let calls = served(chunks, outcomes).push(QueueEvent::Next(next));
                    assert(queue.calls() =~= base + calls);
                    assert(worker_end(
                        compute,
                        storage,
                        host,
                        calls,
                        Ok(summary),
                        chunks,
                        outcomes,
                    ));
                    assert(worker_beats(heart, host, calls, Ok(summary), worker, all));
                }
                return Ok(summary);
            },
            Ok(Some(chunk)) => {
                proof {
                    lemma_served_taken(chunks, outcomes);
                }
                beats.beat(
                    &worker,
                    WorkerStatus::Working { in_flight: 1 },
                    Ghost((queue.calls().len() - base.len()) as nat),
                );
                proof {
                    let longer = log.push(beats.log().last());
                    assert(beats.log() =~= sent + longer);
                    assert(beats_owed(longer, worker, chunks.len() + 1, false));
                    assert(all_said(heart, longer));
                    log = longer;
                }
                let reply = compute(&chunk, storage, host);
                let ghost given = reply;
                let outcome = chunk_outcome(reply);
                let ghost kept = outcome;
                assert(call_ensures(compute, (&chunk, storage, host), given));
                assert(ended(compute, storage, host, chunk, kept));
                count_outcome(&mut summary, &outcome, Ghost(outcomes));
                let acked = queue.ack_chunk(&chunk.id, outcome);
                match acked {
                    Err(e) => {
                        proof {
                            let calls = served(chunks, outcomes).push(QueueEvent::Next(next)).push(
                                QueueEvent::Ack(chunk.id, kept, Some(e)),
                            );
                            assert(queue.calls() =~= base + calls);
                            assert(worker_end(
                                compute,
                                storage,
                                host,
                                calls,
                                Err(e),
                                chunks,
                                outcomes,
                            ));
                            lemma_taken_push(served(chunks, outcomes), QueueEvent::Next(next));
                            lemma_taken_push(
                                served(chunks, outcomes).push(QueueEvent::Next(next)),
                                QueueEvent::Ack(chunk.id, kept, Some(e)),
                            );
                            assert(worker_beats(heart, host, calls, Err(e), worker, log));
                        }
                        return Err(e);
                    },
                    Ok(_) => {},
                }
                proof {
                    let c1 = chunks.push(chunk);
                    let o1 = outcomes.push(kept);
                    assert(c1.drop_last() =~= chunks);
                    assert(o1.drop_last() =~= outcomes);
                    assert(queue.calls() =~= base + served(c1, o1));
                    assert forall|i: int| 0 <= i < c1.len() implies ended(
                        compute,
                        storage,
                        host,
                        #[trigger] c1[i],
                        o1[i],
                    ) by {
                        if i < chunks.len() {
                            assert(ended(compute, storage, host, chunks[i], outcomes[i]));
                        }
                    }
                    chunks = c1;
                    outcomes = o1;
                }
            },
        }
    }
    let e = CloudError::Other(copy("too many chunks for one worker"));
    proof {
        assert(worker_end(
            compute,
            storage,
            host,
            served(chunks, outcomes),
            Err(e),
            chunks,
            outcomes,
        ));
        lemma_served_taken(chunks, outcomes);
        assert(worker_beats(heart, host, served(chunks, outcomes), Err(e), worker, log));
    }
    Err(e)
}

/// Runs a worker until its queue is empty: takes a chunk, computes it, and says how
/// it ended. Only the queue can stop the worker early; a computation that fails is
/// a failed chunk, and a heartbeat that fails is passed over. A worker that has
/// taken as many chunks as it can count stops with an error. It sends a beat when it
/// starts, one for each chunk before the chunk is computed, and two at its end.
pub fn run_worker<Q, S, H, W, F>(
    queue: &mut Q,
    storage: &S,
    heartbeat: &H,
    host: &W,
    compute: F,
) -> (r: Result<WorkerSummary, CloudError>) where
    Q: JobQueue,
    S: BlobStorage,
    H: Heartbeat,
    W: WorkerHost,
    F: Fn(&Chunk, &S, &W) -> Result<ChunkOutcome, CloudError>,

    requires
        forall|c: Chunk| #[trigger] call_requires(compute, (&c, storage, host)),
    ensures
        exists|
            calls: Seq<QueueEvent>,
            chunks: Seq<Chunk>,
            outcomes: Seq<ChunkOutcome>,
            worker: WorkerId,
            log: Seq<Beat>,
        |
            #![trigger worker_end(compute, storage, host, calls, r, chunks, outcomes), worker_beats(heartbeat, host, calls, r, worker, log)]
            final(queue).calls() == old(queue).calls() + calls && worker_end(
                compute,
                storage,
                host,
                calls,
                r,
                chunks,
                outcomes,
            ) && worker_beats(heartbeat, host, calls, r, worker, log),
{
    let mut beats = Beats::new(heartbeat);
    run_beating_worker(queue, storage, &mut beats, host, compute)
}

// ── Laws of the loop ───────────────────────────────────────────────────

/// A worker that comes to its end has taken and acknowledged every chunk that it
/// counts, and has found the queue empty.
pub proof fn law_finished_worker_acked_all<S, W, F>(
    compute: F,
    storage: &S,
    host: &W,
    calls: Seq<QueueEvent>,
    s: WorkerSummary,
    chunks: Seq<Chunk>,
    outcomes: Seq<ChunkOutcome>,
) where
    S: BlobStorage,
    W: WorkerHost,
    F: Fn(&Chunk, &S, &W) -> Result<ChunkOutcome, CloudError>,

    requires
        worker_end(compute, storage, host, calls, Ok(s), chunks, outcomes),
    ensures
        calls.len() == 2 * s.dispatched + 1,
        calls.last() == QueueEvent::Next(Ok(None)),
        s.dispatched == s.done + s.skipped + s.failed,
{
    lemma_served_taken(chunks, outcomes);
    law_every_chunk_counted(outcomes);
}

/// Only the queue stops a worker early: where it answers every call without an
/// error, the worker comes to its end, whatever its computation gave.
pub proof fn law_only_queue_stops_worker<S, W, F>(
    compute: F,
    storage: &S,
    host: &W,
    calls: Seq<QueueEvent>,
    r: Result<WorkerSummary, CloudError>,
    chunks: Seq<Chunk>,
    outcomes: Seq<ChunkOutcome>,
) where
    S: BlobStorage,
    W: WorkerHost,
    F: Fn(&Chunk, &S, &W) -> Result<ChunkOutcome, CloudError>,

    requires
        worker_end(compute, storage, host, calls, r, chunks, outcomes),
        outcomes.len() < u64::MAX,
        forall|i: int|
            0 <= i < calls.len() ==> match #[trigger] calls[i] {
                QueueEvent::Next(a) => a is Ok,
                QueueEvent::Ack(_, _, fault) => fault is None,
            },
    ensures
        r is Ok,
{
    if r is Err {
        let last = calls[calls.len() - 1];
        assert(match last {
            QueueEvent::Next(a) => a is Ok,
            QueueEvent::Ack(_, _, fault) => fault is None,
        });
    }
}

/// A run of a worker: how it ended, the calls that it made and the beats that it sent.
pub open spec fn worker_run<S, W, F>(
    compute: F,
    storage: &S,
    host: &W,
    calls: Seq<QueueEvent>,
    r: Result<WorkerSummary, CloudError>,
    chunks: Seq<Chunk>,
    outcomes: Seq<ChunkOutcome>,
    worker: WorkerId,
    log: Seq<Beat>,
) -> bool where
    S: BlobStorage,
    W: WorkerHost,
    F: Fn(&Chunk, &S, &W) -> Result<ChunkOutcome, CloudError>,
 {
    &&& worker_end(compute, storage, host, calls, r, chunks, outcomes)
    &&& beats_owed(log, worker, taken(calls), r is Ok)
}

/// A failed beat changes nothing: a run with its beats answered in any other way is a
/// run too, with the same result, the same calls and the same beats.
pub proof fn law_failed_beats_change_nothing<S, W, F>(
    compute: F,
    storage: &S,
    host: &W,
    calls: Seq<QueueEvent>,
    r: Result<WorkerSummary, CloudError>,
    chunks: Seq<Chunk>,
    outcomes: Seq<ChunkOutcome>,
    worker: WorkerId,
    log: Seq<Beat>,
    answers: Seq<Result<(), CloudError>>,
) where
    S: BlobStorage,
    W: WorkerHost,
    F: Fn(&Chunk, &S, &W) -> Result<ChunkOutcome, CloudError>,

    requires
        worker_run(compute, storage, host, calls, r, chunks, outcomes, worker, log),
        answers.len() == log.len(),
    ensures
        worker_run(
            compute,
            storage,
            host,
            calls,
            r,
            chunks,
            outcomes,
            worker,
            Seq::new(log.len(), |i: int| Beat { answer: answers[i], ..log[i] }),
        ),
{
}

/// A worker that comes to its end has sent a beat when it started, one for each chunk
/// that it counts, and two when the queue was empty.
pub proof fn law_finished_worker_beats<S, W, F>(
    compute: F,
    storage: &S,
    host: &W,
    calls: Seq<QueueEvent>,
    s: WorkerSummary,
    chunks: Seq<Chunk>,
    outcomes: Seq<ChunkOutcome>,
    worker: WorkerId,
    log: Seq<Beat>,
) where
    S: BlobStorage,
    W: WorkerHost,
    F: Fn(&Chunk, &S, &W) -> Result<ChunkOutcome, CloudError>,

    requires
        worker_run(compute, storage, host, calls, Ok(s), chunks, outcomes, worker, log),
    ensures
        log.len() == s.dispatched + 3,
        log[0].status == WorkerStatus::Starting,
        forall|i: int|
            1 <= i <= s.dispatched ==> (#[trigger] log[i]).status == (WorkerStatus::Working {
                in_flight: 1,
            }) && calls[log[i].at - 1] == QueueEvent::Next(Ok(Some(chunks[i - 1]))),
        log[s.dispatched + 1].status == WorkerStatus::Draining,
        log[s.dispatched + 2].status == WorkerStatus::Done,
{
    lemma_served_taken(chunks, outcomes);
    lemma_taken_push(served(chunks, outcomes), QueueEvent::Next(Ok(None)));
    assert forall|i: int| 1 <= i <= s.dispatched implies (#[trigger] log[i]).status == (
    WorkerStatus::Working { in_flight: 1 }) && calls[log[i].at - 1] == QueueEvent::Next(
        Ok(Some(chunks[i - 1])),
    ) by {
        lemma_served_at(chunks, outcomes, i - 1);
    }
}

proof fn lemma_served_at(chunks: Seq<Chunk>, outcomes: Seq<ChunkOutcome>, i: int)
    requires
        0 <= i < chunks.len(),
        chunks.len() == outcomes.len(),
    ensures
        2 * i + 1 < served(chunks, outcomes).len(),
        served(chunks, outcomes)[2 * i] == QueueEvent::Next(Ok(Some(chunks[i]))),
        served(chunks, outcomes)[2 * i + 1] == QueueEvent::Ack(chunks[i].id, outcomes[i], None),
    decreases chunks.len(),
{
    lemma_served_taken(chunks, outcomes);
    lemma_served_taken(chunks.drop_last(), outcomes.drop_last());
    if i < chunks.len() - 1 {
        lemma_served_at(chunks.drop_last(), outcomes.drop_last(), i);
    }
}

/// An outcome adds one to the chunks that ended like it and to no others; one that may
/// be tried again has failed here.
pub proof fn law_chunk_counted_under_its_outcome(outcomes: Seq<ChunkOutcome>, o: ChunkOutcome)
    ensures
        done_count(outcomes.push(o)) - done_count(outcomes) == (if o is Done {
            1int
        } else {
            0
        }),
        skipped_count(outcomes.push(o)) - skipped_count(outcomes) == (if o is Skipped {
            1int
        } else {
            0
        }),
        failed_count(outcomes.push(o)) - failed_count(outcomes) == (if o is Failed || o
            is Retryable {
            1int
        } else {
            0
        }),
        done_count(Seq::<ChunkOutcome>::empty()) == 0,
        skipped_count(Seq::<ChunkOutcome>::empty()) == 0,
        failed_count(Seq::<ChunkOutcome>::empty()) == 0,
{
    assert(outcomes.push(o).drop_last() =~= outcomes);
}

/// A computation that fails leaves a failed chunk with its message; any other ends as it
/// says.
pub proof fn law_failed_computation_fails_its_chunk(
    reply: Result<ChunkOutcome, CloudError>,
    outcome: ChunkOutcome,
)
    requires
        outcome_for(reply, outcome),
    ensures
        reply matches Err(e) ==> (outcome matches ChunkOutcome::Failed { error } && error@
            == e.text()),
        reply matches Ok(o) ==> outcome == o,
{
}

/// Each chunk is acknowledged right after it was taken, by its own name and with its own
/// outcome.
pub proof fn law_chunk_acked_as_it_ended(chunks: Seq<Chunk>, outcomes: Seq<ChunkOutcome>, i: int)
    requires
        chunks.len() == outcomes.len(),
        0 <= i < chunks.len(),
    ensures
        served(chunks, outcomes).len() == 2 * chunks.len(),
        served(chunks, outcomes)[2 * i] == QueueEvent::Next(Ok(Some(chunks[i]))),
        served(chunks, outcomes)[2 * i + 1] == QueueEvent::Ack(chunks[i].id, outcomes[i], None),
    decreases chunks.len(),
{
    let c = chunks.drop_last();
    let o = outcomes.drop_last();
    if c.len() > 0 {
        law_chunk_acked_as_it_ended(
            c,
            o,
            if i < c.len() {
                i
            } else {
                0
            },
        );
    } else {
        reveal_with_fuel(served, 2);
        assert(c =~= Seq::<Chunk>::empty());
    }
    if i < c.len() {
        assert(c[i] == chunks[i] && o[i] == outcomes[i]);
    }
}

} // verus!
