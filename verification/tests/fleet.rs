use std::cell::RefCell;
use std::collections::HashMap;
use zen_metrics::fleet::error::CloudError;
use zen_metrics::fleet::r2creds::{
    clamp_ttl, mint_scoped_r2_cred_with, request_body, temp_creds_url, CfEnvelope, CfError,
    MintReply, Permission, TempCredsRequest, TempCredsResult, CF_API_BASE, MAX_TTL_SECONDS,
    MIN_TTL_SECONDS,
};
use zen_metrics::fleet::run::{chunk_outcome, run_worker};
use zen_metrics::fleet::salad::{compute_chunk, salad_queue_config};
use zen_metrics::fleet::traits::{BlobStorage, Heartbeat, JobQueue, WorkerHost};
use zen_metrics::fleet::types::{
    ArtifactKey, BlobMeta, Chunk, ChunkId, ChunkOutcome, WorkerId, WorkerStatus, WorkerSummary,
};
use zen_metrics::json::Json;

/// A queue over a list of chunks; it can be told to fail.
struct VecQueue {
    chunks: Vec<Chunk>,
    idx: usize,
    acks: RefCell<Vec<(String, ChunkOutcome)>>,
    fail_next_at: Option<usize>,
    fail_ack: bool,
}

impl VecQueue {
    fn of(ids: &[&str]) -> VecQueue {
        VecQueue {
            chunks: mk_chunks(ids),
            idx: 0,
            acks: RefCell::new(Vec::new()),
            fail_next_at: None,
            fail_ack: false,
        }
    }
}

impl JobQueue for VecQueue {
    fn next_chunk(&mut self) -> Result<Option<Chunk>, CloudError> {
        if self.fail_next_at == Some(self.idx) {
            return Err(CloudError::queue("gone"));
        }
        if self.idx < self.chunks.len() {
            let c = &self.chunks[self.idx];
            self.idx += 1;
            Ok(Some(Chunk {
                id: ChunkId(c.id.0.clone()),
                payload: c.payload.clone(),
            }))
        } else {
            Ok(None)
        }
    }
    fn ack_chunk(&mut self, id: &ChunkId, outcome: ChunkOutcome) -> Result<(), CloudError> {
        if self.fail_ack {
            return Err(CloudError::queue("no ack"));
        }
        self.acks.borrow_mut().push((id.0.clone(), outcome));
        Ok(())
    }
}

/// A store in memory.
struct MemStore {
    map: RefCell<HashMap<String, Vec<u8>>>,
}

impl MemStore {
    fn empty() -> MemStore {
        MemStore {
            map: RefCell::new(HashMap::new()),
        }
    }
}

impl BlobStorage for MemStore {
    fn put(&self, key: &ArtifactKey, bytes: &[u8]) -> Result<(), CloudError> {
        self.map.borrow_mut().insert(key.0.clone(), bytes.to_vec());
        Ok(())
    }
    fn get(&self, key: &ArtifactKey) -> Result<Vec<u8>, CloudError> {
        match self.map.borrow().get(&key.0) {
            Some(b) => Ok(b.clone()),
            None => Err(CloudError::Storage(format!("missing {}", key.0))),
        }
    }
    fn head(&self, key: &ArtifactKey) -> Result<Option<BlobMeta>, CloudError> {
        Ok(self.map.borrow().get(&key.0).map(|b| BlobMeta {
            size: b.len() as u64,
            etag: None,
        }))
    }
    fn list(&self, prefix: &str) -> Result<Vec<ArtifactKey>, CloudError> {
        Ok(self
            .map
            .borrow()
            .keys()
            .filter(|k| k.starts_with(prefix))
            .map(|k| ArtifactKey(k.clone()))
            .collect())
    }
    fn delete(&self, key: &ArtifactKey) -> Result<(), CloudError> {
        self.map.borrow_mut().remove(&key.0);
        Ok(())
    }
}

/// Keeps the beats, and what had happened by then; it can be told to fail.
struct KeptBeats<'a> {
    seen: &'a RefCell<Vec<String>>,
    fail: bool,
}

impl Heartbeat for KeptBeats<'_> {
    fn beat(&self, w: &WorkerId, s: WorkerStatus) -> Result<(), CloudError> {
        self.seen.borrow_mut().push(format!("{} {s:?}", w.0));
        if self.fail {
            Err(CloudError::queue("no beat"))
        } else {
            Ok(())
        }
    }
}

#[test]
fn beats_come_in_order_and_stop_nothing() {
    let run = |fail: bool| {
        let seen = RefCell::new(Vec::new());
        let mut q = VecQueue::of(&["a", "b"]);
        let beat = KeptBeats { seen: &seen, fail };
        let s = run_worker(&mut q, &MemStore::empty(), &beat, &TestHost, |c, _s, _h| {
            seen.borrow_mut().push(format!("compute {}", c.id.0));
            Ok(ChunkOutcome::Done)
        })
        .unwrap();
        let acks = q.acks.borrow().len();
        (s, acks, seen.into_inner())
    };
    let (s, acks, seen) = run(false);
    assert_eq!((s.dispatched, acks), (2, 2));
    assert_eq!(
        seen,
        vec![
            "test-worker Starting",
            "test-worker Working { in_flight: 1 }",
            "compute a",
            "test-worker Working { in_flight: 1 }",
            "compute b",
            "test-worker Draining",
            "test-worker Done",
        ]
    );
    assert_eq!(run(true), (s, acks, seen));
}

struct NoopBeat;
impl Heartbeat for NoopBeat {
    fn beat(&self, _w: &WorkerId, _s: WorkerStatus) -> Result<(), CloudError> {
        Ok(())
    }
}

struct DeadBeat;
impl Heartbeat for DeadBeat {
    fn beat(&self, _w: &WorkerId, _s: WorkerStatus) -> Result<(), CloudError> {
        Err(CloudError::Heartbeat("down".to_string()))
    }
}

struct TestHost;
impl WorkerHost for TestHost {
    fn worker_id(&self) -> WorkerId {
        WorkerId("test-worker".to_string())
    }
    fn scratch_dir(&self) -> String {
        "/tmp".to_string()
    }
    fn gpu_count(&self) -> usize {
        0
    }
}

fn mk_chunks(ids: &[&str]) -> Vec<Chunk> {
    ids.iter()
        .map(|i| Chunk {
            id: ChunkId((*i).to_string()),
            payload: format!("{{\"chunk_id\":\"{i}\"}}"),
        })
        .collect()
}

#[test]
fn drains_queue_and_counts_outcomes() {
    let mut q = VecQueue::of(&["a", "b", "c", "d"]);
    let store = MemStore::empty();
    let beat = NoopBeat;
    let host = TestHost;
    let summary = run_worker(
        &mut q,
        &store,
        &beat,
        &host,
        |chunk: &Chunk, s: &MemStore, _h: &TestHost| {
            let outcome = match chunk.id.as_str() {
                "a" | "d" => {
                    s.put(&ArtifactKey(format!("out/{}", chunk.id.as_str())), b"ok")?;
                    ChunkOutcome::Done
                }
                "b" => ChunkOutcome::Skipped {
                    reason: "exists".to_string(),
                },
                _ => ChunkOutcome::Failed {
                    error: "boom".to_string(),
                },
            };
            Ok(outcome)
        },
    )
    .expect("loop should not error");
    assert_eq!(summary.dispatched, 4);
    assert_eq!(summary.done, 2);
    assert_eq!(summary.skipped, 1);
    assert_eq!(summary.failed, 1);
    assert_eq!(store.list("out/").unwrap().len(), 2);
    assert_eq!(q.acks.borrow().len(), 4);
    // Every chunk is acknowledged under its own name, in the queue's order.
    let names: Vec<String> = q.acks.borrow().iter().map(|a| a.0.clone()).collect();
    assert_eq!(names, vec!["a", "b", "c", "d"]);
}

#[test]
fn compute_error_becomes_failed_not_loop_abort() {
    let mut q = VecQueue::of(&["x"]);
    let store = MemStore::empty();
    let beat = NoopBeat;
    let host = TestHost;
    let summary = run_worker(
        &mut q,
        &store,
        &beat,
        &host,
        |_c: &Chunk, _s: &MemStore, _h: &TestHost| Err(CloudError::Compute("kaboom".to_string())),
    )
    .expect("a compute error must not abort the loop");
    assert_eq!(summary.dispatched, 1);
    assert_eq!(summary.failed, 1);
    let acks = q.acks.borrow();
    match &acks[0].1 {
        ChunkOutcome::Failed { error } => assert!(error.contains("kaboom")),
        other => panic!("expected Failed, got {other:?}"),
    }
}

#[test]
fn empty_queue_yields_empty_summary() {
    let mut q = VecQueue::of(&[]);
    let store = MemStore::empty();
    let beat = NoopBeat;
    let host = TestHost;
    let summary = run_worker(
        &mut q,
        &store,
        &beat,
        &host,
        |_c: &Chunk, _s: &MemStore, _h: &TestHost| Ok(ChunkOutcome::Done),
    )
    .unwrap();
    assert_eq!(summary, WorkerSummary::default());
}

#[test]
fn heartbeat_failures_are_passed_over() {
    let mut q = VecQueue::of(&["a", "b"]);
    let store = MemStore::empty();
    let summary = run_worker(
        &mut q,
        &store,
        &DeadBeat,
        &TestHost,
        |_c: &Chunk, _s: &MemStore, _h: &TestHost| Ok(ChunkOutcome::Done),
    )
    .unwrap();
    assert_eq!(summary.done, 2);
}

#[test]
fn queue_failures_stop_the_worker() {
    let mut q = VecQueue::of(&["a", "b"]);
    q.fail_next_at = Some(1);
    let store = MemStore::empty();
    let end = run_worker(
        &mut q,
        &store,
        &NoopBeat,
        &TestHost,
        |_c: &Chunk, _s: &MemStore, _h: &TestHost| Ok(ChunkOutcome::Done),
    );
    assert_eq!(end.unwrap_err().message(), "job queue: gone");
    assert_eq!(q.acks.borrow().len(), 1);

    let mut q = VecQueue::of(&["a"]);
    q.fail_ack = true;
    let end = run_worker(
        &mut q,
        &store,
        &NoopBeat,
        &TestHost,
        |_c: &Chunk, _s: &MemStore, _h: &TestHost| Ok(ChunkOutcome::Done),
    );
    assert_eq!(end.unwrap_err().message(), "job queue: no ack");
}

#[test]
fn every_dispatched_chunk_is_counted_once() {
    let mut q = VecQueue::of(&["a", "b", "c"]);
    let store = MemStore::empty();
    let s = run_worker(
        &mut q,
        &store,
        &NoopBeat,
        &TestHost,
        |c: &Chunk, _s: &MemStore, _h: &TestHost| {
            Ok(if c.id.as_str() == "b" {
                ChunkOutcome::Retryable {
                    error: "later".to_string(),
                }
            } else {
                ChunkOutcome::Done
            })
        },
    )
    .unwrap();
    assert_eq!(s.dispatched, s.done + s.skipped + s.failed);
    assert_eq!(s.dispatched, 3);
}

#[test]
fn replies_become_outcomes() {
    assert!(matches!(
        chunk_outcome(Ok(ChunkOutcome::Done)),
        ChunkOutcome::Done
    ));
    match chunk_outcome(Err(CloudError::Storage("full".to_string()))) {
        ChunkOutcome::Failed { error } => assert_eq!(error, "blob storage: full"),
        other => panic!("expected Failed, got {other:?}"),
    }
}

#[test]
fn error_messages() {
    assert_eq!(CloudError::queue("a").message(), "job queue: a");
    assert_eq!(CloudError::storage("a").message(), "blob storage: a");
    assert_eq!(
        CloudError::Heartbeat("a".to_string()).message(),
        "heartbeat: a"
    );
    assert_eq!(
        CloudError::Credentials("a".to_string()).message(),
        "credentials: a"
    );
    assert_eq!(CloudError::Host("a".to_string()).message(), "worker host: a");
    assert_eq!(CloudError::Compute("a".to_string()).message(), "compute: a");
    assert_eq!(CloudError::Other("a".to_string()).message(), "a");
}

#[test]
fn salad_port_and_chunks() {
    assert_eq!(salad_queue_config(Some("8080")), 8080);
    assert_eq!(salad_queue_config(Some("70000")), 80);
    assert_eq!(salad_queue_config(Some("x")), 80);
    assert_eq!(salad_queue_config(None), 80);
    assert!(matches!(compute_chunk(Some(Ok(()))), Ok(ChunkOutcome::Done)));
    match compute_chunk(Some(Err("no GPU".to_string()))) {
        Ok(ChunkOutcome::Failed { error }) => assert_eq!(error, "no GPU"),
        other => panic!("expected Failed, got {other:?}"),
    }
    assert_eq!(
        compute_chunk(None).unwrap_err().message(),
        "compute: salad glue build has no encode+score compute; \
         rebuild zen-sweep-worker with --features salad-sweep"
    );
}

// ── Scoped credentials ─────────────────────────────────────────────────

fn text_in(v: &Json, key: &str) -> Option<String> {
    match v {
        Json::Object(m) => {
            for (k, x) in m {
                if k == key {
                    return match x {
                        Json::Str(s) => Some(s.clone()),
                        Json::Number(n) => Some(n.text.clone()),
                        _ => None,
                    };
                }
            }
            None
        }
        _ => None,
    }
}

fn list_in(v: &Json, key: &str) -> Option<Vec<String>> {
    match v {
        Json::Object(m) => {
            for (k, x) in m {
                if k == key {
                    if let Json::Array(a) = x {
                        return Some(
                            a.iter()
                                .map(|t| match t {
                                    Json::Str(s) => s.clone(),
                                    _ => "?".to_string(),
                                })
                                .collect(),
                        );
                    }
                }
            }
            None
        }
        _ => None,
    }
}

fn ask(
    bucket: &str,
    key: &str,
    secret: &str,
    permission: Permission,
    ttl_seconds: u64,
    prefixes: Vec<String>,
) -> TempCredsRequest {
    TempCredsRequest {
        bucket: bucket.to_string(),
        parent_access_key_id: key.to_string(),
        parent_secret_access_key: secret.to_string(),
        permission,
        ttl_seconds,
        prefixes,
    }
}

#[test]
fn permission_serializes_to_exact_cf_strings() {
    let wire = |p: Permission| {
        let body = request_body(&ask("b", "k", "s", p, 900, Vec::new()));
        text_in(&body, "permission").unwrap()
    };
    assert_eq!(wire(Permission::ObjectReadWrite), "object-read-write");
    assert_eq!(wire(Permission::ObjectReadOnly), "object-read-only");
    assert_eq!(wire(Permission::AdminReadWrite), "admin-read-write");
    assert_eq!(wire(Permission::AdminReadOnly), "admin-read-only");
    assert_eq!(
        Permission::ObjectReadWrite.as_wire_str(),
        "object-read-write"
    );
}

#[test]
fn request_body_uses_camelcase_and_omits_empty_prefixes() {
    let v = request_body(&ask(
        "zen-tuning-ephemeral",
        "PARENT_KEY",
        "PARENT_SECRET",
        Permission::ObjectReadWrite,
        21_600,
        Vec::new(),
    ));
    assert_eq!(text_in(&v, "bucket").unwrap(), "zen-tuning-ephemeral");
    assert_eq!(text_in(&v, "parentAccessKeyId").unwrap(), "PARENT_KEY");
    assert_eq!(text_in(&v, "parentSecretAccessKey").unwrap(), "PARENT_SECRET");
    assert_eq!(text_in(&v, "permission").unwrap(), "object-read-write");
    assert_eq!(text_in(&v, "ttlSeconds").unwrap(), "21600");
    assert!(list_in(&v, "prefixes").is_none());
}

#[test]
fn request_body_includes_nonempty_prefixes() {
    let prefixes = vec!["runs/sweep-abc/".to_string(), "logs/".to_string()];
    let v = request_body(&ask(
        "b",
        "k",
        "s",
        Permission::ObjectReadOnly,
        900,
        prefixes,
    ));
    let got = list_in(&v, "prefixes").unwrap();
    assert_eq!(got[0], "runs/sweep-abc/");
    assert_eq!(got[1], "logs/");
}

#[test]
fn ttl_is_clamped_to_cf_range() {
    assert_eq!(clamp_ttl(0), MIN_TTL_SECONDS);
    assert_eq!(clamp_ttl(100), MIN_TTL_SECONDS);
    assert_eq!(clamp_ttl(21_600), 21_600);
    assert_eq!(clamp_ttl(u64::MAX), MAX_TTL_SECONDS);
    assert_eq!(clamp_ttl(MAX_TTL_SECONDS + 1), MAX_TTL_SECONDS);
}

#[test]
fn url_is_account_level_not_bucket_scoped() {
    let url = temp_creds_url(CF_API_BASE, "ACCT123");
    assert_eq!(
        url,
        "https://api.cloudflare.com/client/v4/accounts/ACCT123/r2/temp-access-credentials"
    );
    assert!(!url.contains("/buckets/"));
}

/// The envelope of a response, as its bytes were read.
fn envelope(json: &str) -> CfEnvelope {
    let v: serde_json::Value = serde_json::from_str(json).unwrap();
    CfEnvelope {
        success: v["success"].as_bool().unwrap(),
        errors: v["errors"]
            .as_array()
            .unwrap()
            .iter()
            .map(|e| CfError {
                code: e["code"].as_i64().unwrap(),
                message: e["message"].as_str().unwrap().to_string(),
            })
            .collect(),
        result: v["result"].as_object().map(|r| TempCredsResult {
            access_key_id: r["accessKeyId"].as_str().unwrap().to_string(),
            secret_access_key: r["secretAccessKey"].as_str().unwrap().to_string(),
            session_token: r["sessionToken"].as_str().unwrap().to_string(),
        }),
    }
}

#[test]
fn success_envelope_decodes_to_scoped_cred() {
    let env = envelope(
        r#"{
            "success": true,
            "errors": [],
            "messages": [],
            "result": {
                "accessKeyId": "CHILD_AK",
                "secretAccessKey": "CHILD_SK",
                "sessionToken": "SESSION_TOKEN_550_CHARS"
            }
        }"#,
    );
    assert!(env.success);
    let c = mint_scoped_r2_cred_with("b", "u", 10, MintReply::Answer(env), Some(1000)).unwrap();
    assert_eq!(c.access_key_id, "CHILD_AK");
    assert_eq!(c.secret_access_key, "CHILD_SK");
    assert_eq!(c.session_token, "SESSION_TOKEN_550_CHARS");
    assert_eq!(c.expires_at, Some(1900));
}

#[test]
fn failure_envelope_surfaces_code_10015() {
    let env = envelope(
        r#"{
            "success": false,
            "errors": [{"code": 10015, "message": "No route matches this url"}],
            "messages": [],
            "result": null
        }"#,
    );
    assert!(!env.success);
    assert_eq!(env.errors[0].code, 10015);
    assert!(env.errors[0].message.contains("No route"));
    assert!(env.result.is_none());
    let e = mint_scoped_r2_cred_with("b", "u", 900, MintReply::Answer(env), None).unwrap_err();
    assert!(e.message().contains("[10015] No route matches this url"));
}

#[test]
fn unsent_refused_and_unreadable_requests_give_no_cred() {
    let e = mint_scoped_r2_cred_with(
        "b",
        "http://u",
        900,
        MintReply::Unsent("timed out".to_string()),
        None,
    )
    .unwrap_err();
    assert_eq!(e.message(), "credentials: POST http://u: timed out");
    let e = mint_scoped_r2_cred_with(
        "bkt",
        "http://u",
        900,
        MintReply::Status("403 Forbidden".to_string(), "no".to_string()),
        None,
    )
    .unwrap_err();
    assert!(e.message().contains("\"bkt\""), "{}", e.message());
    assert!(e.message().contains("403 Forbidden"));
    let e = mint_scoped_r2_cred_with(
        "bkt",
        "http://u",
        900,
        MintReply::Unreadable("eof".to_string()),
        None,
    )
    .unwrap_err();
    assert!(e.message().contains("eof"));
    // A success without credentials is no success.
    let env = CfEnvelope {
        success: true,
        errors: Vec::new(),
        result: None,
    };
    assert!(mint_scoped_r2_cred_with("b", "u", 900, MintReply::Answer(env), None).is_err());
}
