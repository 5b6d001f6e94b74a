//! Launching a sweep on a group of servers.

use crate::hetzner::api::text_object;
use crate::hetzner::env::{env_view, holds, EnvVars};
use crate::json::{
    lemma_object_view, members, text_array, texts_json, Json, JsonNumber, JsonView, Members,
};
use crate::text::{
    any_same, chars_of, copy, decimal, ends, is_digit, law_decimal_reads_back, lemma_views_push,
    scanned, show, split, split_at_each, starts, starts_with, substring, trim_end_char, unsigned,
    views, without_trailing, IntFault,
};
use vstd::prelude::*;

verus! {

/// The servers that a project may have.
pub const HETZNER_PROJECT_REPLICA_QUOTA: u32 = 10;

/// The name of a sweep: the one given, or one made from the time.
pub fn sweep_name(given: Option<&str>, stamp: &str) -> (r: String)
    ensures
        r@ == (match given {
            Some(s) => s@,
            None => "hetzner-"@ + stamp@,
        }),
{
    match given {
        Some(s) => copy(s),
        None => {
            let mut n: String = copy("hetzner-");
            n.append(stamp);
            n
        },
    }
}

/// How many chunks a sweep has: as many as given, or three for each replica.
pub fn chunk_count(given: Option<u32>, replicas: u32) -> (r: u32)
    requires
        given is None ==> replicas * 3 <= u32::MAX,
    ensures
        r == (match given {
            Some(n) => n as int,
            None => replicas * 3,
        }),
{
    match given {
        Some(n) => n,
        None => replicas * 3,
    }
}

/// Where in the bucket the list of chunks lies.
pub open spec fn manifest_key(given: Option<Seq<char>>, sweep: Seq<char>) -> Seq<char> {
    match given {
        Some(k) => k,
        None => "runs/"@ + sweep + "/chunks.jsonl"@,
    }
}

/// Where in the bucket the list of chunks lies.
pub fn chunks_key(given: Option<&str>, sweep: &str) -> (r: String)
    ensures
        r@ == manifest_key(crate::text::opt_text(given), sweep@),
{
    match given {
        Some(k) => copy(k),
        None => {
            let mut k: String = copy("runs/");
            k.append(sweep);
            k.append("/chunks.jsonl");
            k
        },
    }
}

/// Where in the bucket the chunks of a sweep wait.
pub open spec fn queue_prefix_of(sweep: Seq<char>) -> Seq<char> {
    "runs/"@ + sweep + "/queue/"@
}

/// Where in the bucket the chunks of a sweep wait.
pub fn queue_prefix(sweep: &str) -> (r: String)
    ensures
        r@ == queue_prefix_of(sweep@),
{
    let mut p: String = copy("runs/");
    p.append(sweep);
    p.append("/queue/");
    p
}

/// A number with at least three digits.
pub open spec fn three_digits(n: nat) -> Seq<char> {
    if n < 10 {
        "00"@ + decimal(n)
    } else if n < 100 {
        "0"@ + decimal(n)
    } else {
        decimal(n)
    }
}

/// A number with at least three digits.
fn show_three(n: u32) -> (r: String)
    ensures
        r@ == three_digits(n as nat),
{
    let d = show(n as u64);
    if n < 10 {
        let mut s: String = copy("00");
        s.append(d.as_str());
        s
    } else if n < 100 {
        let mut s: String = copy("0");
        s.append(d.as_str());
        s
    } else {
        d
    }
}

/// The file of a waiting chunk.
pub open spec fn queue_path(bucket: Seq<char>, sweep: Seq<char>, i: nat) -> Seq<char> {
    "s3://"@ + bucket + "/runs/"@ + sweep + "/queue/scaleup-"@ + three_digits(i) + ".json"@
}

/// The files of the first chunks, three at most.
pub fn first_queue_paths(bucket: &str, sweep: &str, chunks: u32) -> (r: Vec<String>)
    ensures
        r@.len() == (if chunks < 3 {
            chunks as int
        } else {
            3
        }),
        forall|i: int|
            0 <= i < r@.len() ==> (#[trigger] r@[i])@ == queue_path(bucket@, sweep@, i as nat),
{
    let n: u32 = if chunks < 3 {
        chunks
    } else {
        3
    };
    let mut out: Vec<String> = Vec::new();
    let mut i: u32 = 0;
    while i < n
        invariant
            i <= n,
            out@.len() == i,
            forall|j: int|
                0 <= j < i ==> (#[trigger] out@[j])@ == queue_path(bucket@, sweep@, j as nat),
        decreases n - i,
    {
        let mut p: String = copy("s3://");
        p.append(bucket);
        p.append("/runs/");
        p.append(sweep);
        p.append("/queue/scaleup-");
        let d = show_three(i);
        p.append(d.as_str());
        p.append(".json");
        out.push(p);
        i += 1;
    }
    out
}

/// The variables that a preview shows beside those that every worker has.
pub fn preview_env_block(_sweep_id: &str, _r2_account_id: &str, _bucket: &str) -> (r: EnvVars)
    ensures
        r.wf(),
        forall|k: Seq<char>, v: Seq<char>| #[trigger]
            holds(r@, k, v) == (k == "METRICS"@ && v == "ssim2-gpu"@),
{
    let mut m = EnvVars::new();
    m.insert("METRICS", "ssim2-gpu");
    m
}

/// The variables of a worker, without its credentials.
pub open spec fn worker_env(
    sweep: Seq<char>,
    account: Seq<char>,
    bucket: Seq<char>,
    key: Seq<char>,
    k: Seq<char>,
) -> Option<Seq<char>> {
    if k == "METRICS"@ {
        Some("ssim2-gpu"@)
    } else if k == "RUST_LOG"@ {
        Some("info,zencloud_hetzner=info"@)
    } else if k == "WORKER_BACKEND"@ {
        Some("hetzner"@)
    } else if k == "CHUNKS_QUEUE_PREFIX"@ {
        Some(queue_prefix_of(sweep))
    } else if k == "CHUNKS_R2"@ {
        Some("s3://"@ + bucket + "/"@ + key)
    } else if k == "BUCKET"@ {
        Some(bucket)
    } else if k == "R2_ACCOUNT_ID"@ {
        Some(account)
    } else if k == "SWEEP_RUN_ID"@ {
        Some(sweep)
    } else {
        None
    }
}

/// The variables of a worker, without its credentials.
pub fn launch_env(sweep: &str, account: &str, bucket: &str, key: &str) -> (r: EnvVars)
    ensures
        r.wf(),
        forall|k: Seq<char>, v: Seq<char>| #[trigger]
            holds(r@, k, v) == (worker_env(sweep@, account@, bucket@, key@, k) == Some(v)),
{
    let mut m = EnvVars::new();
    m.insert("SWEEP_RUN_ID", sweep);
    m.insert("R2_ACCOUNT_ID", account);
    m.insert("BUCKET", bucket);
    let mut uri: String = copy("s3://");
    uri.append(bucket);
    uri.append("/");
    uri.append(key);
    m.insert("CHUNKS_R2", uri.as_str());
    let q = queue_prefix(sweep);
    m.insert("CHUNKS_QUEUE_PREFIX", q.as_str());
    m.insert("WORKER_BACKEND", "hetzner");
    m.insert("RUST_LOG", "info,zencloud_hetzner=info");
    m.insert("METRICS", "ssim2-gpu");
    m
}

// ── What the credentials reach ─────────────────────────────────────────

/// The first directory of an object of the bucket; none where the object lies in
/// another bucket or at the root.
pub open spec fn top_directory(bucket: Seq<char>, uri: Seq<char>) -> Option<Seq<char>> {
    let root = "s3://"@ + bucket + "/"@;
    if starts(uri, root) {
        let lead = split_at_each(uri.skip(root.len() as int), '/')[0];
        if lead.len() > 0 {
            Some(lead + "/"@)
        } else {
            None
        }
    } else {
        None
    }
}

/// The prefixes with the directory of one more object.
pub open spec fn with_directory(
    prefixes: Seq<Seq<char>>,
    bucket: Seq<char>,
    uri: Seq<char>,
) -> Seq<Seq<char>> {
    match top_directory(bucket, uri) {
        Some(p) => if prefixes.contains(p) {
            prefixes
        } else {
            prefixes.push(p)
        },
        None => prefixes,
    }
}

/// What the credentials of a sweep reach: its own run and the directories of its
/// inputs, each once.
pub open spec fn reach(
    sweep: Seq<char>,
    bucket: Seq<char>,
    parquet: Seq<char>,
    sources: Seq<char>,
) -> Seq<Seq<char>> {
    with_directory(
        with_directory(seq!["runs/"@ + sweep + "/"@], bucket, parquet),
        bucket,
        sources,
    )
}

/// Adds the directory of one more object.
fn add_directory(prefixes: &mut Vec<String>, bucket: &str, uri: &str)
    ensures
        views(final(prefixes)@) == with_directory(views(old(prefixes)@), bucket@, uri@),
{
    let mut root: String = copy("s3://");
    root.append(bucket);
    root.append("/");
    if starts_with(uri, root.as_str()) {
        let a = chars_of(uri);
        let head = chars_of(root.as_str());
        let rest = substring(a.as_slice(), head.len(), a.len());
        assert(rest@ =~= uri@.skip(root@.len() as int));
        let parts = split(rest.as_str(), '/');
        assert(views(parts@)[0] == parts@[0]@);
        if !parts[0].as_str().is_empty() {
            let mut p: String = copy(parts[0].as_str());
            p.append("/");
            if !any_same(prefixes.as_slice(), p.as_str()) {
                proof {
                    lemma_views_push(prefixes@, p);
                }
                prefixes.push(p);
            }
        }
    }
}

/// What the credentials of a sweep reach.
pub fn cred_prefixes(sweep: &str, bucket: &str, parquet: &str, sources: &str) -> (r: Vec<String>)
    ensures
        views(r@) == reach(sweep@, bucket@, parquet@, sources@),
{
    let mut own: String = copy("runs/");
    own.append(sweep);
    own.append("/");
    let mut out: Vec<String> = Vec::new();
    out.push(own);
    assert(views(out@) =~= seq!["runs/"@ + sweep@ + "/"@]);
    add_directory(&mut out, bucket, parquet);
    add_directory(&mut out, bucket, sources);
    out
}

/// The credentials always reach the sweep's own run, and nothing stands twice among
/// what they reach.
pub proof fn law_reach_own_run_once(
    sweep: Seq<char>,
    bucket: Seq<char>,
    parquet: Seq<char>,
    sources: Seq<char>,
)
    ensures
        reach(sweep, bucket, parquet, sources)[0] == "runs/"@ + sweep + "/"@,
        reach(sweep, bucket, parquet, sources).no_duplicates(),
        reach(sweep, bucket, parquet, sources).len() <= 3,
{
    let a = seq!["runs/"@ + sweep + "/"@];
    let b = with_directory(a, bucket, parquet);
    lemma_with_directory(a, bucket, parquet);
    lemma_with_directory(b, bucket, sources);
}

proof fn lemma_with_directory(p: Seq<Seq<char>>, bucket: Seq<char>, uri: Seq<char>)
    requires
        p.no_duplicates(),
        p.len() > 0,
    ensures
        with_directory(p, bucket, uri).no_duplicates(),
        with_directory(p, bucket, uri)[0] == p[0],
        p.len() <= with_directory(p, bucket, uri).len() <= p.len() + 1,
{
    match top_directory(bucket, uri) {
        Some(d) => {
            if !p.contains(d) {
                let q = p.push(d);
                assert forall|i: int, j: int| 0 <= i < q.len() && 0 <= j < q.len() && i != j implies q[i]
                    != q[j] by {
                    if i < p.len() && j < p.len() {
                        assert(p[i] != p[j]);
                    }
                }
            }
        },
        None => {},
    }
}

// ── Before and after ───────────────────────────────────────────────────

/// The objects that must be there before a sweep starts.
pub open spec fn needed(parquet: Seq<char>, sources: Seq<char>, names: Seq<Seq<char>>) -> Seq<
    Seq<char>,
> {
    seq![parquet] + Seq::new(
        names.len(),
        |i: int| without_trailing(sources, '/') + "/"@ + names[i],
    )
}

/// The objects that must be there before a sweep starts.
pub fn preflight_uris(parquet: &str, sources: &str, names: &Vec<String>) -> (r: Vec<String>)
    ensures
        views(r@) == needed(parquet@, sources@, views(names@)),
{
    let dir = trim_end_char(sources, '/');
    let mut out: Vec<String> = vec![copy(parquet)];
    let mut i: usize = 0;
    while i < names.len()
        invariant
            i <= names.len(),
            dir@ == without_trailing(sources@, '/'),
            out@.len() == i + 1,
            out@[0]@ == parquet@,
            forall|j: int| 0 <= j < i ==> (#[trigger] out@[j + 1])@ == dir@ + "/"@ + names@[j]@,
        decreases names.len() - i,
    {
        let mut u: String = copy(dir.as_str());
        u.append("/");
        u.append(names[i].as_str());
        let ghost before = out@;
        out.push(u);
        assert(out@[i + 1] == u);
        assert forall|j: int| 0 <= j < i + 1 implies (#[trigger] out@[j + 1])@ == dir@ + "/"@
            + names@[j]@ by {
            if j < i {
                assert(out@[j + 1] == before[j + 1]);
            }
        }
        i += 1;
    }
    proof {
        let want = needed(parquet@, sources@, views(names@));
        assert forall|k: int| 0 <= k < want.len() implies views(out@)[k] == #[trigger] want[k] by {
            if k > 0 {
                assert(out@[(k - 1) + 1]@ == dir@ + "/"@ + names@[k - 1]@);
                assert(views(names@)[k - 1] == names@[k - 1]@);
            }
        }
        assert(views(out@) =~= want);
    }
    out
}

/// A sweep that leaves its servers behind has failed, unless they were to stay.
pub fn teardown_verdict(torn_down: bool, keep_running: bool, group: &str) -> (r: Result<(), String>)
    ensures
        match r {
            Ok(_) => torn_down || keep_running,
            Err(e) => !torn_down && !keep_running && e@ == "teardown of Hetzner server group "@
                + group@ + " did not succeed"@,
        },
{
    if torn_down || keep_running {
        return Ok(());
    }
    let mut e: String = copy("teardown of Hetzner server group ");
    e.append(group);
    e.append(" did not succeed");
    Err(e)
}

// ── The preview ────────────────────────────────────────────────────────

/// A whole number as JSON.
pub open spec fn count_view(n: u32) -> JsonView {
    JsonView::Number(Some(n as u64), decimal(n as nat))
}

/// A whole number as JSON.
fn count_json(n: u32) -> (r: Json)
    ensures
        r@ == count_view(n),
{
    Json::Number(JsonNumber { unsigned: Some(n as u64), text: show(n as u64) })
}

/// What a launch is asked for.
#[derive(Debug)]
pub struct LaunchPlan {
    pub group: String,
    pub sweep: String,
    pub bucket: String,
    pub server_type: String,
    pub location: String,
    pub replicas_requested: u32,
    pub replicas_provisioned: u32,
    pub chunks: u32,
    pub cells_per_chunk: u32,
}

/// The request that makes the first server, without its script.
pub open spec fn preview_request(p: LaunchPlan) -> JsonView {
    JsonView::Object(
        seq![
            ("image"@, JsonView::Str("ubuntu-24.04"@)),
            ("labels"@, text_object(seq![("group"@, p.group@), ("sweep_id"@, p.sweep@)])),
            ("location"@, JsonView::Str(p.location@)),
            ("name"@, JsonView::Str(p.group@ + "-000"@)),
            ("server_type"@, JsonView::Str(p.server_type@)),
            ("ssh_keys"@, text_array(Seq::<Seq<char>>::empty())),
            ("start_after_create"@, JsonView::Bool(true)),
            ("user_data"@, JsonView::Str("<see preview below>"@)),
        ],
    )
}

/// The files that a preview names.
pub open spec fn preview_paths(p: LaunchPlan) -> Seq<Seq<char>> {
    Seq::new(
        (if p.chunks < 3 {
            p.chunks as nat
        } else {
            3
        }),
        |i: int| queue_path(p.bucket@, p.sweep@, i as nat),
    )
}

/// What a launch would do.
pub open spec fn preview_view(p: LaunchPlan) -> JsonView {
    JsonView::Object(
        seq![
            ("cells_per_chunk"@, count_view(p.cells_per_chunk)),
            ("location"@, JsonView::Str(p.location@)),
            ("queue_paths_first_3"@, text_array(preview_paths(p))),
            ("replicas_provisioned"@, count_view(p.replicas_provisioned)),
            ("replicas_requested"@, count_view(p.replicas_requested)),
            ("server_type"@, JsonView::Str(p.server_type@)),
            ("synthesized_post_body"@, preview_request(p)),
        ],
    )
}

/// The request that makes the first server, without its script.
fn preview_body(p: &LaunchPlan) -> (r: Json)
    ensures
        r@ == preview_request(*p),
{
    let mut labels: Vec<(String, String)> = Vec::new();
    labels.push((copy("group"), copy(p.group.as_str())));
    labels.push((copy("sweep_id"), copy(p.sweep.as_str())));
    assert(env_view(labels@) =~= seq![("group"@, p.group@), ("sweep_id"@, p.sweep@)]);
    let mut name: String = copy(p.group.as_str());
    name.append("-000");
    let keys: Vec<String> = Vec::new();
    assert(views(keys@) =~= Seq::<Seq<char>>::empty());
    crate::hetzner::api::create_server_body(
        name.as_str(),
        p.server_type.as_str(),
        "ubuntu-24.04",
        p.location.as_str(),
        "<see preview below>",
        &keys,
        &labels,
    )
}

/// What a launch would do.
pub fn launch_preview(p: &LaunchPlan) -> (r: Json)
    ensures
        r@ == preview_view(*p),
{
    let paths = first_queue_paths(p.bucket.as_str(), p.sweep.as_str(), p.chunks);
    assert(views(paths@) =~= preview_paths(*p));
    let mut m: Members = Vec::new();
    m.push((copy("cells_per_chunk"), count_json(p.cells_per_chunk)));
    m.push((copy("location"), Json::Str(copy(p.location.as_str()))));
    m.push((copy("queue_paths_first_3"), texts_json(&paths)));
    m.push((copy("replicas_provisioned"), count_json(p.replicas_provisioned)));
    m.push((copy("replicas_requested"), count_json(p.replicas_requested)));
    m.push((copy("server_type"), Json::Str(copy(p.server_type.as_str()))));
    m.push((copy("synthesized_post_body"), preview_body(p)));
    let r = Json::Object(m);
    proof {
        lemma_object_view(r);
        assert(members(m@) =~= preview_view(*p)->Object_0);
    }
    r
}

// ── Laws of sweeps ─────────────────────────────────────────────────────

proof fn lemma_zero_led(s: Seq<char>, max: nat, n: nat)
    requires
        scanned(s, max) == Ok::<nat, IntFault>(n),
    ensures
        scanned(seq!['0'] + s, max) == Ok::<nat, IntFault>(n),
    decreases s.len(),
{
    let t = seq!['0'] + s;
    if s.len() == 0 {
        reveal_with_fuel(scanned, 2);
        assert(t.drop_last() =~= Seq::<char>::empty());
        assert(t.last() == '0');
    } else {
        assert(t.drop_last() =~= seq!['0'] + s.drop_last());
        assert(t.last() == s.last());
        lemma_zero_led(s.drop_last(), max, scanned(s.drop_last(), max)->Ok_0);
    }
}

proof fn lemma_number_scans(n: nat)
    requires
        n < 1000,
    ensures
        scanned(decimal(n), 999) == Ok::<nat, IntFault>(n),
        decimal(n).len() == (if n < 10 {
            1int
        } else if n < 100 {
            2int
        } else {
            3int
        }),
{
    reveal_with_fuel(decimal, 4);
    law_decimal_reads_back(n, 999);
    assert(is_digit(decimal(n)[0]));
}

/// A number below a thousand is written with three digits and reads back.
pub proof fn law_three_digits_read_back(n: nat)
    requires
        n < 1000,
    ensures
        three_digits(n).len() == 3,
        unsigned(three_digits(n), 999) == Ok::<nat, IntFault>(n),
{
    reveal_strlit("0");
    reveal_strlit("00");
    lemma_number_scans(n);
    let d = decimal(n);
    lemma_zero_led(d, 999, n);
    lemma_zero_led(seq!['0'] + d, 999, n);
    if n < 10 {
        assert(three_digits(n) =~= seq!['0'] + (seq!['0'] + d));
    } else if n < 100 {
        assert(three_digits(n) =~= seq!['0'] + d);
    } else {
        law_decimal_reads_back(n, 999);
        assert(is_digit(d[0]));
    }
}

/// The chunks of a sweep wait at different places, all in the sweep's own queue.
pub proof fn law_chunks_wait_apart(bucket: Seq<char>, sweep: Seq<char>, i: nat, j: nat)
    requires
        i < 1000,
        j < 1000,
    ensures
        queue_path(bucket, sweep, i) == queue_path(bucket, sweep, j) ==> i == j,
        starts(queue_path(bucket, sweep, i), "s3://"@ + bucket + "/"@ + queue_prefix_of(sweep)),
{
    law_three_digits_read_back(i);
    law_three_digits_read_back(j);
    let lead = "s3://"@ + bucket + "/runs/"@ + sweep + "/queue/scaleup-"@;
    let a = queue_path(bucket, sweep, i);
    let b = queue_path(bucket, sweep, j);
    let n = lead.len() as int;
    assert(a.subrange(n, n + 3) =~= three_digits(i));
    assert(b.subrange(n, n + 3) =~= three_digits(j));
    reveal_strlit("/runs/");
    reveal_strlit("runs/");
    reveal_strlit("/");
    reveal_strlit("/queue/");
    reveal_strlit("/queue/scaleup-");
    let want = "s3://"@ + bucket + "/"@ + queue_prefix_of(sweep);
    assert("/runs/"@ =~= "/"@ + "runs/"@);
    assert("/queue/scaleup-"@.take("/queue/"@.len() as int) =~= "/queue/"@);
    assert(a.take(want.len() as int) =~= want);
}

/// A worker's variables say which sweep, account, bucket, list of chunks and queue are
/// its own.
pub proof fn law_worker_variables(
    sweep: Seq<char>,
    account: Seq<char>,
    bucket: Seq<char>,
    key: Seq<char>,
    k: Seq<char>,
)
    ensures
        worker_env(sweep, account, bucket, key, k) matches Some(v) ==> {
            ||| k == "SWEEP_RUN_ID"@ && v == sweep
            ||| k == "R2_ACCOUNT_ID"@ && v == account
            ||| k == "BUCKET"@ && v == bucket
            ||| k == "CHUNKS_R2"@ && v == "s3://"@ + bucket + "/"@ + key
            ||| k == "CHUNKS_QUEUE_PREFIX"@ && v == "runs/"@ + sweep + "/queue/"@
            ||| k == "WORKER_BACKEND"@ && v == "hetzner"@
            ||| k == "METRICS"@ && v == "ssim2-gpu"@
            ||| k == "RUST_LOG"@
        },
        k == "SWEEP_RUN_ID"@ || k == "R2_ACCOUNT_ID"@ || k == "BUCKET"@ || k == "CHUNKS_R2"@ || k
            == "CHUNKS_QUEUE_PREFIX"@ || k == "WORKER_BACKEND"@ || k == "METRICS"@ || k
            == "RUST_LOG"@ ==> worker_env(sweep, account, bucket, key, k) is Some,
{
}

proof fn lemma_first_piece(d: Seq<char>, rest: Seq<char>)
    requires
        !d.contains('/'),
    ensures
        split_at_each(d + seq!['/'] + rest, '/')[0] == d,
        split_at_each(d + seq!['/'] + rest, '/').len() > 1,
    decreases rest.len(),
{
    let s = d + seq!['/'] + rest;
    if rest.len() == 0 {
        lemma_one_piece(d);
        assert(s.drop_last() =~= d);
        assert(s.last() == '/');
    } else {
        assert(s.drop_last() =~= d + seq!['/'] + rest.drop_last());
        assert(s.last() == rest.last());
        lemma_first_piece(d, rest.drop_last());
    }
}

proof fn lemma_one_piece(d: Seq<char>)
    requires
        !d.contains('/'),
    ensures
        split_at_each(d, '/') == seq![d],
    decreases d.len(),
{
    if d.len() > 0 {
        let front = d.drop_last();
        assert(d[d.len() - 1] != '/');
        assert(!front.contains('/')) by {
            if front.contains('/') {
                let j = choose|j: int| 0 <= j < front.len() && front[j] == '/';
                assert(d[j] == '/');
            }
        }
        lemma_one_piece(front);
        assert(front.push(d.last()) =~= d);
        assert(split_at_each(d, '/') =~= seq![d]);
    } else {
        assert(d =~= Seq::<char>::empty());
    }
}

/// Of an address in the bucket the first directory is reached, and of an address
/// elsewhere nothing.
pub proof fn law_top_directory(bucket: Seq<char>, d: Seq<char>, rest: Seq<char>, uri: Seq<char>)
    requires
        d.len() > 0,
        !d.contains('/'),
    ensures
        top_directory(bucket, "s3://"@ + bucket + "/"@ + d + "/"@ + rest) == Some(d + "/"@),
        !starts(uri, "s3://"@ + bucket + "/"@) ==> top_directory(bucket, uri) is None,
{
    reveal_strlit("/");
    let root = "s3://"@ + bucket + "/"@;
    let u = "s3://"@ + bucket + "/"@ + d + "/"@ + rest;
    assert(u.take(root.len() as int) =~= root);
    assert(starts(u, root));
    assert(u.skip(root.len() as int) =~= d + seq!['/'] + rest);
    lemma_first_piece(d, rest);
}

/// The credentials reach the directories of the features and of the sources.
pub proof fn law_reach_covers_inputs(
    sweep: Seq<char>,
    bucket: Seq<char>,
    parquet: Seq<char>,
    sources: Seq<char>,
)
    ensures
        top_directory(bucket, parquet) matches Some(p) ==> reach(
            sweep,
            bucket,
            parquet,
            sources,
        ).contains(p),
        top_directory(bucket, sources) matches Some(p) ==> reach(
            sweep,
            bucket,
            parquet,
            sources,
        ).contains(p),
        forall|p: Seq<char>| #[trigger]
            reach(sweep, bucket, parquet, sources).contains(p) ==> p == "runs/"@ + sweep + "/"@
                || top_directory(bucket, parquet) == Some(p) || top_directory(bucket, sources)
                == Some(p),
{
    let own = seq!["runs/"@ + sweep + "/"@];
    let a = with_directory(own, bucket, parquet);
    let b = with_directory(a, bucket, sources);
    match top_directory(bucket, parquet) {
        Some(p) => {
            if !own.contains(p) {
                assert(a[1] == p);
            }
            assert(a.contains(p));
            let k = choose|k: int| 0 <= k < a.len() && a[k] == p;
            assert(b[k] == p);
        },
        None => {},
    }
    match top_directory(bucket, sources) {
        Some(p) => {
            if !a.contains(p) {
                assert(b[b.len() - 1] == p);
            }
        },
        None => {},
    }
    assert forall|p: Seq<char>| #[trigger] b.contains(p) implies p == "runs/"@ + sweep + "/"@
        || top_directory(bucket, parquet) == Some(p) || top_directory(bucket, sources) == Some(p) by {
        let k = choose|k: int| 0 <= k < b.len() && b[k] == p;
        if k < a.len() {
            assert(a[k] == p);
            if k < own.len() {
                assert(own[k] == p);
            }
        }
    }
}

/// What a sweep needs is its list of features and every source, each below the directory
/// of the sources, whatever slashes end it.
pub proof fn law_needed_inputs(
    parquet: Seq<char>,
    sources: Seq<char>,
    names: Seq<Seq<char>>,
    i: int,
)
    requires
        0 <= i < names.len(),
    ensures
        needed(parquet, sources, names).len() == names.len() + 1,
        needed(parquet, sources, names)[0] == parquet,
        ends(needed(parquet, sources, names)[i + 1], "/"@ + names[i]),
        needed(parquet, sources.push('/'), names) == needed(parquet, sources, names),
{
    reveal_strlit("/");
    assert(sources.push('/').drop_last() =~= sources);
    let t = needed(parquet, sources, names)[i + 1];
    let tail = "/"@ + names[i];
    assert(t.subrange(t.len() - tail.len(), t.len() as int) =~= tail);
}

/// The preview shows the plan: how many servers, of which kind and where, how many cells
/// in a chunk, and where the first chunks will wait.
pub proof fn law_preview_shows_plan(p: LaunchPlan, i: int)
    requires
        0 <= i < 3,
        i < p.chunks,
    ensures
        preview_view(p) matches JsonView::Object(m) && {
            &&& m.contains(("replicas_requested"@, count_view(p.replicas_requested)))
            &&& m.contains(("replicas_provisioned"@, count_view(p.replicas_provisioned)))
            &&& m.contains(("cells_per_chunk"@, count_view(p.cells_per_chunk)))
            &&& m.contains(("server_type"@, JsonView::Str(p.server_type@)))
            &&& m.contains(("location"@, JsonView::Str(p.location@)))
            &&& m.contains(("synthesized_post_body"@, preview_request(p)))
        },
        preview_paths(p).len() <= 3,
        preview_paths(p)[i] == queue_path(p.bucket@, p.sweep@, i as nat),
        preview_request(p) matches JsonView::Object(m) && {
            &&& m.contains(("server_type"@, JsonView::Str(p.server_type@)))
            &&& m.contains(("location"@, JsonView::Str(p.location@)))
            &&& m.contains(("name"@, JsonView::Str(p.group@ + "-000"@)))
        },
{
    let m = preview_view(p)->Object_0;
    assert(m[0].0 == "cells_per_chunk"@ && m[1].0 == "location"@ && m[3].0
        == "replicas_provisioned"@ && m[4].0 == "replicas_requested"@ && m[5].0 == "server_type"@
        && m[6].0 == "synthesized_post_body"@);
    let r = preview_request(p)->Object_0;
    assert(r[2].0 == "location"@ && r[3].0 == "name"@ && r[4].0 == "server_type"@);
}

/// The list of chunks that a worker is told lies where the sweep puts it, unless another
/// place is given.
pub proof fn law_chunks_where_worker_looks(bucket: Seq<char>, sweep: Seq<char>, key: Seq<char>)
    ensures
        manifest_key(Some(key), sweep) == key,
        crate::hetzner::cloud_init::chunks_uri(bucket, sweep) == "s3://"@ + bucket + "/"@
            + manifest_key(None, sweep),
{
    reveal_strlit("/runs/");
    reveal_strlit("runs/");
    reveal_strlit("/");
    assert("/runs/"@ =~= "/"@ + "runs/"@);
    assert(crate::hetzner::cloud_init::chunks_uri(bucket, sweep) =~= "s3://"@ + bucket + "/"@
        + manifest_key(None, sweep));
}

} // verus!
