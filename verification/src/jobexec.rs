//! Running one job: encoding a source image, or encoding and scoring it.
//!
//! A job is a JSON object with a kind and a cell. The source is a local file or
//! an object in the bucket. An encode job answers with the encoded bytes, a
//! metric job with one line of JSON.

use crate::decode::{extension_for, ImageFormat};
use crate::json::{
    as_i64, as_str, get_member, i64_in, json_parsed, json_rendered, law_lookup_finds_first,
    lemma_object_view, lookup, member, members, object_parsed, opt_json, parse_json, parse_object,
    render_json, set_to, str_in, unset, Json, JsonNumber, JsonView, Members,
};
use crate::metrics::kind::{law_metric_name_round_trip, MetricKind};
use crate::output::number_view;
use crate::sweep::encode::CodecKind;
use crate::text::{
    after_last, copy, debug_text, decimal, ends, lowered, opt_text, quoted, rest_after_last, same,
    show, show_usize, starts, starts_with, to_lower, trim_end_char, without_trailing,
};
use vstd::prelude::*;

verus! {

/// What the command line says.
#[derive(Debug)]
pub struct JobexecArgs {
    /// Where in the bucket the source images lie.
    pub corpus_prefix: Option<String>,
}

/// The codec of a name.
pub open spec fn codec_named(name: Seq<char>) -> Option<CodecKind> {
    if name == "zenpng"@ {
        Some(CodecKind::Zenpng)
    } else if name == "zenjpeg"@ {
        Some(CodecKind::Zenjpeg)
    } else if name == "zenwebp"@ {
        Some(CodecKind::Zenwebp)
    } else if name == "zenavif"@ {
        Some(CodecKind::Zenavif)
    } else if name == "zenjxl"@ {
        Some(CodecKind::Zenjxl)
    } else {
        None
    }
}

/// The codec of a name.
pub fn codec_from_name(name: &str) -> (r: Result<CodecKind, String>)
    ensures
        match r {
            Ok(c) => codec_named(name@) == Some(c),
            Err(e) => codec_named(name@) is None && e@ == "unknown codec "@ + debug_text(name@),
        },
{
    if same(name, "zenpng") {
        Ok(CodecKind::Zenpng)
    } else if same(name, "zenjpeg") {
        Ok(CodecKind::Zenjpeg)
    } else if same(name, "zenwebp") {
        Ok(CodecKind::Zenwebp)
    } else if same(name, "zenavif") {
        Ok(CodecKind::Zenavif)
    } else if same(name, "zenjxl") {
        Ok(CodecKind::Zenjxl)
    } else {
        let mut e: String = copy("unknown codec ");
        let q = quoted(name);
        e.append(q.as_str());
        Err(e)
    }
}

/// Every codec is found under its own name.
pub proof fn law_codec_name_round_trip(codec: CodecKind)
    ensures
        codec_named(codec.spec_name()) == Some(codec),
{
    reveal_strlit("zenpng");
    reveal_strlit("zenjpeg");
    reveal_strlit("zenwebp");
    reveal_strlit("zenavif");
    reveal_strlit("zenjxl");
    assert("zenpng"@[3] == 'p');
    assert("zenjpeg"@[3] == 'j' && "zenjpeg"@.len() == 7);
    assert("zenwebp"@[3] == 'w');
    assert("zenavif"@[3] == 'a');
    assert("zenjxl"@[3] == 'j' && "zenjxl"@.len() == 6);
}

/// The extension of a codec's files.
pub open spec fn extension_named(name: Seq<char>) -> Seq<char> {
    match codec_named(name) {
        Some(c) => c.spec_extension(),
        None => "bin"@,
    }
}

/// The extension of a codec's files.
pub fn ext_for(name: &str) -> (r: &'static str)
    ensures
        r@ == extension_named(name@),
{
    match codec_from_name(name) {
        Ok(c) => c.extension(),
        Err(_) => "bin",
    }
}

/// The name that a job's metric is looked up under.
pub open spec fn metric_alias(metric: Seq<char>) -> Seq<char> {
    if metric == "ssimulacra2"@ {
        "ssim2"@
    } else {
        metric
    }
}

/// The message for a metric that is not known.
pub open spec fn metric_text(metric: Seq<char>) -> Seq<char> {
    "unknown metric "@ + debug_text(metric) + ": "@ + ("invalid variant: "@ + metric_alias(metric))
}

/// The metric of a job, in any case of letters; `ssimulacra2` stands for `ssim2`.
pub fn metric_kind(metric: &str) -> (r: Result<MetricKind, String>)
    ensures
        match r {
            Ok(k) => MetricKind::named(lowered(metric_alias(metric@))) == Some(k),
            Err(e) => MetricKind::named(lowered(metric_alias(metric@))) is None && e@
                == metric_text(metric@),
        },
{
    let canon: String = if same(metric, "ssimulacra2") {
        copy("ssim2")
    } else {
        copy(metric)
    };
    let low = to_lower(canon.as_str());
    match MetricKind::from_name(low.as_str()) {
        Some(k) => Ok(k),
        None => {
            let mut e: String = copy("unknown metric ");
            let q = quoted(metric);
            e.append(q.as_str());
            e.append(": ");
            let mut tail: String = copy("invalid variant: ");
            tail.append(canon.as_str());
            e.append(tail.as_str());
            Err(e)
        },
    }
}

// ── The source ─────────────────────────────────────────────────────────

/// Where the source is to be read from.
#[derive(Debug)]
pub enum Source {
    /// The local file itself.
    Local,
    /// An object to fetch, and the name of the file that it goes to.
    Fetch { endpoint: String, uri: String, file: String },
}

/// The object of an image path.
pub open spec fn source_uri(
    path: Seq<char>,
    prefix: Option<Seq<char>>,
    bucket: Seq<char>,
) -> Seq<char> {
    if starts(path, "s3://"@) {
        path
    } else {
        match prefix {
            Some(p) => if p.len() > 0 {
                "s3://"@ + bucket + "/"@ + without_trailing(p, '/') + "/"@ + path
            } else {
                "s3://"@ + bucket + "/"@ + path
            },
            None => "s3://"@ + bucket + "/"@ + path,
        }
    }
}

/// The name of the file that a fetched source goes to.
pub open spec fn source_file(path: Seq<char>, process: u32) -> Seq<char> {
    "jobexec_src_"@ + decimal(process as nat) + "_"@ + after_last(path, '/')
}

/// Is the local file used as it stands?
pub open spec fn uses_local(path: Seq<char>, prefix: Option<Seq<char>>, exists_here: bool) -> bool {
    prefix is None && !starts(path, "s3://"@) && exists_here
}

/// What keeps a source from being fetched.
pub open spec fn source_fault(
    path: Seq<char>,
    endpoint: Option<Seq<char>>,
    bucket: Option<Seq<char>>,
) -> Option<Seq<char>> {
    if endpoint is None {
        Some("ZEN_R2_ENDPOINT unset — cannot fetch source from R2"@)
    } else if !starts(path, "s3://"@) && bucket is None {
        Some("ZEN_BUCKET unset"@)
    } else {
        None
    }
}

/// Says where the source of a job is read from. A local file is used where it
/// exists and no prefix is given; everything else is fetched.
pub fn resolve_source(
    path: &str,
    prefix: Option<&str>,
    exists_here: bool,
    endpoint: Option<&str>,
    bucket: Option<&str>,
    process: u32,
) -> (r: Result<Source, String>)
    ensures
        match r {
            Ok(Source::Local) => uses_local(path@, opt_text(prefix), exists_here),
            Ok(Source::Fetch { endpoint: at, uri, file }) => {
                &&& !uses_local(path@, opt_text(prefix), exists_here)
                &&& source_fault(path@, opt_text(endpoint), opt_text(bucket)) is None
                &&& endpoint matches Some(e) && at@ == e@
                &&& starts(path@, "s3://"@) ==> uri@ == path@
                &&& bucket matches Some(b) ==> uri@ == source_uri(path@, opt_text(prefix), b@)
                &&& file@ == source_file(path@, process)
            },
            Err(e) => {
                &&& !uses_local(path@, opt_text(prefix), exists_here)
                &&& source_fault(path@, opt_text(endpoint), opt_text(bucket)) == Some(e@)
            },
        },
{
    let remote = starts_with(path, "s3://");
    if prefix.is_none() && !remote && exists_here {
        return Ok(Source::Local);
    }
    let at: String = match endpoint {
        Some(e) => copy(e),
        None => {
            return Err(copy("ZEN_R2_ENDPOINT unset — cannot fetch source from R2"));
        },
    };
    let uri: String = if remote {
        copy(path)
    } else {
        let b: &str = match bucket {
            Some(b) => b,
            None => {
                return Err(copy("ZEN_BUCKET unset"));
            },
        };
        let mut u: String = copy("s3://");
        u.append(b);
        u.append("/");
        match prefix {
            Some(p) => if !p.is_empty() {
                let t = trim_end_char(p, '/');
                u.append(t.as_str());
                u.append("/");
            },
            None => {},
        }
        u.append(path);
        u
    };
    let mut file: String = copy("jobexec_src_");
    let pid = show(process as u64);
    file.append(pid.as_str());
    file.append("_");
    let last = rest_after_last(path, '/');
    file.append(last.as_str());
    Ok(Source::Fetch { endpoint: at, uri, file })
}

/// The message of a fetch that failed.
pub fn fetch_failed(uri: &str) -> (r: String)
    ensures
        r@ == "s5cmd cp "@ + uri@ + " failed"@,
{
    let mut e: String = copy("s5cmd cp ");
    e.append(uri);
    e.append(" failed");
    e
}

// ── Reading a job ──────────────────────────────────────────────────────

/// One job.
#[derive(Debug)]
pub struct Job {
    pub kind: String,
    pub metric: Option<String>,
    pub image_path: String,
    pub codec: String,
    pub q: i64,
    pub q_json: Json,
    pub knob_json: String,
    pub knobs: Members,
}

/// The kind of a job.
pub open spec fn kind_in(job: JsonView) -> Option<Seq<char>> {
    str_in(member(member(Some(job), "kind"@), "kind"@))
}

/// The metric of a job.
pub open spec fn metric_in(job: JsonView) -> Option<Seq<char>> {
    str_in(member(member(Some(job), "kind"@), "metric"@))
}

/// A member of a job's cell.
pub open spec fn cell_in(job: JsonView, key: Seq<char>) -> Option<JsonView> {
    member(member(Some(job), "cell"@), key)
}

/// The text of a job's knobs.
pub open spec fn knobs_in(job: JsonView) -> Seq<char> {
    match str_in(cell_in(job, "knob_tuple_json"@)) {
        Some(t) => t,
        None => "{}"@,
    }
}

/// The first thing that is wrong with a job.
pub open spec fn job_fault(
    job: JsonView,
    knobs: Result<Seq<(Seq<char>, JsonView)>, Seq<char>>,
) -> Option<Seq<char>> {
    if kind_in(job) is None {
        Some("job.kind.kind missing"@)
    } else if str_in(cell_in(job, "image_path"@)) is None {
        Some("cell.image_path missing"@)
    } else if str_in(cell_in(job, "codec"@)) is None {
        Some("cell.codec missing"@)
    } else if i64_in(cell_in(job, "q"@)) is None {
        Some("cell.q missing"@)
    } else {
        match knobs {
            Err(e) => Some("parse knob_tuple_json: "@ + e),
            Ok(_) => None,
        }
    }
}

/// Is this what the JSON says?
pub open spec fn job_for(
    j: Job,
    job: JsonView,
    knobs: Result<Seq<(Seq<char>, JsonView)>, Seq<char>>,
) -> bool {
    &&& kind_in(job) == Some(j.kind@)
    &&& metric_in(job) == (match j.metric {
        Some(m) => Some(m@),
        None => None,
    })
    &&& str_in(cell_in(job, "image_path"@)) == Some(j.image_path@)
    &&& str_in(cell_in(job, "codec"@)) == Some(j.codec@)
    &&& i64_in(cell_in(job, "q"@)) == Some(j.q)
    &&& cell_in(job, "q"@) == Some(j.q_json@)
    &&& j.knob_json@ == knobs_in(job)
    &&& knobs matches Ok(m) && m == members(j.knobs@)
}

/// Reads a job out of its JSON value.
pub fn job_of(v: &Json) -> (r: Result<Job, String>)
    ensures
        match r {
            Ok(j) => job_fault(v@, object_parsed(knobs_in(v@))) is None && job_for(
                j,
                v@,
                object_parsed(knobs_in(v@)),
            ),
            Err(e) => job_fault(v@, object_parsed(knobs_in(v@))) == Some(e@),
        },
{
    let top: Option<&Json> = Some(v);
    assert(opt_json(top) == Some(v@));
    let kinds = get_member(top, "kind");
    let kind: String = match as_str(get_member(kinds, "kind")) {
        Some(s) => copy(s),
        None => {
            return Err(copy("job.kind.kind missing"));
        },
    };
    let cell = get_member(top, "cell");
    let image_path: String = match as_str(get_member(cell, "image_path")) {
        Some(s) => copy(s),
        None => {
            return Err(copy("cell.image_path missing"));
        },
    };
    let codec: String = match as_str(get_member(cell, "codec")) {
        Some(s) => copy(s),
        None => {
            return Err(copy("cell.codec missing"));
        },
    };
    let q_value = get_member(cell, "q");
    let q: i64 = match as_i64(q_value) {
        Some(n) => n,
        None => {
            return Err(copy("cell.q missing"));
        },
    };
    let q_json: Json = match q_value {
        Some(j) => j.duplicate(),
        None => Json::Null,
    };
    let knob_json: String = match as_str(get_member(cell, "knob_tuple_json")) {
        Some(s) => copy(s),
        None => copy("{}"),
    };
    let knobs: Members = match parse_object(knob_json.as_str()) {
        Ok(m) => m,
        Err(e) => {
            let mut m: String = copy("parse knob_tuple_json: ");
            m.append(e.as_str());
            return Err(m);
        },
    };
    let metric: Option<String> = match as_str(get_member(kinds, "metric")) {
        Some(s) => Some(copy(s)),
        None => None,
    };
    Ok(Job { kind, metric, image_path, codec, q, q_json, knob_json, knobs })
}

/// Reads a job from its text.
pub fn read_job(text: &str) -> (r: Result<Job, String>)
    ensures
        match json_parsed(text@) {
            Err(f) => r matches Err(e) && e@ == "parse DesiredJob: "@ + f,
            Ok(job) => match r {
                Ok(j) => job_fault(job, object_parsed(knobs_in(job))) is None && job_for(
                    j,
                    job,
                    object_parsed(knobs_in(job)),
                ),
                Err(e) => job_fault(job, object_parsed(knobs_in(job))) == Some(e@),
            },
        },
{
    match parse_json(text) {
        Err(f) => {
            let mut e: String = copy("parse DesiredJob: ");
            e.append(f.as_str());
            Err(e)
        },
        Ok(v) => job_of(&v),
    }
}

// ── Running a job ──────────────────────────────────────────────────────

/// What an encode gave back: how many bytes, and the milliseconds it took.
#[derive(Debug)]
pub struct EncodedBytes {
    pub bytes: usize,
    pub encode_ms: String,
}

/// A column of a metric and its value, as JSON writes it.
pub type Scored = (String, String);

/// The columns as members of an object.
pub open spec fn scored_members(scores: Seq<Scored>) -> Seq<(Seq<char>, JsonView)> {
    scores.map_values(|p: Scored| (p.0@, number_view(p.1@)))
}

/// The value of the first column.
pub open spec fn first_score(scores: Seq<Scored>) -> JsonView {
    if scores.len() > 0 {
        number_view(scores[0].1@)
    } else {
        JsonView::Null
    }
}

/// The columns as members of an object.
fn scored_object(scores: &Vec<Scored>) -> (r: Members)
    ensures
        members(r@) == scored_members(scores@),
{
    let mut m: Members = Vec::new();
    let mut i: usize = 0;
    while i < scores.len()
        invariant
            i <= scores.len(),
            m@.len() == i,
            forall|j: int|
                0 <= j < i ==> (#[trigger] m@[j]).0@ == scores@[j].0@ && m@[j].1@ == number_view(
                    scores@[j].1@,
                ),
        decreases scores.len() - i,
    {
        m.push((copy(scores[i].0.as_str()), number(scores[i].1.as_str())));
        i += 1;
    }
    assert(members(m@) =~= scored_members(scores@));
    m
}

/// A number that is no whole number, as JSON.
fn number(text: &str) -> (r: Json)
    ensures
        r@ == number_view(text@),
{
    Json::Number(JsonNumber { unsigned: None, text: copy(text) })
}

/// What has been answered so far. An answer that has not come yet is `None`.
#[derive(Debug)]
pub struct JobReplies {
    /// Fetching and decoding the source.
    pub source: Option<Result<(), String>>,
    /// Encoding it.
    pub encoded: Option<Result<EncodedBytes, String>>,
    /// Decoding the encoded bytes.
    pub decoded: Option<Result<(), String>>,
    /// Scoring them.
    pub scored: Option<Result<Vec<Scored>, String>>,
}

/// What to do next for a job.
#[derive(Debug)]
pub enum JobStep {
    /// Fetch and decode the source.
    Source,
    /// Encode the source.
    Encode(CodecKind),
    /// Write the encoded bytes: the job is done.
    WriteBytes,
    /// Decode the encoded bytes, from a file with this extension.
    DecodeBack(String),
    /// Score what was decoded.
    Score(MetricKind),
    /// Write this line: the job is done.
    WriteRow(String),
    /// The job has failed.
    Fail(String),
}

/// The line of a metric job.
pub open spec fn row_json(
    job: Job,
    metric: Seq<char>,
    scores: Seq<Scored>,
    encoded: EncodedBytes,
) -> JsonView {
    JsonView::Object(
        seq![
            ("codec"@, JsonView::Str(job.codec@)),
            ("encode_ms"@, number_view(encoded.encode_ms@)),
            (
                "encoded_bytes"@,
                JsonView::Number(Some(encoded.bytes as u64), decimal(encoded.bytes as nat)),
            ),
            ("image_path"@, JsonView::Str(job.image_path@)),
            ("kind"@, JsonView::Str("metric"@)),
            ("knob_tuple_json"@, JsonView::Str(job.knob_json@)),
            ("metric"@, JsonView::Str(metric)),
            ("q"@, job.q_json@),
            ("score"@, first_score(scores)),
            ("scores"@, JsonView::Object(scored_members(scores))),
        ],
    )
}

/// The line of a metric job.
fn metric_row(
    job: &Job,
    metric: &str,
    scores: &Vec<Scored>,
    encoded: &EncodedBytes,
) -> (r: String)
    ensures
        r@ == json_rendered(row_json(*job, metric@, scores@, *encoded)),
{
    let all = Json::Object(scored_object(scores));
    proof {
        lemma_object_view(all);
    }
    let mut m: Members = Vec::new();
    m.push((copy("codec"), Json::Str(copy(job.codec.as_str()))));
    m.push((copy("encode_ms"), number(encoded.encode_ms.as_str())));
    m.push(
        (
            copy("encoded_bytes"),
            Json::Number(
                JsonNumber {
                    unsigned: Some(encoded.bytes as u64),
                    text: show_usize(encoded.bytes),
                },
            ),
        ),
    );
    m.push((copy("image_path"), Json::Str(copy(job.image_path.as_str()))));
    m.push((copy("kind"), Json::Str(copy("metric"))));
    m.push((copy("knob_tuple_json"), Json::Str(copy(job.knob_json.as_str()))));
    m.push((copy("metric"), Json::Str(copy(metric))));
    m.push((copy("q"), job.q_json.duplicate()));
    let first: Json = if scores.len() > 0 {
        number(scores[0].1.as_str())
    } else {
        Json::Null
    };
    m.push((copy("score"), first));
    m.push((copy("scores"), all));
    let v = Json::Object(m);
    proof {
        lemma_object_view(v);
        assert(members(m@) =~= row_json(*job, metric@, scores@, *encoded)->Object_0);
    }
    render_json(&v)
}

/// Is this the step after the answers so far? The codec's name is looked at once
/// the source is there, and the kind of the job once it is encoded.
pub open spec fn step_for(job: Job, replies: JobReplies, step: JobStep) -> bool {
    match replies.source {
        None => step is Source,
        Some(Err(f)) => step matches JobStep::Fail(e) && e@ == f@,
        Some(Ok(_)) => match codec_named(job.codec@) {
            None => step matches JobStep::Fail(e) && e@ == "unknown codec "@ + debug_text(
                job.codec@,
            ),
            Some(c) => match replies.encoded {
                None => step == JobStep::Encode(c),
                Some(Err(f)) => step matches JobStep::Fail(e) && e@ == f@,
                Some(Ok(done)) => if job.kind@ == "encode"@ {
                    step is WriteBytes
                } else if job.kind@ == "metric"@ {
                    metric_step_for(job, done, replies, step)
                } else {
                    step matches JobStep::Fail(e) && e@ == "jobexec: unhandled job kind "@
                        + debug_text(job.kind@)
                },
            },
        },
    }
}

/// Is this the step of a metric job whose cell is encoded? The metric's name is looked
/// at once the cell is decoded.
pub open spec fn metric_step_for(
    job: Job,
    done: EncodedBytes,
    replies: JobReplies,
    step: JobStep,
) -> bool {
    match job.metric {
        None => step matches JobStep::Fail(e) && e@ == "metric job missing kind.metric"@,
        Some(m) => match replies.decoded {
            None => step matches JobStep::DecodeBack(ext) && ext@ == extension_named(job.codec@),
            Some(Err(f)) => step matches JobStep::Fail(e) && e@ == f@,
            Some(Ok(_)) => match MetricKind::named(lowered(metric_alias(m@))) {
                None => step matches JobStep::Fail(e) && e@ == metric_text(m@),
                Some(k) => match replies.scored {
                    None => step == JobStep::Score(k),
                    Some(Err(f)) => step matches JobStep::Fail(e) && e@ == f@,
                    Some(Ok(v)) => step matches JobStep::WriteRow(line) && line@ == json_rendered(
                        row_json(job, m@, v@, done),
                    ),
                },
            },
        },
    }
}

/// The step of a metric job whose cell is encoded.
fn metric_step(job: &Job, done: &EncodedBytes, replies: &JobReplies) -> (r: JobStep)
    ensures
        metric_step_for(*job, *done, *replies, r),
{
    match &job.metric {
        None => JobStep::Fail(copy("metric job missing kind.metric")),
        Some(m) => match &replies.decoded {
            None => JobStep::DecodeBack(copy(ext_for(job.codec.as_str()))),
            Some(Err(f)) => JobStep::Fail(copy(f.as_str())),
            Some(Ok(_)) => match metric_kind(m.as_str()) {
                Err(e) => JobStep::Fail(e),
                Ok(k) => match &replies.scored {
                    None => JobStep::Score(k),
                    Some(Err(f)) => JobStep::Fail(copy(f.as_str())),
                    Some(Ok(v)) => JobStep::WriteRow(metric_row(job, m.as_str(), v, done)),
                },
            },
        },
    }
}

/// The step after the answers so far.
pub fn run(job: &Job, replies: &JobReplies) -> (r: JobStep)
    ensures
        step_for(*job, *replies, r),
{
    match &replies.source {
        None => JobStep::Source,
        Some(Err(f)) => JobStep::Fail(copy(f.as_str())),
        Some(Ok(_)) => match codec_from_name(job.codec.as_str()) {
            Err(e) => JobStep::Fail(e),
            Ok(c) => match &replies.encoded {
                None => JobStep::Encode(c),
                Some(Err(f)) => JobStep::Fail(copy(f.as_str())),
                Some(Ok(done)) => {
                    if same(job.kind.as_str(), "encode") {
                        return JobStep::WriteBytes;
                    }
                    if same(job.kind.as_str(), "metric") {
                        return metric_step(job, done, replies);
                    }
                    let mut e: String = copy("jobexec: unhandled job kind ");
                    let q = quoted(job.kind.as_str());
                    e.append(q.as_str());
                    JobStep::Fail(e)
                },
            },
        },
    }
}

/// A step that is not the last asks for an answer that is still missing.
pub proof fn law_job_step_asks_for_missing(job: Job, replies: JobReplies, step: JobStep)
    requires
        step_for(job, replies, step),
    ensures
        match step {
            JobStep::Source => replies.source is None,
            JobStep::Encode(_) => replies.encoded is None,
            JobStep::DecodeBack(_) => replies.decoded is None,
            JobStep::Score(_) => replies.scored is None,
            _ => replies.source is Some,
        },
{
}

/// A job whose kind is neither encoding nor scoring fails whatever its source, its
/// encode and its scores come to.
pub proof fn law_unknown_job_kind_fails(job: Job, replies: JobReplies, step: JobStep)
    requires
        step_for(job, replies, step),
        job.kind@ != "encode"@,
        job.kind@ != "metric"@,
        replies.source is Some,
        replies.encoded is Some,
    ensures
        step is Fail,
{
}

/// A job is encoded with the codec that it names and scored with the metric that it
/// names, whatever the case of its letters; one metric has a second name.
pub proof fn law_job_runs_what_it_names(job: Job, replies: JobReplies, step: JobStep)
    requires
        step_for(job, replies, step),
    ensures
        step matches JobStep::Encode(c) ==> c.spec_name() == job.codec@,
        step matches JobStep::Score(k) ==> (job.metric matches Some(m) && (k.spec_name()
            == lowered(m@) || m@ == "ssimulacra2"@ && k.spec_name() == lowered("ssim2"@))),
        step matches JobStep::Score(_) ==> job.kind@ == "metric"@,
        step is WriteBytes ==> job.kind@ == "encode"@,
{
}

/// The format of the files that a codec writes.
pub open spec fn written_format(codec: CodecKind) -> ImageFormat {
    match codec {
        CodecKind::Zenpng => ImageFormat::Png,
        CodecKind::Zenjpeg => ImageFormat::Jpeg,
        CodecKind::Zenwebp => ImageFormat::Webp,
        CodecKind::Zenavif => ImageFormat::Avif,
        CodecKind::Zenjxl => ImageFormat::Jxl,
    }
}

/// The extension of a codec's files is one of the format that the codec writes.
pub proof fn law_extension_fits_codec(codec: CodecKind)
    ensures
        extension_for(written_format(codec), codec.spec_extension()),
        extension_named(codec.spec_name()) == codec.spec_extension(),
{
    law_codec_name_round_trip(codec);
}

/// Slashes at the end of the prefix make no difference to where a source is fetched.
pub proof fn law_prefix_slash_makes_no_difference(
    path: Seq<char>,
    prefix: Seq<char>,
    bucket: Seq<char>,
)
    requires
        prefix.len() > 0,
    ensures
        source_uri(path, Some(prefix.push('/')), bucket) == source_uri(path, Some(prefix), bucket),
{
    assert(prefix.push('/').drop_last() =~= prefix);
}

/// A source is fetched from the bucket, and the object's name ends in the path; an
/// address that is already complete is taken as it is.
pub proof fn law_source_uri_ends_in_path(
    path: Seq<char>,
    prefix: Option<Seq<char>>,
    bucket: Seq<char>,
)
    ensures
        starts(path, "s3://"@) ==> source_uri(path, prefix, bucket) == path,
        !starts(path, "s3://"@) ==> starts(
            source_uri(path, prefix, bucket),
            "s3://"@ + bucket + "/"@,
        ) && ends(source_uri(path, prefix, bucket), "/"@ + path),
{
    if !starts(path, "s3://"@) {
        let u = source_uri(path, prefix, bucket);
        let lead = "s3://"@ + bucket + "/"@;
        let tail = "/"@ + path;
        reveal_strlit("/");
        assert(u.take(lead.len() as int) =~= lead);
        assert(u.subrange(u.len() - tail.len(), u.len() as int) =~= tail);
    }
}

/// A job is what the members of its description say.
pub proof fn law_job_reads_its_members(
    j: Job,
    top: Seq<(Seq<char>, JsonView)>,
    kind: Seq<(Seq<char>, JsonView)>,
    cell: Seq<(Seq<char>, JsonView)>,
    knobs: Result<Seq<(Seq<char>, JsonView)>, Seq<char>>,
    t: Seq<char>,
)
    requires
        job_for(j, JsonView::Object(top), knobs),
        set_to(top, "kind"@, JsonView::Object(kind)),
        set_to(top, "cell"@, JsonView::Object(cell)),
    ensures
        set_to(kind, "kind"@, JsonView::Str(t)) <==> j.kind@ == t,
        set_to(kind, "metric"@, JsonView::Str(t)) <==> (j.metric matches Some(m) && m@ == t),
        set_to(cell, "image_path"@, JsonView::Str(t)) <==> j.image_path@ == t,
        set_to(cell, "codec"@, JsonView::Str(t)) <==> j.codec@ == t,
        set_to(cell, "q"@, j.q_json@),
        set_to(cell, "knob_tuple_json"@, JsonView::Str(t)) ==> j.knob_json@ == t,
        unset(cell, "knob_tuple_json"@) ==> j.knob_json@ == "{}"@,
{
    law_lookup_finds_first(top, "kind"@);
    law_lookup_finds_first(top, "cell"@);
    law_lookup_finds_first(kind, "kind"@);
    law_lookup_finds_first(kind, "metric"@);
    law_lookup_finds_first(cell, "image_path"@);
    law_lookup_finds_first(cell, "codec"@);
    law_lookup_finds_first(cell, "q"@);
    law_lookup_finds_first(cell, "knob_tuple_json"@);
}

/// The line of a metric job repeats the identity of its cell and gives the size, the
/// time and every score; the first score stands for the metric.
pub proof fn law_job_line_members(
    job: Job,
    metric: Seq<char>,
    scores: Seq<Scored>,
    encoded: EncodedBytes,
    i: int,
)
    requires
        0 <= i < scores.len(),
    ensures
        row_json(job, metric, scores, encoded) matches JsonView::Object(m) && {
            &&& m.contains(("image_path"@, JsonView::Str(job.image_path@)))
            &&& m.contains(("codec"@, JsonView::Str(job.codec@)))
            &&& m.contains(("q"@, job.q_json@))
            &&& m.contains(("knob_tuple_json"@, JsonView::Str(job.knob_json@)))
            &&& m.contains(("metric"@, JsonView::Str(metric)))
            &&& m.contains(("score"@, number_view(scores[0].1@)))
            &&& m.contains(("encode_ms"@, number_view(encoded.encode_ms@)))
            &&& m.contains(
                (
                    "encoded_bytes"@,
                    JsonView::Number(Some(encoded.bytes as u64), decimal(encoded.bytes as nat)),
                ),
            )
            &&& exists|s: Seq<(Seq<char>, JsonView)>|
                #[trigger] m.contains(("scores"@, JsonView::Object(s))) && s.len() == scores.len()
                    && s[i] == (scores[i].0@, number_view(scores[i].1@))
        },
{
    let m = row_json(job, metric, scores, encoded)->Object_0;
    assert(m.len() == 10);
    assert(m[0] == ("codec"@, JsonView::Str(job.codec@)));
    assert(m[1].0 == "encode_ms"@);
    assert(m[2].0 == "encoded_bytes"@);
    assert(m[3].0 == "image_path"@);
    assert(m[5].0 == "knob_tuple_json"@);
    assert(m[6].0 == "metric"@);
    assert(m[7].0 == "q"@);
    assert(m[8].0 == "score"@);
    assert(m[9] == ("scores"@, JsonView::Object(scored_members(scores))));
    assert(m.contains(("scores"@, JsonView::Object(scored_members(scores)))));
}

/// A job is refused exactly when its kind, its image, its codec or its quality is not
/// there, or when its knobs cannot be read.
pub proof fn law_job_refused(
    top: Seq<(Seq<char>, JsonView)>,
    kind: Seq<(Seq<char>, JsonView)>,
    cell: Seq<(Seq<char>, JsonView)>,
    knobs: Result<Seq<(Seq<char>, JsonView)>, Seq<char>>,
)
    requires
        set_to(top, "kind"@, JsonView::Object(kind)),
        set_to(top, "cell"@, JsonView::Object(cell)),
    ensures
        job_fault(JsonView::Object(top), knobs) is None ==> {
            &&& exists|t: Seq<char>| #[trigger] set_to(kind, "kind"@, JsonView::Str(t))
            &&& exists|t: Seq<char>| #[trigger] set_to(cell, "image_path"@, JsonView::Str(t))
            &&& exists|t: Seq<char>| #[trigger] set_to(cell, "codec"@, JsonView::Str(t))
            &&& !unset(cell, "q"@)
            &&& knobs is Ok
        },
        unset(kind, "kind"@) || unset(cell, "image_path"@) || unset(cell, "codec"@) || unset(
            cell,
            "q"@,
        ) || knobs is Err ==> job_fault(JsonView::Object(top), knobs) is Some,
{
    law_lookup_finds_first(top, "kind"@);
    law_lookup_finds_first(top, "cell"@);
    law_lookup_finds_first(kind, "kind"@);
    law_lookup_finds_first(cell, "image_path"@);
    law_lookup_finds_first(cell, "codec"@);
    law_lookup_finds_first(cell, "q"@);
    if job_fault(JsonView::Object(top), knobs) is None {
        let a = lookup(kind, "kind"@)->Some_0->Str_0;
        assert(set_to(kind, "kind"@, JsonView::Str(a)));
        let b = lookup(cell, "image_path"@)->Some_0->Str_0;
        assert(set_to(cell, "image_path"@, JsonView::Str(b)));
        let c = lookup(cell, "codec"@)->Some_0->Str_0;
        assert(set_to(cell, "codec"@, JsonView::Str(c)));
    }
}

/// A source is read from here only where no prefix is given, where its path is no address
/// and where the file exists; fetching it needs an endpoint, and a bucket unless the path
/// names one.
pub proof fn law_where_source_comes_from(
    path: Seq<char>,
    prefix: Option<Seq<char>>,
    exists_here: bool,
    endpoint: Option<Seq<char>>,
    bucket: Option<Seq<char>>,
)
    ensures
        uses_local(path, prefix, exists_here) ==> exists_here && prefix is None && !starts(
            path,
            "s3://"@,
        ),
        exists_here && prefix is None && !starts(path, "s3://"@) ==> uses_local(
            path,
            prefix,
            exists_here,
        ),
        source_fault(path, endpoint, bucket) is None <==> endpoint is Some && (starts(
            path,
            "s3://"@,
        ) || bucket is Some),
{
}

/// A job whose codec is known is encoded once its source is there.
pub proof fn law_known_codec_is_encoded(
    job: Job,
    replies: JobReplies,
    step: JobStep,
    c: CodecKind,
)
    requires
        step_for(job, replies, step),
        replies.source matches Some(r) && r is Ok,
        replies.encoded is None,
        c.spec_name() == job.codec@,
    ensures
        step == JobStep::Encode(c),
{
    law_codec_name_round_trip(c);
}

/// A metric job whose metric is known is scored once its cell is decoded, by either name
/// where the metric has two.
pub proof fn law_known_metric_is_scored(
    job: Job,
    replies: JobReplies,
    step: JobStep,
    c: CodecKind,
    m: String,
    k: MetricKind,
)
    requires
        step_for(job, replies, step),
        job.kind@ == "metric"@,
        job.metric == Some(m),
        c.spec_name() == job.codec@,
        replies.source matches Some(r) && r is Ok,
        replies.encoded matches Some(r) && r is Ok,
        replies.decoded matches Some(r) && r is Ok,
        replies.scored is None,
        m@ != "ssimulacra2"@ && k.spec_name() == lowered(m@) || m@ == "ssimulacra2"@
            && k.spec_name() == "ssim2"@,
    ensures
        step == JobStep::Score(k),
{
    law_codec_name_round_trip(c);
    law_metric_name_round_trip(k);
    reveal_strlit("encode");
    reveal_strlit("metric");
    reveal_strlit("ssim2");
    assert("encode"@[0] == 'e' && "metric"@[0] == 'm');
    assert(lowered("ssim2"@) =~= "ssim2"@);
}

} // verus!
