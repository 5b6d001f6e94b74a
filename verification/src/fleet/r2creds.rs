//! Credentials for one bucket that expire by themselves.
//!
//! A launcher asks for them with its own keys and hands only them to its workers.
//! The bucket stands in the body of the request, not in its path.

use crate::fleet::error::CloudError;
use crate::json::{
    lemma_object_view, members, text_array, texts_json, Json, JsonNumber, JsonView, Members,
};
use crate::text::{
    copy, debug_text, decimal, decimal_int, join, joined, lemma_views_push, quoted, show, show_int,
    starts, views,
};
use vstd::prelude::*;

verus! {

/// The root of the interface.
pub const CF_API_BASE: &'static str = "https://api.cloudflare.com/client/v4";

/// How long the credentials of a worker last, in seconds: six hours.
pub const DEFAULT_TTL_SECONDS: u64 = 21_600;

/// The shortest time that credentials can last: a quarter of an hour.
pub const MIN_TTL_SECONDS: u64 = 900;

/// The longest time that credentials can last: seven days.
pub const MAX_TTL_SECONDS: u64 = 604_800;

/// What credentials allow.
#[derive(Debug, Clone, Copy, PartialEq, Eq, Structural)]
pub enum Permission {
    /// Reading, writing and deleting objects; what a worker needs.
    ObjectReadWrite,
    /// Reading and listing objects.
    ObjectReadOnly,
    /// Objects and the bucket itself.
    AdminReadWrite,
    /// Reading objects and the bucket's own data.
    AdminReadOnly,
}

impl Permission {
    /// The name of the permission in a request.
    pub open spec fn wire(self) -> Seq<char> {
        match self {
            Permission::ObjectReadWrite => "object-read-write"@,
            Permission::ObjectReadOnly => "object-read-only"@,
            Permission::AdminReadWrite => "admin-read-write"@,
            Permission::AdminReadOnly => "admin-read-only"@,
        }
    }

    /// The name of the permission in a request.
    pub fn as_wire_str(self) -> (r: &'static str)
        ensures
            r@ == self.wire(),
    {
        match self {
            Permission::ObjectReadWrite => "object-read-write",
            Permission::ObjectReadOnly => "object-read-only",
            Permission::AdminReadWrite => "admin-read-write",
            Permission::AdminReadOnly => "admin-read-only",
        }
    }
}

/// Credentials for one bucket.
#[derive(Debug)]
pub struct ScopedR2Cred {
    pub access_key_id: String,
    pub secret_access_key: String,
    /// Requests are refused without it.
    pub session_token: String,
    /// The second at which the credentials expire, where the clock could be read.
    pub expires_at: Option<u64>,
}

/// The time that credentials last: what is asked, within what is possible.
pub open spec fn ttl_for(asked: u64) -> u64 {
    if asked < MIN_TTL_SECONDS {
        MIN_TTL_SECONDS
    } else if asked > MAX_TTL_SECONDS {
        MAX_TTL_SECONDS
    } else {
        asked
    }
}

/// The time that credentials last: what is asked, within what is possible.
pub fn clamp_ttl(ttl_seconds: u64) -> (r: u64)
    ensures
        r == ttl_for(ttl_seconds),
{
    if ttl_seconds < MIN_TTL_SECONDS {
        MIN_TTL_SECONDS
    } else if ttl_seconds > MAX_TTL_SECONDS {
        MAX_TTL_SECONDS
    } else {
        ttl_seconds
    }
}

/// Whatever is asked, the time lies in the possible range, and a time in the range
/// is kept; a longer time never gives a shorter one.
pub proof fn law_ttl_in_range(asked: u64, more: u64)
    requires
        asked <= more,
    ensures
        MIN_TTL_SECONDS <= ttl_for(asked) <= MAX_TTL_SECONDS,
        MIN_TTL_SECONDS <= asked <= MAX_TTL_SECONDS ==> ttl_for(asked) == asked,
        ttl_for(asked) <= ttl_for(more),
        ttl_for(ttl_for(asked)) == ttl_for(asked),
{
}

/// Where credentials are asked for.
pub open spec fn creds_url(base: Seq<char>, account: Seq<char>) -> Seq<char> {
    base + "/accounts/"@ + account + "/r2/temp-access-credentials"@
}

/// Where credentials are asked for.
pub fn temp_creds_url(base: &str, account_id: &str) -> (r: String)
    ensures
        r@ == creds_url(base@, account_id@),
{
    let mut u: String = copy(base);
    u.append("/accounts/");
    u.append(account_id);
    u.append("/r2/temp-access-credentials");
    u
}

/// What is asked for.
#[derive(Debug)]
pub struct TempCredsRequest {
    pub bucket: String,
    pub parent_access_key_id: String,
    pub parent_secret_access_key: String,
    pub permission: Permission,
    pub ttl_seconds: u64,
    /// What of the bucket is reached; all of it where the list is empty.
    pub prefixes: Vec<String>,
}

/// The members of the request that always stand there.
pub open spec fn request_head(q: TempCredsRequest) -> Seq<(Seq<char>, JsonView)> {
    seq![
        ("bucket"@, JsonView::Str(q.bucket@)),
        ("parentAccessKeyId"@, JsonView::Str(q.parent_access_key_id@)),
        ("parentSecretAccessKey"@, JsonView::Str(q.parent_secret_access_key@)),
        ("permission"@, JsonView::Str(q.permission.wire())),
        (
            "ttlSeconds"@,
            JsonView::Number(
                Some(ttl_for(q.ttl_seconds)),
                decimal(ttl_for(q.ttl_seconds) as nat),
            ),
        ),
    ]
}

/// The body of the request. An empty list of prefixes is left out: it would not
/// mean the whole bucket.
pub open spec fn request_view(q: TempCredsRequest) -> JsonView {
    if q.prefixes@.len() == 0 {
        JsonView::Object(request_head(q))
    } else {
        JsonView::Object(request_head(q).push(("prefixes"@, text_array(views(q.prefixes@)))))
    }
}

/// The body of the request.
pub fn request_body(q: &TempCredsRequest) -> (r: Json)
    ensures
        r@ == request_view(*q),
{
    let ttl: u64 = clamp_ttl(q.ttl_seconds);
    let mut m: Members = Vec::new();
    m.push((copy("bucket"), Json::Str(copy(q.bucket.as_str()))));
    m.push((copy("parentAccessKeyId"), Json::Str(copy(q.parent_access_key_id.as_str()))));
    m.push((copy("parentSecretAccessKey"), Json::Str(copy(q.parent_secret_access_key.as_str()))));
    m.push((copy("permission"), Json::Str(copy(q.permission.as_wire_str()))));
    m.push(
        (
            copy("ttlSeconds"),
            Json::Number(JsonNumber { unsigned: Some(ttl), text: show(ttl) }),
        ),
    );
    assert(members(m@) =~= request_head(*q));
    if q.prefixes.len() > 0 {
        m.push((copy("prefixes"), texts_json(&q.prefixes)));
        assert(members(m@) =~= request_head(*q).push(
            ("prefixes"@, text_array(views(q.prefixes@))),
        ));
    }
    let r = Json::Object(m);
    proof {
        lemma_object_view(r);
    }
    r
}

/// An error of the interface.
#[derive(Debug)]
pub struct CfError {
    pub code: i64,
    pub message: String,
}

/// What the interface gives.
#[derive(Debug)]
pub struct TempCredsResult {
    pub access_key_id: String,
    pub secret_access_key: String,
    pub session_token: String,
}

/// An answer of the interface.
#[derive(Debug)]
pub struct CfEnvelope {
    pub success: bool,
    pub errors: Vec<CfError>,
    pub result: Option<TempCredsResult>,
}

/// What came back: nothing, a status that means no success, or a body that could or
/// could not be read.
#[derive(Debug)]
pub enum MintReply {
    Unsent(String),
    Status(String, String),
    Unreadable(String),
    Answer(CfEnvelope),
}

/// One error as text.
pub open spec fn error_text(e: CfError) -> Seq<char> {
    "["@ + decimal_int(e.code as int) + "] "@ + e.message@
}

/// The errors as one text.
pub open spec fn errors_text(errors: Seq<CfError>) -> Seq<char> {
    joined(errors.map_values(|e: CfError| error_text(e)), "; "@)
}

/// The errors as one text.
fn show_errors(errors: &Vec<CfError>) -> (r: String)
    ensures
        r@ == errors_text(errors@),
{
    let ghost want = errors@.map_values(|e: CfError| error_text(e));
    let mut parts: Vec<String> = Vec::new();
    let mut i: usize = 0;
    while i < errors.len()
        invariant
            i <= errors.len(),
            want == errors@.map_values(|e: CfError| error_text(e)),
            views(parts@) == want.take(i as int),
        decreases errors.len() - i,
    {
        let mut s: String = copy("[");
        let n = show_int(errors[i].code);
        s.append(n.as_str());
        s.append("] ");
        s.append(errors[i].message.as_str());
        proof {
            lemma_views_push(parts@, s);
        }
        parts.push(s);
        i += 1;
        assert(views(parts@) =~= want.take(i as int));
    }
    assert(want.take(i as int) =~= want);
    join(parts.as_slice(), "; ")
}

/// The message of an answer that brings no credentials.
pub open spec fn mint_fault(bucket: Seq<char>, url: Seq<char>, reply: MintReply) -> Option<Seq<char>> {
    match reply {
        MintReply::Unsent(e) => Some("POST "@ + url + ": "@ + e@),
        MintReply::Status(status, body) => Some(
            "mint scoped R2 cred for bucket "@ + debug_text(bucket) + ": HTTP "@ + status@ + ": "@
                + body@,
        ),
        MintReply::Unreadable(e) => Some("decode CF temp-creds response: "@ + e@),
        MintReply::Answer(env) => if !env.success {
            Some(
                "CF temp-creds for bucket "@ + debug_text(bucket) + " returned success=false: "@
                    + errors_text(env.errors@),
            )
        } else if env.result is None {
            Some("CF temp-creds response had success=true but no result"@)
        } else {
            None
        },
    }
}

/// Are these the credentials that the answer brings?
pub open spec fn cred_for(c: ScopedR2Cred, reply: MintReply, asked: u64, now: Option<u64>) -> bool {
    &&& reply matches MintReply::Answer(env) && env.result matches Some(k) && c.access_key_id@
        == k.access_key_id@ && c.secret_access_key@ == k.secret_access_key@ && c.session_token@
        == k.session_token@
    &&& c.expires_at == (match now {
        Some(n) => Some((n + ttl_for(asked)) as u64),
        None => None,
    })
}

/// The credentials that an answer brings. Without a clock nothing is said of when
/// they expire.
pub fn mint_scoped_r2_cred_with(
    bucket: &str,
    url: &str,
    ttl_seconds: u64,
    reply: MintReply,
    now: Option<u64>,
) -> (r: Result<ScopedR2Cred, CloudError>)
    requires
        now matches Some(n) ==> n + MAX_TTL_SECONDS <= u64::MAX,
    ensures
        match r {
            Ok(c) => mint_fault(bucket@, url@, reply) is None && cred_for(
                c,
                reply,
                ttl_seconds,
                now,
            ),
            Err(e) => e matches CloudError::Credentials(m) && mint_fault(bucket@, url@, reply)
                == Some(m@),
        },
{
    let ttl: u64 = clamp_ttl(ttl_seconds);
    match reply {
        MintReply::Unsent(e) => {
            let mut m: String = copy("POST ");
            m.append(url);
            m.append(": ");
            m.append(e.as_str());
            Err(CloudError::Credentials(m))
        },
        MintReply::Status(status, body) => {
            let mut m: String = copy("mint scoped R2 cred for bucket ");
            let q = quoted(bucket);
            m.append(q.as_str());
            m.append(": HTTP ");
            m.append(status.as_str());
            m.append(": ");
            m.append(body.as_str());
            Err(CloudError::Credentials(m))
        },
        MintReply::Unreadable(e) => {
            let mut m: String = copy("decode CF temp-creds response: ");
            m.append(e.as_str());
            Err(CloudError::Credentials(m))
        },
        MintReply::Answer(env) => {
            if !env.success {
                let mut m: String = copy("CF temp-creds for bucket ");
                let q = quoted(bucket);
                m.append(q.as_str());
                m.append(" returned success=false: ");
                let d = show_errors(&env.errors);
                m.append(d.as_str());
                return Err(CloudError::Credentials(m));
            }
            match env.result {
                None => Err(
                    CloudError::Credentials(
                        copy("CF temp-creds response had success=true but no result"),
                    ),
                ),
                Some(k) => {
                    let expires_at: Option<u64> = match now {
                        Some(n) => Some(n + ttl),
                        None => None,
                    };
                    Ok(
                        ScopedR2Cred {
                            access_key_id: k.access_key_id,
                            secret_access_key: k.secret_access_key,
                            session_token: k.session_token,
                            expires_at,
                        },
                    )
                },
            }
        },
    }
}

/// Credentials never come from an answer that reports no success.
pub proof fn law_no_cred_without_success(
    bucket: Seq<char>,
    url: Seq<char>,
    reply: MintReply,
)
    requires
        !(reply matches MintReply::Answer(env) && env.success && env.result is Some),
    ensures
        mint_fault(bucket, url, reply) is Some,
{
}

/// May credentials with the permission change anything?
pub open spec fn may_write(p: Permission) -> bool {
    p is ObjectReadWrite || p is AdminReadWrite
}

/// Do credentials with the permission reach more than objects?
pub open spec fn reaches_bucket(p: Permission) -> bool {
    p is AdminReadWrite || p is AdminReadOnly
}

/// The text of a permission says what it reaches and whether it may write.
pub proof fn law_permission_says_what_it_allows(p: Permission)
    ensures
        p.wire() == (if reaches_bucket(p) {
            "admin"@
        } else {
            "object"@
        }) + "-read-"@ + (if may_write(p) {
            "write"@
        } else {
            "only"@
        }),
{
    reveal_strlit("admin");
    reveal_strlit("object");
    reveal_strlit("-read-");
    reveal_strlit("write");
    reveal_strlit("only");
    reveal_strlit("object-read-write");
    reveal_strlit("object-read-only");
    reveal_strlit("admin-read-write");
    reveal_strlit("admin-read-only");
    assert("object-read-write"@ =~= "object"@ + "-read-"@ + "write"@);
    assert("object-read-only"@ =~= "object"@ + "-read-"@ + "only"@);
    assert("admin-read-write"@ =~= "admin"@ + "-read-"@ + "write"@);
    assert("admin-read-only"@ =~= "admin"@ + "-read-"@ + "only"@);
}

/// A request names its bucket, its parent key, its permission and a time to live within
/// the limits, and narrows the reach exactly where prefixes are given.
pub proof fn law_request_members(q: TempCredsRequest)
    ensures
        request_view(q) matches JsonView::Object(m) && {
            &&& m.contains(("bucket"@, JsonView::Str(q.bucket@)))
            &&& m.contains(("parentAccessKeyId"@, JsonView::Str(q.parent_access_key_id@)))
            &&& m.contains(("parentSecretAccessKey"@, JsonView::Str(q.parent_secret_access_key@)))
            &&& m.contains(("permission"@, JsonView::Str(q.permission.wire())))
            &&& 900 <= q.ttl_seconds <= 604_800 ==> m.contains(
                (
                    "ttlSeconds"@,
                    JsonView::Number(Some(q.ttl_seconds), decimal(q.ttl_seconds as nat)),
                ),
            )
            &&& q.prefixes@.len() > 0 ==> m.contains(("prefixes"@, text_array(views(q.prefixes@))))
            &&& q.prefixes@.len() == 0 ==> m.len() == 5
        },
{
    let m = request_view(q)->Object_0;
    assert(m[0].0 == "bucket"@ && m[1].0 == "parentAccessKeyId"@ && m[2].0
        == "parentSecretAccessKey"@ && m[3].0 == "permission"@ && m[4].0 == "ttlSeconds"@);
    if q.prefixes@.len() > 0 {
        assert(m[5].0 == "prefixes"@);
    }
}

/// The credentials are those of the answer, part by part, and expire when the time that
/// was asked for is over.
pub proof fn law_cred_is_as_answered(
    c: ScopedR2Cred,
    env: CfEnvelope,
    k: TempCredsResult,
    asked: u64,
    now: u64,
)
    requires
        env.result == Some(k),
        cred_for(c, MintReply::Answer(env), asked, Some(now)),
        900 <= asked <= 604_800,
        now + asked <= u64::MAX,
    ensures
        c.access_key_id@ == k.access_key_id@,
        c.secret_access_key@ == k.secret_access_key@,
        c.session_token@ == k.session_token@,
        c.expires_at == Some((now + asked) as u64),
{
}

/// Credentials are asked for below the account they are for.
pub proof fn law_asked_below_account(base: Seq<char>, account: Seq<char>)
    ensures
        starts(creds_url(base, account), base + "/accounts/"@ + account + "/"@),
{
    reveal_strlit("/");
    reveal_strlit("/r2/temp-access-credentials");
    let u = creds_url(base, account);
    let lead = base + "/accounts/"@ + account + "/"@;
    assert(u.take(lead.len() as int) =~= lead);
}

/// An answer that says it succeeded and holds keys is taken.
pub proof fn law_complete_answer_taken(bucket: Seq<char>, url: Seq<char>, env: CfEnvelope)
    ensures
        mint_fault(bucket, url, MintReply::Answer(env)) is None <==> env.success && env.result
            is Some,
{
}

} // verus!
