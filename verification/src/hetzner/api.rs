//! Requests to Hetzner Cloud and what their answers say.

use crate::hetzner::env::{env_view, EnvView};
use crate::json::{
    as_i64, as_str, get_member, i64_in, json_parsed, law_lookup_finds_first, lemma_array_view,
    lemma_object_view, member, members, number_in, opt_json, parse_json, set_to, str_in, text_array,
    texts_json, unset, Json, JsonView, Members,
};
use crate::text::{
    chars_of, copy, decimal_int, hex_upper, is_white, law_trimmed, law_white_trims_to_nothing, same,
    show_int, split, split_at_each, starts, starts_with, substring, trim, trimmed, views,
};
use vstd::prelude::*;
use vstd::string::*;
use vstd::utf8::*;

verus! {

// ── Statuses and locations ─────────────────────────────────────────────

/// The state of a server.
#[derive(Debug, Clone, Copy, PartialEq, Eq, Structural)]
pub enum HetznerServerStatus {
    Initializing,
    Starting,
    Running,
    Stopping,
    /// Stopped; still paid for until it is deleted.
    Off,
    Deleting,
    /// Any state that is not known here.
    Unknown,
}

impl HetznerServerStatus {
    /// The state of a name.
    pub open spec fn named(s: Seq<char>) -> HetznerServerStatus {
        if s == "initializing"@ {
            HetznerServerStatus::Initializing
        } else if s == "starting"@ {
            HetznerServerStatus::Starting
        } else if s == "running"@ {
            HetznerServerStatus::Running
        } else if s == "stopping"@ {
            HetznerServerStatus::Stopping
        } else if s == "off"@ {
            HetznerServerStatus::Off
        } else if s == "deleting"@ {
            HetznerServerStatus::Deleting
        } else {
            HetznerServerStatus::Unknown
        }
    }

    /// The state of a name; any other name is `Unknown`.
    pub fn from_str(s: &str) -> (r: HetznerServerStatus)
        ensures
            r == HetznerServerStatus::named(s@),
    {
        if same(s, "initializing") {
            HetznerServerStatus::Initializing
        } else if same(s, "starting") {
            HetznerServerStatus::Starting
        } else if same(s, "running") {
            HetznerServerStatus::Running
        } else if same(s, "stopping") {
            HetznerServerStatus::Stopping
        } else if same(s, "off") {
            HetznerServerStatus::Off
        } else if same(s, "deleting") {
            HetznerServerStatus::Deleting
        } else {
            HetznerServerStatus::Unknown
        }
    }

    /// What the orchestrator calls the state.
    pub open spec fn orchestrator_state(self) -> Seq<char> {
        match self {
            HetznerServerStatus::Initializing => "allocating"@,
            HetznerServerStatus::Starting => "allocating"@,
            HetznerServerStatus::Running => "running"@,
            HetznerServerStatus::Stopping => "stopping"@,
            HetznerServerStatus::Off => "stopping"@,
            HetznerServerStatus::Deleting => "stopping"@,
            HetznerServerStatus::Unknown => "unknown"@,
        }
    }

    /// What the orchestrator calls the state.
    pub fn as_orchestrator_state(&self) -> (r: &'static str)
        ensures
            r@ == self.orchestrator_state(),
    {
        match self {
            HetznerServerStatus::Initializing => "allocating",
            HetznerServerStatus::Starting => "allocating",
            HetznerServerStatus::Running => "running",
            HetznerServerStatus::Stopping => "stopping",
            HetznerServerStatus::Off => "stopping",
            HetznerServerStatus::Deleting => "stopping",
            HetznerServerStatus::Unknown => "unknown",
        }
    }
}

/// Where a server stands.
#[derive(Debug, Clone, Copy, PartialEq, Eq, Structural)]
pub enum HetznerLocation {
    /// Falkenstein.
    Fsn1,
    /// Nuremberg.
    Nbg1,
    /// Helsinki.
    Hel1,
    /// Ashburn.
    Ash,
    /// Hillsboro.
    Hil,
    /// Singapore.
    Sin,
}

impl HetznerLocation {
    /// The name of the location.
    pub open spec fn slug(self) -> Seq<char> {
        match self {
            HetznerLocation::Fsn1 => "fsn1"@,
            HetznerLocation::Nbg1 => "nbg1"@,
            HetznerLocation::Hel1 => "hel1"@,
            HetznerLocation::Ash => "ash"@,
            HetznerLocation::Hil => "hil"@,
            HetznerLocation::Sin => "sin"@,
        }
    }

    /// The name of the location.
    pub fn as_str(&self) -> (r: &'static str)
        ensures
            r@ == self.slug(),
    {
        match self {
            HetznerLocation::Fsn1 => "fsn1",
            HetznerLocation::Nbg1 => "nbg1",
            HetznerLocation::Hel1 => "hel1",
            HetznerLocation::Ash => "ash",
            HetznerLocation::Hil => "hil",
            HetznerLocation::Sin => "sin",
        }
    }
}

/// No two locations have the same name.
pub proof fn law_location_slugs_distinct(a: HetznerLocation, b: HetznerLocation)
    requires
        a.slug() == b.slug(),
    ensures
        a == b,
{
    reveal_strlit("fsn1");
    reveal_strlit("nbg1");
    reveal_strlit("hel1");
    reveal_strlit("ash");
    reveal_strlit("hil");
    reveal_strlit("sin");
    assert("fsn1"@[0] == 'f' && "nbg1"@[0] == 'n' && "hel1"@[0] == 'h' && "ash"@[0] == 'a'
        && "hil"@[0] == 'h' && "sin"@[0] == 's');
    assert("hel1"@.len() == 4 && "hil"@.len() == 3);
}

// ── Encoding for a URL ─────────────────────────────────────────────────

/// Does the byte stand for itself in a URL? The `=` of a label selector does.
pub open spec fn url_plain(b: u8) -> bool {
    (97 <= b <= 122) || (65 <= b <= 90) || (48 <= b <= 57) || b == 45 || b == 95 || b == 46 || b
        == 126 || b == 61
}

/// One byte in a URL.
pub open spec fn url_byte(b: u8) -> Seq<char> {
    if url_plain(b) {
        seq![b as char]
    } else {
        seq!['%', hex_upper(b as nat / 16), hex_upper(b as nat % 16)]
    }
}

/// Bytes in a URL.
pub open spec fn url_bytes(s: Seq<u8>) -> Seq<char>
    decreases s.len(),
{
    if s.len() == 0 {
        Seq::<char>::empty()
    } else {
        url_bytes(s.drop_last()) + url_byte(s.last())
    }
}

/// The upper-case hexadecimal digit of `d`.
fn hex_digit_upper(d: u8) -> (r: char)
    requires
        d < 16,
    ensures
        r == hex_upper(d as nat),
{
    let b: u8 = if d < 10 {
        48u8 + d
    } else {
        55u8 + d
    };
    b as char
}

/// The UTF-8 bytes of a text in a URL.
pub fn urlencode(s: &str) -> (r: String)
    ensures
        r@ == url_bytes(encode_utf8(s@)),
{
    let bytes = s.as_bytes();
    let ghost all = encode_utf8(s@);
    let mut out: String = String::new();
    let mut i: usize = 0;
    assert(out@ =~= url_bytes(all.take(0)));
    while i < bytes.len()
        invariant
            i <= bytes.len(),
            bytes@ == all,
            out@ == url_bytes(all.take(i as int)),
        decreases bytes.len() - i,
    {
        let b: u8 = bytes[i];
        assert(all.take(i + 1).drop_last() =~= all.take(i as int));
        let ghost before = out@;
        if (b >= 97 && b <= 122) || (b >= 65 && b <= 90) || (b >= 48 && b <= 57) || b == 45 || b
            == 95 || b == 46 || b == 126 || b == 61 {
            out.push(b as char);
        } else {
            out.push('%');
            out.push(hex_digit_upper(b / 16));
            out.push(hex_digit_upper(b % 16));
        }
        i += 1;
        assert(out@ =~= before + url_byte(b));
    }
    assert(all.take(i as int) =~= all);
    out
}

/// The value of an upper-case hexadecimal digit.
pub open spec fn hex_value(c: char) -> nat {
    if '0' <= c <= '9' {
        (c as u32 - '0' as u32) as nat
    } else {
        (c as u32 - 'A' as u32 + 10) as nat
    }
}

/// The bytes that a URL text stands for.
pub open spec fn url_decoded(s: Seq<char>) -> Seq<u8>
    decreases s.len(),
{
    if s.len() == 0 {
        Seq::<u8>::empty()
    } else if s[0] == '%' && s.len() >= 3 {
        seq![(hex_value(s[1]) * 16 + hex_value(s[2])) as u8] + url_decoded(s.skip(3))
    } else {
        seq![s[0] as u8] + url_decoded(s.skip(1))
    }
}

proof fn lemma_url_decoded(b: u8, tail: Seq<char>)
    ensures
        url_decoded(url_byte(b) + tail) == seq![b] + url_decoded(tail),
{
    let s = url_byte(b) + tail;
    if url_plain(b) {
        assert(s.skip(1) =~= tail);
        assert(s[0] == b as char);
        assert((b as char) as u8 == b);
    } else {
        assert(s.skip(3) =~= tail);
        let hi = b as nat / 16;
        let lo = b as nat % 16;
        assert(hex_value(hex_upper(hi)) == hi);
        assert(hex_value(hex_upper(lo)) == lo);
        assert(hi * 16 + lo == b);
    }
}

proof fn lemma_url_bytes_decoded(s: Seq<u8>, tail: Seq<char>)
    ensures
        url_decoded(url_bytes(s) + tail) == s + url_decoded(tail),
    decreases s.len(),
{
    if s.len() == 0 {
        assert(url_bytes(s) + tail =~= tail);
        assert(s + url_decoded(tail) =~= url_decoded(tail));
    } else {
        let b = s.last();
        assert(url_bytes(s) + tail =~= url_bytes(s.drop_last()) + (url_byte(b) + tail));
        lemma_url_bytes_decoded(s.drop_last(), url_byte(b) + tail);
        lemma_url_decoded(b, tail);
        assert(s.drop_last() + (seq![b] + url_decoded(tail)) =~= s + url_decoded(tail));
    }
}

/// Decoding an encoded text gives its bytes back, so that no two selectors reach
/// the server as the same one.
pub proof fn law_urlencode_round_trip(s: Seq<u8>)
    ensures
        url_decoded(url_bytes(s)) == s,
{
    lemma_url_bytes_decoded(s, Seq::<char>::empty());
    assert(url_bytes(s) + Seq::<char>::empty() =~= url_bytes(s));
    assert(s + url_decoded(Seq::<char>::empty()) =~= s);
}

/// An encoded text holds only letters, digits, `-`, `_`, `.`, `~`, `=` and `%`.
pub proof fn law_urlencode_safe(s: Seq<u8>, i: int)
    requires
        0 <= i < url_bytes(s).len(),
    ensures
        url_bytes(s)[i] == '%' || url_plain(url_bytes(s)[i] as u8),
        (url_bytes(s)[i] as u32) < 128,
    decreases s.len(),
{
    if s.len() > 0 {
        let head = url_bytes(s.drop_last());
        if i < head.len() {
            law_urlencode_safe(s.drop_last(), i);
        } else {
            let b = s.last();
            assert(url_bytes(s)[i] == url_byte(b)[i - head.len()]);
            if url_plain(b) {
                assert((b as char) as u8 == b);
                assert(((b as char) as u32) < 128);
            } else {
                let hi = b as nat / 16;
                let lo = b as nat % 16;
                assert(url_plain(hex_upper(hi) as u8));
                assert(url_plain(hex_upper(lo) as u8));
            }
        }
    }
}

// ── The requests ───────────────────────────────────────────────────────

/// Where server types are listed.
pub fn server_types_url() -> (r: String)
    ensures
        r@ == "https://api.hetzner.cloud/v1/server_types?per_page=50"@,
{
    copy("https://api.hetzner.cloud/v1/server_types?per_page=50")
}

/// Where servers are made.
pub fn servers_url() -> (r: String)
    ensures
        r@ == "https://api.hetzner.cloud/v1/servers"@,
{
    copy("https://api.hetzner.cloud/v1/servers")
}

/// Where the servers with a label are listed.
pub fn label_url(selector: &str) -> (r: String)
    ensures
        r@ == "https://api.hetzner.cloud/v1/servers?label_selector="@ + url_bytes(
            encode_utf8(selector@),
        ) + "&per_page=50"@,
{
    let mut u: String = copy("https://api.hetzner.cloud/v1/servers?label_selector=");
    let e = urlencode(selector);
    u.append(e.as_str());
    u.append("&per_page=50");
    u
}

/// Where a server is deleted.
pub fn server_url(id: i64) -> (r: String)
    ensures
        r@ == "https://api.hetzner.cloud/v1/servers/"@ + decimal_int(id as int),
{
    let mut u: String = copy("https://api.hetzner.cloud/v1/servers/");
    let n = show_int(id);
    u.append(n.as_str());
    u
}

/// Pairs of texts as a JSON object.
pub open spec fn text_object(v: EnvView) -> JsonView {
    JsonView::Object(v.map_values(|p: (Seq<char>, Seq<char>)| (p.0, JsonView::Str(p.1))))
}

/// Pairs of texts as a JSON object.
pub fn pairs_json(v: &Vec<(String, String)>) -> (r: Json)
    ensures
        r@ == text_object(env_view(v@)),
{
    let mut m: Members = Vec::new();
    let mut i: usize = 0;
    while i < v.len()
        invariant
            i <= v.len(),
            m@.len() == i,
            forall|j: int|
                0 <= j < i ==> (#[trigger] m@[j]).0@ == v@[j].0@ && m@[j].1@ == JsonView::Str(
                    v@[j].1@,
                ),
        decreases v.len() - i,
    {
        m.push((copy(v[i].0.as_str()), Json::Str(copy(v[i].1.as_str()))));
        i += 1;
    }
    let r = Json::Object(m);
    proof {
        lemma_object_view(r);
        assert(members(m@) =~= text_object(env_view(v@))->Object_0);
    }
    r
}

/// The body of the request that makes a server.
pub open spec fn server_request(
    name: Seq<char>,
    server_type: Seq<char>,
    image: Seq<char>,
    location: Seq<char>,
    user_data: Seq<char>,
    ssh_keys: Seq<Seq<char>>,
    labels: EnvView,
) -> JsonView {
    JsonView::Object(
        seq![
            ("image"@, JsonView::Str(image)),
            ("labels"@, text_object(labels)),
            ("location"@, JsonView::Str(location)),
            ("name"@, JsonView::Str(name)),
            ("server_type"@, JsonView::Str(server_type)),
            ("ssh_keys"@, text_array(ssh_keys)),
            ("start_after_create"@, JsonView::Bool(true)),
            ("user_data"@, JsonView::Str(user_data)),
        ],
    )
}

/// The body of the request that makes a server.
pub fn create_server_body(
    name: &str,
    server_type: &str,
    image: &str,
    location: &str,
    user_data: &str,
    ssh_keys: &Vec<String>,
    labels: &Vec<(String, String)>,
) -> (r: Json)
    ensures
        r@ == server_request(
            name@,
            server_type@,
            image@,
            location@,
            user_data@,
            views(ssh_keys@),
            env_view(labels@),
        ),
{
    let mut m: Members = Vec::new();
    m.push((copy("image"), Json::Str(copy(image))));
    m.push((copy("labels"), pairs_json(labels)));
    m.push((copy("location"), Json::Str(copy(location))));
    m.push((copy("name"), Json::Str(copy(name))));
    m.push((copy("server_type"), Json::Str(copy(server_type))));
    m.push((copy("ssh_keys"), texts_json(ssh_keys)));
    m.push((copy("start_after_create"), Json::Bool(true)));
    m.push((copy("user_data"), Json::Str(copy(user_data))));
    let r = Json::Object(m);
    proof {
        lemma_object_view(r);
        assert(members(m@) =~= server_request(
            name@,
            server_type@,
            image@,
            location@,
            user_data@,
            views(ssh_keys@),
            env_view(labels@),
        )->Object_0);
    }
    r
}

// ── The answers ────────────────────────────────────────────────────────

/// An answer of the interface: whether its status means success, the status and
/// the body.
#[derive(Debug)]
pub struct Reply {
    pub success: bool,
    pub not_found: bool,
    pub status: String,
    pub body: String,
}

/// The message of an answer that means no success.
pub open spec fn http_text(what: Seq<char>, r: Reply) -> Seq<char> {
    what + ": HTTP "@ + r.status@ + ": "@ + r.body@
}

/// The message of an answer that means no success.
fn http_message(what: &str, r: &Reply) -> (m: String)
    ensures
        m@ == http_text(what@, *r),
{
    let mut e: String = copy(what);
    e.append(": HTTP ");
    e.append(r.status.as_str());
    e.append(": ");
    e.append(r.body.as_str());
    e
}

/// A kind of server.
#[derive(Debug)]
pub struct HetznerServerType {
    pub id: i64,
    pub name: String,
    /// `shared` or `dedicated`.
    pub cpu_type: String,
    /// `x86` or `arm`.
    pub architecture: String,
    pub cores: u32,
    /// In gibibytes, as JSON writes the number.
    pub memory: String,
    /// In gigabytes.
    pub disk: u32,
}

/// A whole number that fits into 32 bits.
pub open spec fn u32_in(v: Option<JsonView>) -> Option<u32> {
    match crate::json::u64_in(v) {
        Some(n) => if n <= u32::MAX {
            Some(n as u32)
        } else {
            None
        },
        None => None,
    }
}

/// Is this the server type that the JSON describes?
pub open spec fn server_type_for(t: HetznerServerType, v: JsonView) -> bool {
    &&& v is Object
    &&& i64_in(member(Some(v), "id"@)) == Some(t.id)
    &&& str_in(member(Some(v), "name"@)) == Some(t.name@)
    &&& str_in(member(Some(v), "cpu_type"@)) == Some(t.cpu_type@)
    &&& str_in(member(Some(v), "architecture"@)) == Some(t.architecture@)
    &&& u32_in(member(Some(v), "cores"@)) == Some(t.cores)
    &&& number_in(member(Some(v), "memory"@)) == Some(t.memory@)
    &&& u32_in(member(Some(v), "disk"@)) == Some(t.disk)
}

/// Does the JSON describe a server type?
pub open spec fn is_server_type(v: JsonView) -> bool {
    &&& v is Object
    &&& i64_in(member(Some(v), "id"@)) is Some
    &&& str_in(member(Some(v), "name"@)) is Some
    &&& str_in(member(Some(v), "cpu_type"@)) is Some
    &&& str_in(member(Some(v), "architecture"@)) is Some
    &&& u32_in(member(Some(v), "cores"@)) is Some
    &&& number_in(member(Some(v), "memory"@)) is Some
    &&& u32_in(member(Some(v), "disk"@)) is Some
}

/// A number as text.
fn as_number<'a>(v: Option<&'a Json>) -> (r: Option<&'a str>)
    ensures
        number_in(opt_json(v)) == (match r {
            Some(s) => Some(s@),
            None => None,
        }),
{
    match v {
        Some(Json::Number(n)) => Some(n.text.as_str()),
        _ => None,
    }
}

/// A whole number that fits into 32 bits.
fn as_u32(v: Option<&Json>) -> (r: Option<u32>)
    ensures
        r == u32_in(opt_json(v)),
{
    match v {
        Some(Json::Number(n)) => match n.unsigned {
            Some(u) => if u <= u32::MAX as u64 {
                Some(u as u32)
            } else {
                None
            },
            None => None,
        },
        _ => None,
    }
}

/// The server type that the JSON describes.
pub fn server_type_of(v: &Json) -> (r: Option<HetznerServerType>)
    ensures
        match r {
            Some(t) => server_type_for(t, v@),
            None => !is_server_type(v@),
        },
{
    let top: Option<&Json> = Some(v);
    assert(opt_json(top) == Some(v@));
    let id: i64 = match as_i64(get_member(top, "id")) {
        Some(n) => n,
        None => {
            return None;
        },
    };
    let name = match as_str(get_member(top, "name")) {
        Some(s) => copy(s),
        None => {
            return None;
        },
    };
    let cpu_type = match as_str(get_member(top, "cpu_type")) {
        Some(s) => copy(s),
        None => {
            return None;
        },
    };
    let architecture = match as_str(get_member(top, "architecture")) {
        Some(s) => copy(s),
        None => {
            return None;
        },
    };
    let cores: u32 = match as_u32(get_member(top, "cores")) {
        Some(n) => n,
        None => {
            return None;
        },
    };
    let memory = match as_number(get_member(top, "memory")) {
        Some(s) => copy(s),
        None => {
            return None;
        },
    };
    let disk: u32 = match as_u32(get_member(top, "disk")) {
        Some(n) => n,
        None => {
            return None;
        },
    };
    Some(HetznerServerType { id, name, cpu_type, architecture, cores, memory, disk })
}

/// A server.
#[derive(Debug)]
pub struct HetznerServer {
    pub id: i64,
    pub name: String,
    pub status: String,
    pub labels: Vec<(String, String)>,
    /// The addresses, as the interface describes them.
    pub public_net: Json,
}

impl HetznerServer {
    /// The public IPv4 address, where there is one.
    pub fn ipv4(&self) -> (r: Option<String>)
        ensures
            match r {
                Some(s) => str_in(member(member(Some(self.public_net@), "ipv4"@), "ip"@)) == Some(
                    s@,
                ),
                None => str_in(member(member(Some(self.public_net@), "ipv4"@), "ip"@)) is None,
            },
    {
        let top: Option<&Json> = Some(&self.public_net);
        assert(opt_json(top) == Some(self.public_net@));
        match as_str(get_member(get_member(top, "ipv4"), "ip")) {
            Some(s) => Some(copy(s)),
            None => None,
        }
    }

    /// The state of the server.
    pub fn parsed_status(&self) -> (r: HetznerServerStatus)
        ensures
            r == HetznerServerStatus::named(self.status@),
    {
        HetznerServerStatus::from_str(self.status.as_str())
    }
}

/// Are all members texts?
pub open spec fn all_texts(m: Seq<(Seq<char>, JsonView)>) -> bool {
    forall|i: int| 0 <= i < m.len() ==> (#[trigger] m[i]).1 is Str
}

/// Can these be the labels of a server? There may be none at all.
pub open spec fn labels_fit(v: Option<JsonView>) -> bool {
    match v {
        None => true,
        Some(JsonView::Object(m)) => all_texts(m),
        Some(_) => false,
    }
}

/// Are these the labels?
pub open spec fn labels_for(labels: Seq<(String, String)>, v: Option<JsonView>) -> bool {
    match v {
        None => labels.len() == 0,
        Some(l) => l == text_object(env_view(labels)),
    }
}

/// The labels of a server.
fn labels_of(v: Option<&Json>) -> (r: Option<Vec<(String, String)>>)
    ensures
        match r {
            Some(l) => labels_fit(opt_json(v)) && labels_for(l@, opt_json(v)),
            None => !labels_fit(opt_json(v)),
        },
{
    let m: &Members = match v {
        None => {
            return Some(Vec::new());
        },
        Some(Json::Object(m)) => m,
        Some(_) => {
            return None;
        },
    };
    proof {
        lemma_object_view(*v->Some_0);
    }
    let mut out: Vec<(String, String)> = Vec::new();
    let mut i: usize = 0;
    while i < m.len()
        invariant
            i <= m.len(),
            opt_json(v) == Some(JsonView::Object(members(m@))),
            out@.len() == i,
            forall|j: int|
                0 <= j < i ==> (#[trigger] out@[j]).0@ == m@[j].0@ && m@[j].1@ == JsonView::Str(
                    out@[j].1@,
                ),
        decreases m.len() - i,
    {
        match &m[i].1 {
            Json::Str(s) => {
                out.push((copy(m[i].0.as_str()), copy(s.as_str())));
            },
            _ => {
                assert(members(m@)[i as int].1 == m@[i as int].1@);
                return None;
            },
        }
        i += 1;
    }
    proof {
        let ms = members(m@);
        assert forall|j: int| 0 <= j < ms.len() implies (#[trigger] ms[j]).1 is Str by {
            assert(out@[j].0@ == m@[j].0@);
        }
        assert forall|j: int| 0 <= j < ms.len() implies #[trigger] ms[j] == text_object(
            env_view(out@),
        )->Object_0[j] by {
            assert(out@[j].0@ == m@[j].0@);
        }
        assert(ms =~= text_object(env_view(out@))->Object_0);
    }
    Some(out)
}

/// Is this the server that the JSON describes?
pub open spec fn server_for(s: HetznerServer, v: JsonView) -> bool {
    &&& v is Object
    &&& i64_in(member(Some(v), "id"@)) == Some(s.id)
    &&& str_in(member(Some(v), "name"@)) == Some(s.name@)
    &&& str_in(member(Some(v), "status"@)) == Some(s.status@)
    &&& labels_fit(member(Some(v), "labels"@))
    &&& labels_for(s.labels@, member(Some(v), "labels"@))
    &&& s.public_net@ == (match member(Some(v), "public_net"@) {
        Some(n) => n,
        None => JsonView::Null,
    })
}

/// Does the JSON describe a server?
pub open spec fn is_server(v: JsonView) -> bool {
    &&& v is Object
    &&& i64_in(member(Some(v), "id"@)) is Some
    &&& str_in(member(Some(v), "name"@)) is Some
    &&& str_in(member(Some(v), "status"@)) is Some
    &&& labels_fit(member(Some(v), "labels"@))
}

/// The server that the JSON describes.
pub fn server_of(v: &Json) -> (r: Option<HetznerServer>)
    ensures
        match r {
            Some(s) => server_for(s, v@),
            None => !is_server(v@),
        },
{
    let top: Option<&Json> = Some(v);
    assert(opt_json(top) == Some(v@));
    let id: i64 = match as_i64(get_member(top, "id")) {
        Some(n) => n,
        None => {
            return None;
        },
    };
    let name = match as_str(get_member(top, "name")) {
        Some(s) => copy(s),
        None => {
            return None;
        },
    };
    let status = match as_str(get_member(top, "status")) {
        Some(s) => copy(s),
        None => {
            return None;
        },
    };
    let labels = match labels_of(get_member(top, "labels")) {
        Some(l) => l,
        None => {
            return None;
        },
    };
    let public_net = match get_member(top, "public_net") {
        Some(n) => n.duplicate(),
        None => Json::Null,
    };
    Some(HetznerServer { id, name, status, labels, public_net })
}

/// The body of an answer: the message where it means no success or is no JSON.
pub open spec fn body_fault(what: Seq<char>, parse: Seq<char>, r: Reply) -> Option<Seq<char>> {
    if !r.success {
        Some(http_text(what, r))
    } else if json_parsed(r.body@) is Err {
        Some(parse)
    } else {
        None
    }
}

/// The body of an answer.
fn read_body(what: &str, parse: &str, r: &Reply) -> (v: Result<Json, String>)
    ensures
        match v {
            Ok(j) => body_fault(what@, parse@, *r) is None && json_parsed(r.body@) == Ok::<
                JsonView,
                Seq<char>,
            >(j@),
            Err(e) => body_fault(what@, parse@, *r) == Some(e@),
        },
{
    if !r.success {
        return Err(http_message(what, r));
    }
    match parse_json(r.body.as_str()) {
        Ok(j) => Ok(j),
        Err(_) => Err(copy(parse)),
    }
}

/// The entries of a list in an answer.
pub open spec fn entries_in(v: JsonView, key: Seq<char>) -> Option<Seq<JsonView>> {
    match member(Some(v), key) {
        Some(JsonView::Array(a)) => Some(a),
        _ => None,
    }
}

/// Are all entries server types?
pub open spec fn all_server_types(a: Seq<JsonView>) -> bool {
    forall|i: int| 0 <= i < a.len() ==> is_server_type(#[trigger] a[i])
}

/// Are all entries servers?
pub open spec fn all_servers(a: Seq<JsonView>) -> bool {
    forall|i: int| 0 <= i < a.len() ==> is_server(#[trigger] a[i])
}

/// What is wrong with the answer to a listing of server types.
pub open spec fn types_fault(r: Reply) -> Option<Seq<char>> {
    match body_fault("GET /server_types"@, "parse /server_types JSON"@, r) {
        Some(e) => Some(e),
        None => match entries_in(json_parsed(r.body@)->Ok_0, "server_types"@) {
            None => Some("missing `server_types` array"@),
            Some(a) => if all_server_types(a) {
                None
            } else {
                Some("parse one server_type entry"@)
            },
        },
    }
}

/// What is wrong with the answer to a listing of servers.
pub open spec fn servers_fault(selector: Seq<char>, r: Reply) -> Option<Seq<char>> {
    match body_fault("GET /servers?label_selector="@ + selector, "parse /servers JSON"@, r) {
        Some(e) => Some(e),
        None => match entries_in(json_parsed(r.body@)->Ok_0, "servers"@) {
            None => Some("missing `servers` array"@),
            Some(a) => if all_servers(a) {
                None
            } else {
                Some("parse one server entry"@)
            },
        },
    }
}

/// The server types in an answer.
pub fn list_server_types(r: &Reply) -> (out: Result<Vec<HetznerServerType>, String>)
    ensures
        match out {
            Ok(v) => {
                &&& types_fault(*r) is None
                &&& entries_in(json_parsed(r.body@)->Ok_0, "server_types"@) matches Some(a)
                    && a.len() == v@.len() && forall|i: int|
                    0 <= i < v@.len() ==> server_type_for(#[trigger] v@[i], a[i])
            },
            Err(e) => types_fault(*r) == Some(e@),
        },
{
    let v = match read_body("GET /server_types", "parse /server_types JSON", r) {
        Ok(j) => j,
        Err(e) => {
            return Err(e);
        },
    };
    let top: Option<&Json> = Some(&v);
    assert(opt_json(top) == Some(v@));
    let found = get_member(top, "server_types");
    let a: &Vec<Json> = match found {
        Some(Json::Array(a)) => a,
        _ => {
            return Err(copy("missing `server_types` array"));
        },
    };
    proof {
        lemma_array_view(*found->Some_0);
    }
    let ghost all = entries_in(v@, "server_types"@)->Some_0;
    let mut out: Vec<HetznerServerType> = Vec::new();
    let mut i: usize = 0;
    while i < a.len()
        invariant
            i <= a.len(),
            entries_in(v@, "server_types"@) == Some(all),
            json_parsed(r.body@) == Ok::<JsonView, Seq<char>>(v@),
            body_fault("GET /server_types"@, "parse /server_types JSON"@, *r) is None,
            all.len() == a@.len(),
            forall|j: int| 0 <= j < a@.len() ==> #[trigger] all[j] == a@[j]@,
            out@.len() == i,
            forall|j: int| 0 <= j < i ==> server_type_for(#[trigger] out@[j], all[j]),
        decreases a.len() - i,
    {
        match server_type_of(&a[i]) {
            Some(t) => {
                assert(all[i as int] == a@[i as int]@);
                out.push(t);
            },
            None => {
                assert(all[i as int] == a@[i as int]@);
                assert(!is_server_type(all[i as int]));
                return Err(copy("parse one server_type entry"));
            },
        }
        i += 1;
    }
    assert forall|j: int| 0 <= j < all.len() implies is_server_type(#[trigger] all[j]) by {
        assert(server_type_for(out@[j], all[j]));
    }
    Ok(out)
}

/// The servers in an answer.
pub fn list_servers_by_label(selector: &str, r: &Reply) -> (out: Result<Vec<HetznerServer>, String>)
    ensures
        match out {
            Ok(v) => {
                &&& servers_fault(selector@, *r) is None
                &&& entries_in(json_parsed(r.body@)->Ok_0, "servers"@) matches Some(a) && a.len()
                    == v@.len() && forall|i: int|
                    0 <= i < v@.len() ==> server_for(#[trigger] v@[i], a[i])
            },
            Err(e) => servers_fault(selector@, *r) == Some(e@),
        },
{
    let mut what: String = copy("GET /servers?label_selector=");
    what.append(selector);
    let v = match read_body(what.as_str(), "parse /servers JSON", r) {
        Ok(j) => j,
        Err(e) => {
            return Err(e);
        },
    };
    let top: Option<&Json> = Some(&v);
    assert(opt_json(top) == Some(v@));
    let found = get_member(top, "servers");
    let a: &Vec<Json> = match found {
        Some(Json::Array(a)) => a,
        _ => {
            return Err(copy("missing `servers` array"));
        },
    };
    proof {
        lemma_array_view(*found->Some_0);
    }
    let ghost all = entries_in(v@, "servers"@)->Some_0;
    let mut out: Vec<HetznerServer> = Vec::new();
    let mut i: usize = 0;
    while i < a.len()
        invariant
            i <= a.len(),
            entries_in(v@, "servers"@) == Some(all),
            json_parsed(r.body@) == Ok::<JsonView, Seq<char>>(v@),
            what@ == "GET /servers?label_selector="@ + selector@,
            body_fault(what@, "parse /servers JSON"@, *r) is None,
            all.len() == a@.len(),
            forall|j: int| 0 <= j < a@.len() ==> #[trigger] all[j] == a@[j]@,
            out@.len() == i,
            forall|j: int| 0 <= j < i ==> server_for(#[trigger] out@[j], all[j]),
        decreases a.len() - i,
    {
        match server_of(&a[i]) {
            Some(t) => {
                assert(all[i as int] == a@[i as int]@);
                out.push(t);
            },
            None => {
                assert(all[i as int] == a@[i as int]@);
                assert(!is_server(all[i as int]));
                return Err(copy("parse one server entry"));
            },
        }
        i += 1;
    }
    assert forall|j: int| 0 <= j < all.len() implies is_server(#[trigger] all[j]) by {
        assert(server_for(out@[j], all[j]));
    }
    Ok(out)
}

/// What is wrong with the answer to the making of a server.
pub open spec fn created_fault(name: Seq<char>, r: Reply) -> Option<Seq<char>> {
    match body_fault("POST /servers ("@ + name + ")"@, "parse /servers response"@, r) {
        Some(e) => Some(e),
        None => match member(Some(json_parsed(r.body@)->Ok_0), "server"@) {
            None => Some("missing `server` field"@),
            Some(v) => if is_server(v) {
                None
            } else {
                Some("parse server entry"@)
            },
        },
    }
}

/// The server that was made.
pub fn create_server(name: &str, r: &Reply) -> (out: Result<HetznerServer, String>)
    ensures
        match out {
            Ok(s) => {
                &&& created_fault(name@, *r) is None
                &&& member(Some(json_parsed(r.body@)->Ok_0), "server"@) matches Some(v)
                    && server_for(s, v)
            },
            Err(e) => created_fault(name@, *r) == Some(e@),
        },
{
    let mut what: String = copy("POST /servers (");
    what.append(name);
    what.append(")");
    let v = match read_body(what.as_str(), "parse /servers response", r) {
        Ok(j) => j,
        Err(e) => {
            return Err(e);
        },
    };
    let top: Option<&Json> = Some(&v);
    assert(opt_json(top) == Some(v@));
    match get_member(top, "server") {
        None => Err(copy("missing `server` field")),
        Some(s) => match server_of(s) {
            Some(server) => Ok(server),
            None => Err(copy("parse server entry")),
        },
    }
}

/// Did the deletion succeed? A server that is gone already counts as deleted.
pub fn delete_server(id: i64, r: &Reply) -> (out: Result<(), String>)
    ensures
        match out {
            Ok(_) => r.success || r.not_found,
            Err(e) => !r.success && !r.not_found && e@ == http_text(
                "DELETE /servers/"@ + decimal_int(id as int),
                *r,
            ),
        },
{
    if r.success || r.not_found {
        return Ok(());
    }
    let mut what: String = copy("DELETE /servers/");
    let n = show_int(id);
    what.append(n.as_str());
    Err(http_message(what.as_str(), r))
}

// ── The token ──────────────────────────────────────────────────────────

/// The token on one line of a file, where it has one.
pub open spec fn token_on(line: Seq<char>) -> Option<Seq<char>> {
    let l = trimmed(line);
    if l.len() == 0 || l[0] == '#' || !starts(l, "api_token="@) {
        None
    } else {
        let v = trimmed(l.skip("api_token="@.len() as int));
        if v.len() == 0 {
            None
        } else {
            Some(v)
        }
    }
}

/// The first token among the lines.
pub open spec fn token_in(lines: Seq<Seq<char>>) -> Option<Seq<char>>
    decreases lines.len(),
{
    if lines.len() == 0 {
        None
    } else {
        match token_in(lines.drop_last()) {
            Some(t) => Some(t),
            None => token_on(lines.last()),
        }
    }
}

proof fn lemma_token_stays(lines: Seq<Seq<char>>, n: int)
    requires
        0 <= n <= lines.len(),
        token_in(lines.take(n)) is Some,
    ensures
        token_in(lines) == token_in(lines.take(n)),
    decreases lines.len() - n,
{
    if n < lines.len() {
        assert(lines.take(n + 1).drop_last() =~= lines.take(n));
        lemma_token_stays(lines, n + 1);
    } else {
        assert(lines.take(n) =~= lines);
    }
}

/// The token on one line of a file.
fn read_token(line: &str) -> (r: Option<String>)
    ensures
        match r {
            Some(t) => token_on(line@) == Some(t@),
            None => token_on(line@) is None,
        },
{
    let l = trim(line);
    let a = chars_of(l.as_str());
    if a.len() == 0 {
        return None;
    }
    if a[0] == '#' {
        return None;
    }
    if !starts_with(l.as_str(), "api_token=") {
        return None;
    }
    proof {
        reveal_strlit("api_token=");
    }
    let rest = substring(a.as_slice(), 10, a.len());
    assert(rest@ =~= l@.skip("api_token="@.len() as int));
    let v = trim(rest.as_str());
    if v.as_str().is_empty() {
        None
    } else {
        Some(v)
    }
}

/// What the token is taken from: the variable where it holds one, else the file.
pub open spec fn token_for(
    var: Option<Seq<char>>,
    file: Seq<char>,
) -> Option<Seq<char>> {
    match var {
        Some(t) => if trimmed(t).len() > 0 {
            Some(trimmed(t))
        } else {
            token_in(split_at_each(file, '\n'))
        },
        None => token_in(split_at_each(file, '\n')),
    }
}

/// The token of the interface: from the variable where it is set and not blank,
/// else from the first line of the file that gives one.
pub fn load_token_from_file_or_env(var: Option<&str>, file: &str, path: &str) -> (r: Result<
    String,
    String,
>)
    ensures
        match r {
            Ok(t) => token_for(crate::text::opt_text(var), file@) == Some(t@),
            Err(e) => token_for(crate::text::opt_text(var), file@) is None && e@
                == "no `api_token=...` line found in "@ + path@ + " (or set $HETZNER_API_TOKEN)"@,
        },
{
    match var {
        Some(v) => {
            let t = trim(v);
            if !t.as_str().is_empty() {
                return Ok(t);
            }
        },
        None => {},
    }
    let lines = split(file, '\n');
    let ghost all = views(lines@);
    let mut i: usize = 0;
    while i < lines.len()
        invariant
            i <= lines.len(),
            all == views(lines@),
            all == split_at_each(file@, '\n'),
            token_in(all.take(i as int)) is None,
            token_for(crate::text::opt_text(var), file@) == token_in(all),
        decreases lines.len() - i,
    {
        assert(all.take(i + 1).drop_last() =~= all.take(i as int));
        assert(all.take(i + 1).last() == lines@[i as int]@);
        match read_token(lines[i].as_str()) {
            Some(t) => {
                proof {
                    lemma_token_stays(all, i + 1);
                }
                return Ok(t);
            },
            None => {},
        }
        i += 1;
    }
    assert(all.take(i as int) =~= all);
    let mut e: String = copy("no `api_token=...` line found in ");
    e.append(path);
    e.append(" (or set $HETZNER_API_TOKEN)");
    Err(e)
}

// ── Laws of the interface ──────────────────────────────────────────────

/// The word of the interface for a state that is known.
pub open spec fn status_word(st: HetznerServerStatus, s: Seq<char>) -> bool {
    match st {
        HetznerServerStatus::Initializing => s == "initializing"@,
        HetznerServerStatus::Starting => s == "starting"@,
        HetznerServerStatus::Running => s == "running"@,
        HetznerServerStatus::Stopping => s == "stopping"@,
        HetznerServerStatus::Off => s == "off"@,
        HetznerServerStatus::Deleting => s == "deleting"@,
        HetznerServerStatus::Unknown => false,
    }
}

/// A word gives the state that it is the word of, and any other word an unknown state.
pub proof fn law_status_named_by_its_word(s: Seq<char>, st: HetznerServerStatus)
    ensures
        !(HetznerServerStatus::named(s) is Unknown) ==> status_word(
            HetznerServerStatus::named(s),
            s,
        ),
        status_word(st, s) ==> !(HetznerServerStatus::named(s) is Unknown),
{
}

/// A server runs for the orchestrator exactly when it runs for the interface; before
/// that it is being allocated, and after that it stops.
pub proof fn law_orchestrator_state_follows_server(s: Seq<char>)
    ensures
        HetznerServerStatus::named(s).orchestrator_state() == "running"@ ==> s == "running"@,
        HetznerServerStatus::named(s).orchestrator_state() == "allocating"@ ==> s
            == "initializing"@ || s == "starting"@,
        HetznerServerStatus::named(s).orchestrator_state() == "stopping"@ ==> s == "stopping"@ || s
            == "off"@ || s == "deleting"@,
        s == "running"@ || s == "initializing"@ || s == "starting"@ || s == "stopping"@ || s
            == "off"@ || s == "deleting"@ ==> HetznerServerStatus::named(s).orchestrator_state()
            != "unknown"@,
{
    reveal_strlit("running");
    reveal_strlit("allocating");
    reveal_strlit("stopping");
    reveal_strlit("unknown");
    assert("running"@[0] == 'r' && "allocating"@[0] == 'a' && "stopping"@[0] == 's' && "unknown"@[0]
        == 'u');
}

/// The request for a server says everything that it is made from, and the server starts
/// at once.
pub proof fn law_server_request_members(
    name: Seq<char>,
    server_type: Seq<char>,
    image: Seq<char>,
    location: Seq<char>,
    data: Seq<char>,
    ssh_keys: Seq<Seq<char>>,
    labels: EnvView,
)
    ensures
        server_request(name, server_type, image, location, data, ssh_keys, labels) matches
            JsonView::Object(m) && {
            &&& m.contains(("name"@, JsonView::Str(name)))
            &&& m.contains(("server_type"@, JsonView::Str(server_type)))
            &&& m.contains(("image"@, JsonView::Str(image)))
            &&& m.contains(("location"@, JsonView::Str(location)))
            &&& m.contains(("user_data"@, JsonView::Str(data)))
            &&& m.contains(("ssh_keys"@, text_array(ssh_keys)))
            &&& m.contains(("labels"@, text_object(labels)))
            &&& m.contains(("start_after_create"@, JsonView::Bool(true)))
        },
{
    let m = server_request(
        name,
        server_type,
        image,
        location,
        data,
        ssh_keys,
        labels,
    )->Object_0;
    assert(m[0].0 == "image"@ && m[1].0 == "labels"@ && m[2].0 == "location"@ && m[3].0 == "name"@
        && m[4].0 == "server_type"@ && m[5].0 == "ssh_keys"@ && m[6].0 == "start_after_create"@
        && m[7].0 == "user_data"@);
}

/// A server is what the members of its description say.
pub proof fn law_server_reads_its_members(
    s: HetznerServer,
    m: Seq<(Seq<char>, JsonView)>,
    t: Seq<char>,
)
    requires
        server_for(s, JsonView::Object(m)),
    ensures
        set_to(m, "name"@, JsonView::Str(t)) <==> s.name@ == t,
        set_to(m, "status"@, JsonView::Str(t)) <==> s.status@ == t,
        unset(m, "labels"@) ==> s.labels@.len() == 0,
        forall|l: JsonView|
            #[trigger] set_to(m, "labels"@, l) ==> l == text_object(env_view(s.labels@)),
        forall|n: JsonView| #[trigger] set_to(m, "public_net"@, n) ==> s.public_net@ == n,
        forall|u: u64, w: Seq<char>|
            #[trigger] set_to(m, "id"@, JsonView::Number(Some(u), w)) ==> s.id == u,
{
    law_lookup_finds_first(m, "id"@);
    law_lookup_finds_first(m, "name"@);
    law_lookup_finds_first(m, "status"@);
    law_lookup_finds_first(m, "labels"@);
    law_lookup_finds_first(m, "public_net"@);
}

/// A kind of server is what the members of its description say.
pub proof fn law_server_type_reads_its_members(
    s: HetznerServerType,
    m: Seq<(Seq<char>, JsonView)>,
    t: Seq<char>,
    u: u64,
)
    requires
        server_type_for(s, JsonView::Object(m)),
    ensures
        set_to(m, "name"@, JsonView::Str(t)) <==> s.name@ == t,
        set_to(m, "cpu_type"@, JsonView::Str(t)) <==> s.cpu_type@ == t,
        set_to(m, "architecture"@, JsonView::Str(t)) <==> s.architecture@ == t,
        set_to(m, "id"@, JsonView::Number(Some(u), t)) ==> s.id == u,
        set_to(m, "cores"@, JsonView::Number(Some(u), t)) ==> s.cores == u,
        set_to(m, "disk"@, JsonView::Number(Some(u), t)) ==> s.disk == u,
        set_to(m, "memory"@, JsonView::Number(Some(u), t)) ==> s.memory@ == t,
{
    law_lookup_finds_first(m, "id"@);
    law_lookup_finds_first(m, "name"@);
    law_lookup_finds_first(m, "cpu_type"@);
    law_lookup_finds_first(m, "architecture"@);
    law_lookup_finds_first(m, "cores"@);
    law_lookup_finds_first(m, "memory"@);
    law_lookup_finds_first(m, "disk"@);
}

/// A line that sets the token gives it, whatever white space stands around it.
pub proof fn law_token_line_gives_token(before: Seq<char>, token: Seq<char>, after: Seq<char>)
    requires
        forall|i: int| 0 <= i < before.len() ==> is_white(#[trigger] before[i]),
        forall|i: int| 0 <= i < after.len() ==> is_white(#[trigger] after[i]),
        token.len() > 0,
        !is_white(token[0]),
        !is_white(token.last()),
    ensures
        token_on(before + ("api_token="@ + token) + after) == Some(token),
{
    reveal_strlit("api_token=");
    let key = "api_token="@;
    let l = key + token;
    assert(l[0] == 'a');
    assert(l.last() == token.last());
    law_trimmed(before, l, after);
    assert(l.take(key.len() as int) =~= key);
    assert(starts(l, key));
    let none = Seq::<char>::empty();
    assert(l.skip(key.len() as int) =~= none + token + none);
    law_trimmed(none, token, none);
}

/// A comment gives no token.
pub proof fn law_comment_gives_no_token(line: Seq<char>)
    requires
        trimmed(line).len() > 0,
        trimmed(line)[0] == '#',
    ensures
        token_on(line) is None,
{
}

/// The first line that gives a token decides.
pub proof fn law_first_token_line_decides(lines: Seq<Seq<char>>, i: int)
    requires
        0 <= i < lines.len(),
        token_on(lines[i]) is Some,
        forall|j: int| 0 <= j < i ==> token_on(#[trigger] lines[j]) is None,
    ensures
        token_in(lines) == token_on(lines[i]),
    decreases lines.len(),
{
    let front = lines.drop_last();
    if i < front.len() {
        assert(front[i] == lines[i]);
        assert forall|j: int| 0 <= j < i implies token_on(#[trigger] front[j]) is None by {
            assert(front[j] == lines[j]);
        }
        law_first_token_line_decides(front, i);
    } else {
        assert forall|j: int| 0 <= j < front.len() implies token_on(#[trigger] front[j]) is None by {
            assert(front[j] == lines[j]);
        }
        lemma_no_token(front);
    }
}

proof fn lemma_no_token(lines: Seq<Seq<char>>)
    requires
        forall|j: int| 0 <= j < lines.len() ==> token_on(#[trigger] lines[j]) is None,
    ensures
        token_in(lines) is None,
    decreases lines.len(),
{
    if lines.len() > 0 {
        let front = lines.drop_last();
        assert forall|j: int| 0 <= j < front.len() implies token_on(#[trigger] front[j]) is None by {
            assert(front[j] == lines[j]);
        }
        assert(lines[lines.len() - 1] == lines.last());
        lemma_no_token(front);
    }
}

/// A token in the environment goes before the file.
pub proof fn law_environment_token_first(
    before: Seq<char>,
    token: Seq<char>,
    after: Seq<char>,
    file: Seq<char>,
)
    requires
        forall|i: int| 0 <= i < before.len() ==> is_white(#[trigger] before[i]),
        forall|i: int| 0 <= i < after.len() ==> is_white(#[trigger] after[i]),
        token.len() > 0,
        !is_white(token[0]),
        !is_white(token.last()),
    ensures
        token_for(Some(before + token + after), file) == Some(token),
        token_for(Some(before), file) == token_for(None, file),
{
    law_trimmed(before, token, after);
    law_white_trims_to_nothing(before);
}

/// A list of servers, or of kinds of servers, is taken exactly when the request succeeded
/// and every entry of the array can be read.
pub proof fn law_lists_taken(selector: Seq<char>, r: Reply, m: Seq<(Seq<char>, JsonView)>)
    requires
        json_parsed(r.body@) == Ok::<JsonView, Seq<char>>(JsonView::Object(m)),
    ensures
        servers_fault(selector, r) is None ==> r.success && exists|a: Seq<JsonView>|
            set_to(m, "servers"@, JsonView::Array(a)) && #[trigger] all_servers(a),
        types_fault(r) is None ==> r.success && exists|a: Seq<JsonView>|
            set_to(m, "server_types"@, JsonView::Array(a)) && #[trigger] all_server_types(a),
        forall|a: Seq<JsonView>|
            r.success && set_to(m, "servers"@, JsonView::Array(a)) && #[trigger] all_servers(a)
                ==> servers_fault(selector, r) is None,
        forall|a: Seq<JsonView>|
            r.success && set_to(m, "server_types"@, JsonView::Array(a))
                && #[trigger] all_server_types(a) ==> types_fault(r) is None,
{
    law_lookup_finds_first(m, "servers"@);
    law_lookup_finds_first(m, "server_types"@);
    if servers_fault(selector, r) is None {
        let a = member(Some(JsonView::Object(m)), "servers"@)->Some_0->Array_0;
        assert(set_to(m, "servers"@, JsonView::Array(a)) && all_servers(a));
    }
    if types_fault(r) is None {
        let a = member(Some(JsonView::Object(m)), "server_types"@)->Some_0->Array_0;
        assert(set_to(m, "server_types"@, JsonView::Array(a)) && all_server_types(a));
    }
}

/// A new server is taken exactly when the request succeeded and the answer describes it.
pub proof fn law_new_server_taken(name: Seq<char>, r: Reply, m: Seq<(Seq<char>, JsonView)>)
    requires
        json_parsed(r.body@) == Ok::<JsonView, Seq<char>>(JsonView::Object(m)),
    ensures
        !r.success || unset(m, "server"@) ==> created_fault(name, r) is Some,
        forall|v: JsonView|
            #[trigger] set_to(m, "server"@, v) && r.success ==> (created_fault(name, r) is None
                <==> is_server(v)),
{
    law_lookup_finds_first(m, "server"@);
}

} // verus!
