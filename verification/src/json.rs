//! JSON values as plain data.
//!
//! `serde_json` reads and writes the text; everything that looks inside a value
//! works on [`Json`].

use crate::text::{copy, parse_signed, same, signed, views};
use vstd::prelude::*;

verus! {

/// A JSON number: its text, and its value when it is a whole number that fits
/// in 64 unsigned bits.
#[derive(Debug)]
pub struct JsonNumber {
    pub unsigned: Option<u64>,
    pub text: String,
}

/// A JSON value.
#[derive(Debug)]
pub enum Json {
    Null,
    Bool(bool),
    Number(JsonNumber),
    Str(String),
    Array(Vec<Json>),
    Object(Vec<(String, Json)>),
}

/// What a JSON value means.
#[verifier::ext_equal]
pub enum JsonView {
    Null,
    Bool(bool),
    Number(Option<u64>, Seq<char>),
    Str(Seq<char>),
    Array(Seq<JsonView>),
    Object(Seq<(Seq<char>, JsonView)>),
}

/// What a JSON value means.
pub open spec fn json_view(v: Json) -> JsonView
    decreases v,
{
    match v {
        Json::Null => JsonView::Null,
        Json::Bool(b) => JsonView::Bool(b),
        Json::Number(n) => JsonView::Number(n.unsigned, n.text@),
        Json::Str(s) => JsonView::Str(s@),
        Json::Array(a) => JsonView::Array(
            Seq::new(
                a@.len(),
                |i: int|
                    if 0 <= i < a@.len() {
                        json_view(a@[i])
                    } else {
                        JsonView::Null
                    },
            ),
        ),
        Json::Object(m) => JsonView::Object(
            Seq::new(
                m@.len(),
                |i: int|
                    if 0 <= i < m@.len() {
                        (m@[i].0@, json_view(m@[i].1))
                    } else {
                        (Seq::<char>::empty(), JsonView::Null)
                    },
            ),
        ),
    }
}

impl View for Json {
    type V = JsonView;

    open spec fn view(&self) -> JsonView {
        json_view(*self)
    }
}

impl Json {
    /// A copy of the value.
    pub fn duplicate(&self) -> (r: Json)
        ensures
            r@ == self@,
        decreases self,
    {
        match self {
            Json::Null => Json::Null,
            Json::Bool(b) => Json::Bool(*b),
            Json::Number(n) => Json::Number(
                JsonNumber { unsigned: n.unsigned, text: copy(n.text.as_str()) },
            ),
            Json::Str(s) => Json::Str(copy(s.as_str())),
            Json::Array(a) => {
                let mut out: Vec<Json> = Vec::new();
                let mut i: usize = 0;
                while i < a.len()
                    invariant
                        i <= a.len(),
                        out@.len() == i,
                        decreases_to!(self => a@),
                        forall|j: int| 0 <= j < i ==> out@[j]@ == a@[j]@,
                    decreases a.len() - i,
                {
                    out.push(a[i].duplicate());
                    i += 1;
                }
                let r = Json::Array(out);
                assert(r@->Array_0 =~= self@->Array_0);
                r
            },
            Json::Object(m) => {
                let mut out: Vec<(String, Json)> = Vec::new();
                let mut i: usize = 0;
                while i < m.len()
                    invariant
                        i <= m.len(),
                        out@.len() == i,
                        decreases_to!(self => m@),
                        forall|j: int|
                            0 <= j < i ==> out@[j].0@ == m@[j].0@ && out@[j].1@ == m@[j].1@,
                    decreases m.len() - i,
                {
                    out.push((copy(m[i].0.as_str()), m[i].1.duplicate()));
                    i += 1;
                }
                let r = Json::Object(out);
                assert(r@->Object_0 =~= self@->Object_0);
                r
            },
        }
    }
}

/// The items of an array mean what each of them means.
pub proof fn lemma_array_view(v: Json)
    ensures
        v matches Json::Array(a) ==> {
            &&& v@ is Array
            &&& v@->Array_0.len() == a@.len()
            &&& forall|i: int| 0 <= i < a@.len() ==> #[trigger] v@->Array_0[i] == a@[i]@
        },
{
}

/// The members of an object mean what each of them means.
pub proof fn lemma_object_view(v: Json)
    ensures
        v matches Json::Object(m) ==> v@ == JsonView::Object(members(m@)),
{
    if let Json::Object(m) = v {
        assert(v@->Object_0 =~= members(m@));
    }
}

// ── Looking inside ─────────────────────────────────────────────────────

/// The members of an object, in order.
pub type Members = Vec<(String, Json)>;

/// What the members of an object mean.
pub open spec fn members(m: Seq<(String, Json)>) -> Seq<(Seq<char>, JsonView)> {
    m.map_values(|p: (String, Json)| (p.0@, p.1@))
}

/// The value of the first member called `key`.
pub open spec fn lookup(m: Seq<(Seq<char>, JsonView)>, key: Seq<char>) -> Option<JsonView>
    decreases m.len(),
{
    if m.len() == 0 {
        None
    } else if m[0].0 == key {
        Some(m[0].1)
    } else {
        lookup(m.drop_first(), key)
    }
}

/// The value of the first member called `key`.
pub fn get<'a>(m: &'a Members, key: &str) -> (r: Option<&'a Json>)
    ensures
        match r {
            Some(v) => lookup(members(m@), key@) == Some(v@),
            None => lookup(members(m@), key@) is None,
        },
{
    let mut i: usize = 0;
    assert(members(m@).skip(0) =~= members(m@));
    while i < m.len()
        invariant
            i <= m.len(),
            lookup(members(m@), key@) == lookup(members(m@).skip(i as int), key@),
        decreases m.len() - i,
    {
        let ghost t = members(m@).skip(i as int);
        assert(t[0] == (m@[i as int].0@, m@[i as int].1@));
        if same(m[i].0.as_str(), key) {
            return Some(&m[i].1);
        }
        assert(t.drop_first() =~= members(m@).skip(i + 1));
        i += 1;
    }
    None
}

/// The truth value, if `v` is one.
pub open spec fn bool_in(v: Option<JsonView>) -> Option<bool> {
    match v {
        Some(JsonView::Bool(b)) => Some(b),
        _ => None,
    }
}

/// The whole number, if `v` is one that fits in 64 unsigned bits.
pub open spec fn u64_in(v: Option<JsonView>) -> Option<u64> {
    match v {
        Some(JsonView::Number(u, _)) => u,
        _ => None,
    }
}

/// The whole number in 64 signed bits, if `v` is one. A number that is none, or a
/// larger one, has a point or an exponent in its text.
pub open spec fn i64_in(v: Option<JsonView>) -> Option<i64> {
    match v {
        Some(JsonView::Number(Some(u), _)) => if u <= 0x7fff_ffff_ffff_ffff {
            Some(u as i64)
        } else {
            None
        },
        Some(JsonView::Number(None, t)) => signed(t),
        _ => None,
    }
}

/// The member `key` of an object; nothing for any other value.
pub open spec fn member(v: Option<JsonView>, key: Seq<char>) -> Option<JsonView> {
    match v {
        Some(JsonView::Object(m)) => lookup(m, key),
        _ => None,
    }
}

/// The member `key` of an object; nothing for any other value.
pub fn get_member<'a>(v: Option<&'a Json>, key: &str) -> (r: Option<&'a Json>)
    ensures
        opt_json(r) == member(opt_json(v), key@),
{
    match v {
        Some(j) => {
            proof {
                lemma_object_view(*j);
            }
            match j {
                Json::Object(m) => get(m, key),
                _ => None,
            }
        },
        None => None,
    }
}

/// What an optional value means.
pub open spec fn opt_json(v: Option<&Json>) -> Option<JsonView> {
    match v {
        Some(j) => Some(j@),
        None => None,
    }
}

/// The text, if `v` is one.
pub fn as_str<'a>(v: Option<&'a Json>) -> (r: Option<&'a str>)
    ensures
        opt_str(r) == str_in(opt_json(v)),
{
    match v {
        Some(Json::Str(s)) => Some(s.as_str()),
        _ => None,
    }
}

/// The whole number in 64 signed bits, if `v` is one.
pub fn as_i64(v: Option<&Json>) -> (r: Option<i64>)
    ensures
        r == i64_in(opt_json(v)),
{
    match v {
        Some(Json::Number(n)) => match n.unsigned {
            Some(u) => if u <= 0x7fff_ffff_ffff_ffff {
                Some(u as i64)
            } else {
                None
            },
            None => parse_signed(n.text.as_str()),
        },
        _ => None,
    }
}

/// The text of the number, if `v` is one.
pub open spec fn number_in(v: Option<JsonView>) -> Option<Seq<char>> {
    match v {
        Some(JsonView::Number(_, t)) => Some(t),
        _ => None,
    }
}

/// The text, if `v` is one.
pub open spec fn str_in(v: Option<JsonView>) -> Option<Seq<char>> {
    match v {
        Some(JsonView::Str(t)) => Some(t),
        _ => None,
    }
}

/// The truth value of the member `key`, if it is one.
pub fn get_bool(m: &Members, key: &str) -> (r: Option<bool>)
    ensures
        r == bool_in(lookup(members(m@), key@)),
{
    match get(m, key) {
        Some(Json::Bool(b)) => Some(*b),
        _ => None,
    }
}

/// The whole number of the member `key`, if it is one.
pub fn get_u64(m: &Members, key: &str) -> (r: Option<u64>)
    ensures
        r == u64_in(lookup(members(m@), key@)),
{
    match get(m, key) {
        Some(Json::Number(n)) => n.unsigned,
        _ => None,
    }
}

/// The text of an optional string.
pub open spec fn opt_view(o: Option<String>) -> Option<Seq<char>> {
    match o {
        Some(s) => Some(s@),
        None => None,
    }
}

/// The text of an optional string slice.
pub open spec fn opt_str(o: Option<&str>) -> Option<Seq<char>> {
    match o {
        Some(s) => Some(s@),
        None => None,
    }
}

/// The text of the number of the member `key`, if it is one.
pub fn get_number(m: &Members, key: &str) -> (r: Option<String>)
    ensures
        opt_view(r) == number_in(lookup(members(m@), key@)),
{
    match get(m, key) {
        Some(Json::Number(n)) => Some(copy(n.text.as_str())),
        _ => None,
    }
}

/// The text of the member `key`, if it is one.
pub fn get_str<'a>(m: &'a Members, key: &str) -> (r: Option<&'a str>)
    ensures
        opt_str(r) == str_in(lookup(members(m@), key@)),
{
    match get(m, key) {
        Some(Json::Str(s)) => Some(s.as_str()),
        _ => None,
    }
}

/// Copies of the members of an object.
pub fn copy_members(m: &Members) -> (r: Members)
    ensures
        members(r@) == members(m@),
{
    let mut out: Members = Vec::new();
    let mut i: usize = 0;
    while i < m.len()
        invariant
            i <= m.len(),
            out@.len() == i,
            forall|j: int| 0 <= j < i ==> #[trigger] members(out@)[j] == members(m@)[j],
        decreases m.len() - i,
    {
        let ghost before = out@;
        out.push((copy(m[i].0.as_str()), m[i].1.duplicate()));
        assert forall|j: int| 0 <= j < i implies members(out@)[j] == members(m@)[j] by {
            assert(members(before)[j] == members(m@)[j]);
        }
        i += 1;
    }
    assert(members(out@) =~= members(m@));
    out
}

/// Texts as a JSON array.
pub open spec fn text_array(v: Seq<Seq<char>>) -> JsonView {
    JsonView::Array(v.map_values(|s: Seq<char>| JsonView::Str(s)))
}

/// Texts as a JSON array.
pub fn texts_json(v: &Vec<String>) -> (r: Json)
    ensures
        r@ == text_array(views(v@)),
{
    let mut a: Vec<Json> = Vec::new();
    let mut i: usize = 0;
    while i < v.len()
        invariant
            i <= v.len(),
            a@.len() == i,
            forall|j: int| 0 <= j < i ==> (#[trigger] a@[j])@ == JsonView::Str(v@[j]@),
        decreases v.len() - i,
    {
        a.push(Json::Str(copy(v[i].as_str())));
        i += 1;
    }
    let r = Json::Array(a);
    proof {
        lemma_array_view(r);
        assert(r@->Array_0 =~= text_array(views(v@))->Array_0);
    }
    r
}

// ── Text ───────────────────────────────────────────────────────────────

/// `serde_json::Value`, carried between its reader or writer and [`Json`].
#[verifier::external_type_specification]
#[verifier::external_body]
pub struct ExValue(serde_json::Value);

/// What a `serde_json::Value` holds: its items and members in the order in which
/// it walks them.
pub uninterp spec fn held(v: serde_json::Value) -> JsonView;

/// What a `serde_json::Value` keeps of plain data: it has its own order of the
/// members of an object, one value for each name, and null in place of a number
/// whose text is none.
pub uninterp spec fn kept(v: JsonView) -> JsonView;

/// The value that `serde_json` reads from a text, or its error message.
pub uninterp spec fn json_parsed(text: Seq<char>) -> Result<JsonView, Seq<char>>;

/// The members of the object that `serde_json` reads from a text, or its error
/// message.
pub uninterp spec fn object_parsed(text: Seq<char>) -> Result<
    Seq<(Seq<char>, JsonView)>,
    Seq<char>,
>;

/// The text that `serde_json` writes for what one of its values holds.
pub uninterp spec fn value_text(v: JsonView) -> Seq<char>;

/// The text that `serde_json` writes for what one of its values holds, over
/// several lines.
pub uninterp spec fn value_lines(v: JsonView) -> Seq<char>;

/// The text of a value.
pub open spec fn json_rendered(v: JsonView) -> Seq<char> {
    value_text(kept(v))
}

/// The text of a value, over several lines.
pub open spec fn json_pretty(v: JsonView) -> Seq<char> {
    value_lines(kept(v))
}

/// Does the text hold the value `v`?
pub open spec fn parses_to(text: Seq<char>, v: JsonView) -> bool {
    json_parsed(text) == Ok::<JsonView, Seq<char>>(v)
}

/// `a` comes before `b` in the order of their characters.
pub open spec fn text_below(a: Seq<char>, b: Seq<char>) -> bool
    decreases a.len(),
{
    if b.len() == 0 {
        false
    } else if a.len() == 0 {
        true
    } else if a[0] != b[0] {
        a[0] < b[0]
    } else {
        text_below(a.drop_first(), b.drop_first())
    }
}

/// An object whose members are all texts and stand in ascending order of their
/// names.
pub open spec fn flat_texts(v: JsonView) -> bool {
    match v {
        JsonView::Object(m) => {
            &&& forall|i: int| 0 <= i < m.len() ==> (#[trigger] m[i]).1 is Str
            &&& forall|i: int, j: int| 0 <= i < j < m.len() ==> text_below(m[i].0, m[j].0)
        },
        _ => false,
    }
}

/// A `serde_json::Value` as plain data, variant by variant: a number keeps its
/// own text and what `Number::as_u64` says of it. What the value holds is named
/// [`held`].
#[verifier::external_body]
fn json_of(v: serde_json::Value) -> (r: Json)
    ensures
        r@ == held(v),
{
    match v {
        serde_json::Value::Null => Json::Null,
        serde_json::Value::Bool(b) => Json::Bool(b),
        serde_json::Value::Number(n) => Json::Number(
            JsonNumber { unsigned: n.as_u64(), text: n.to_string() },
        ),
        serde_json::Value::String(s) => Json::Str(s),
        serde_json::Value::Array(a) => Json::Array(a.into_iter().map(json_of).collect()),
        serde_json::Value::Object(m) => Json::Object(
            m.into_iter().map(|(k, w)| (k, json_of(w))).collect(),
        ),
    }
}

/// Plain data as a `serde_json::Value`, variant by variant: a number is read
/// back from its text by `Number::from_str`, and one whose text is no number
/// becomes null; the members go into a `serde_json::Map`. What the value then holds
/// is named [`kept`]. An object of texts in ascending order of their names it
/// holds as it is.
#[verifier::external_body]
fn value_of(v: &Json) -> (r: serde_json::Value)
    ensures
        held(r) == kept(v@),
        flat_texts(v@) ==> held(r) == v@,
{
    match v {
        Json::Null => serde_json::Value::Null,
        Json::Bool(b) => serde_json::Value::Bool(*b),
        Json::Number(n) => n.text.parse().map_or(
            serde_json::Value::Null,
            serde_json::Value::Number,
        ),
        Json::Str(s) => serde_json::Value::String(s.clone()),
        Json::Array(a) => serde_json::Value::Array(a.iter().map(value_of).collect()),
        Json::Object(m) => serde_json::Value::Object(
            m.iter().map(|p| (p.0.clone(), value_of(&p.1))).collect(),
        ),
    }
}

/// `serde_json::from_str` on a text: the value it holds, or the message of the
/// error. The result depends on the text alone and is named [`json_parsed`].
#[verifier::external_body]
fn read_value(text: &str) -> (r: Result<serde_json::Value, String>)
    ensures
        match r {
            Ok(v) => json_parsed(text@) == Ok::<JsonView, Seq<char>>(held(v)),
            Err(e) => json_parsed(text@) == Err::<JsonView, Seq<char>>(e@),
        },
{
    serde_json::from_str(text).map_err(|e| e.to_string())
}

/// `serde_json::from_str` on a text that must hold an object: the object, or the
/// message of the error. The result depends on the text alone, and the members are
/// named [`object_parsed`].
#[verifier::external_body]
fn read_object(text: &str) -> (r: Result<serde_json::Value, String>)
    ensures
        match r {
            Ok(v) => held(v) is Object && object_parsed(text@) == Ok::<_, Seq<char>>(
                held(v)->Object_0,
            ),
            Err(e) => object_parsed(text@) == Err::<Seq<(Seq<char>, JsonView)>, _>(e@),
        },
{
    serde_json::from_str(text).map(serde_json::Value::Object).map_err(|e| e.to_string())
}

/// `serde_json::Value::to_string`: the compact text of a value, named
/// [`value_text`]. Where the value holds an object of texts in ascending order of
/// their names, `serde_json` reads that text back as the same value.
#[verifier::external_body]
fn compact(v: &serde_json::Value) -> (r: String)
    ensures
        r@ == value_text(held(*v)),
        flat_texts(held(*v)) ==> parses_to(r@, held(*v)),
{
    v.to_string()
}

/// The alternate form of `serde_json::Value`'s `Display`: the text of a value over
/// several lines, named [`value_lines`].
#[verifier::external_body]
fn spread(v: &serde_json::Value) -> (r: String)
    ensures
        r@ == value_lines(held(*v)),
{
    format!("{v:#}")
}

/// The value that a text holds, or why it holds none.
pub fn parse_json(text: &str) -> (r: Result<Json, String>)
    ensures
        match r {
            Ok(v) => json_parsed(text@) == Ok::<JsonView, Seq<char>>(v@),
            Err(e) => json_parsed(text@) == Err::<JsonView, Seq<char>>(e@),
        },
{
    match read_value(text) {
        Ok(v) => Ok(json_of(v)),
        Err(e) => Err(e),
    }
}

/// The members of the object that a text holds, or why it holds none.
pub fn parse_object(text: &str) -> (r: Result<Members, String>)
    ensures
        match r {
            Ok(m) => object_parsed(text@) == Ok::<_, Seq<char>>(members(m@)),
            Err(e) => object_parsed(text@) == Err::<Seq<(Seq<char>, JsonView)>, _>(e@),
        },
{
    match read_object(text) {
        Ok(v) => {
            let j = json_of(v);
            proof {
                lemma_object_view(j);
            }
            match j {
                Json::Object(m) => Ok(m),
                _ => {
                    assert(false);
                    Ok(Vec::new())
                },
            }
        },
        Err(e) => Err(e),
    }
}

/// The text of a value.
pub fn render_json(v: &Json) -> (r: String)
    ensures
        r@ == json_rendered(v@),
        flat_texts(v@) ==> parses_to(r@, v@),
{
    compact(&value_of(v))
}

/// The text of a value, over several lines.
pub fn render_pretty(v: &Json) -> (r: String)
    ensures
        r@ == json_pretty(v@),
{
    spread(&value_of(v))
}

/// Is the member set to this value? Where it is set twice, the first counts.
pub open spec fn set_to(m: Seq<(Seq<char>, JsonView)>, key: Seq<char>, v: JsonView) -> bool {
    exists|i: int|
        0 <= i < m.len() && #[trigger] m[i] == (key, v) && forall|j: int|
            0 <= j < i ==> (#[trigger] m[j]).0 != key
}

/// Is there no member of the name?
pub open spec fn unset(m: Seq<(Seq<char>, JsonView)>, key: Seq<char>) -> bool {
    forall|i: int| 0 <= i < m.len() ==> (#[trigger] m[i]).0 != key
}

/// Looking a member up gives the first of its name, and nothing exactly when there is none.
pub proof fn law_lookup_finds_first(m: Seq<(Seq<char>, JsonView)>, key: Seq<char>)
    ensures
        match lookup(m, key) {
            Some(v) => set_to(m, key, v) && !unset(m, key) && forall|w: JsonView| #[trigger]
                set_to(m, key, w) ==> w == v,
            None => unset(m, key) && forall|w: JsonView| !#[trigger] set_to(m, key, w),
        },
    decreases m.len(),
{
    if m.len() > 0 {
        if m[0].0 == key {
            assert(m[0] == (key, m[0].1));
            assert(set_to(m, key, m[0].1));
            assert forall|w: JsonView| #[trigger] set_to(m, key, w) implies w == m[0].1 by {
                let i = choose|i: int|
                    0 <= i < m.len() && #[trigger] m[i] == (key, w) && forall|j: int|
                        0 <= j < i ==> (#[trigger] m[j]).0 != key;
                if i > 0 {
                    assert(m[0].0 != key);
                }
            }
        } else {
            let rest = m.drop_first();
            law_lookup_finds_first(rest, key);
            assert forall|w: JsonView| set_to(rest, key, w) == #[trigger] set_to(m, key, w) by {
                if set_to(rest, key, w) {
                    let i = choose|i: int|
                        0 <= i < rest.len() && #[trigger] rest[i] == (key, w) && forall|j: int|
                            0 <= j < i ==> (#[trigger] rest[j]).0 != key;
                    assert(m[i + 1] == rest[i]);
                    assert forall|j: int| 0 <= j < i + 1 implies (#[trigger] m[j]).0 != key by {
                        if j > 0 {
                            assert(rest[j - 1] == m[j]);
                        }
                    }
                }
                if set_to(m, key, w) {
                    let i = choose|i: int|
                        0 <= i < m.len() && #[trigger] m[i] == (key, w) && forall|j: int|
                            0 <= j < i ==> (#[trigger] m[j]).0 != key;
                    assert(i > 0);
                    assert(rest[i - 1] == m[i]);
                    assert forall|j: int| 0 <= j < i - 1 implies (#[trigger] rest[j]).0 != key by {
                        assert(m[j + 1] == rest[j]);
                    }
                }
            }
            if lookup(m, key) is None {
                assert forall|i: int| 0 <= i < m.len() implies (#[trigger] m[i]).0 != key by {
                    if i > 0 {
                        assert(rest[i - 1] == m[i]);
                    }
                }
            }
        }
    }
}

/// Texts are ordered by the first character in which they differ, and a text comes
/// before every longer one that begins with it.
pub proof fn law_text_order(p: Seq<char>, c: char, d: char, x: Seq<char>, y: Seq<char>)
    ensures
        c < d ==> text_below(p + seq![c] + x, p + seq![d] + y),
        c < d ==> !text_below(p + seq![d] + y, p + seq![c] + x),
        text_below(p, p + seq![c] + x),
    decreases p.len(),
{
    let a = p + seq![c] + x;
    let b = p + seq![d] + y;
    if p.len() > 0 {
        let q = p.drop_first();
        law_text_order(q, c, d, x, y);
        assert(a.drop_first() =~= q + seq![c] + x);
        assert(b.drop_first() =~= q + seq![d] + y);
        assert(a[0] == p[0] && b[0] == p[0]);
    } else {
        assert(a[0] == c && b[0] == d);
    }
}

} // verus!
