//! Feature vectors for the cells of sweeps that were run without them.
//!
//! Every row of a finished sweep's table is encoded, decoded and scored again,
//! and its zensim features are written. Rows that cannot be redone are counted
//! and left out; a table that cannot be read at all is an error.

use crate::json::{
    copy_members, json_parsed, lemma_object_view, members, opt_str, parse_json, Json, JsonView,
    Members,
};
use crate::sweep::encode::CodecKind;
use crate::sweep::grid::TupleView;
use crate::text::{
    after_last, contains, copy, debug_text, decimal, ends, ends_with, fault_text, is_white,
    last_word, last_word_of, law_decimal_reads_back, law_trimmed, lemma_views_push, occurs,
    parse_unsigned, quoted, replace, replaced, rest_after_last, same, show_fault, split,
    split_at_each, starts, trim, trim_end_char, trim_end_matches, trimmed, unsigned, views,
    without_suffixes, without_trailing,
};
use crate::tsv::{
    find_col, first_called, is_called, missing_column, none_called, one_name, record_view, Tsv,
};
use vstd::prelude::*;

verus! {

// ── Configuration and counts ───────────────────────────────────────────

/// What a backfill does.
#[derive(Debug)]
pub struct BackfillConfig {
    pub mode: BackfillMode,
    pub corpus_root: String,
    /// The codec of all rows. Needed for tables in the object store; elsewhere the
    /// rows name their codec themselves.
    pub codec: Option<CodecKind>,
}

/// Where the tables are.
#[derive(Debug)]
pub enum BackfillMode {
    Local { input_tsv: String, output_parquet: String },
    R2 { run_id: String, r2_prefix: Option<String>, output_r2_prefix: Option<String> },
}

/// What a backfill counts.
#[derive(Debug, Clone, Copy, PartialEq, Eq, Structural)]
pub struct BackfillStats {
    pub chunks_total: usize,
    pub chunks_skipped: usize,
    pub chunks_processed: usize,
    pub chunks_failed: usize,
    pub rows_total: usize,
    pub rows_emitted: usize,
    pub rows_resolve_fail: usize,
    pub rows_encode_fail: usize,
    pub rows_decode_fail: usize,
    pub rows_score_fail: usize,
}

/// Nothing counted yet.
pub open spec fn no_stats() -> BackfillStats {
    BackfillStats {
        chunks_total: 0,
        chunks_skipped: 0,
        chunks_processed: 0,
        chunks_failed: 0,
        rows_total: 0,
        rows_emitted: 0,
        rows_resolve_fail: 0,
        rows_encode_fail: 0,
        rows_decode_fail: 0,
        rows_score_fail: 0,
    }
}

impl Default for BackfillStats {
    fn default() -> (r: BackfillStats)
        ensures
            r == no_stats(),
    {
        BackfillStats {
            chunks_total: 0,
            chunks_skipped: 0,
            chunks_processed: 0,
            chunks_failed: 0,
            rows_total: 0,
            rows_emitted: 0,
            rows_resolve_fail: 0,
            rows_encode_fail: 0,
            rows_decode_fail: 0,
            rows_score_fail: 0,
        }
    }
}

/// What one table counts.
#[derive(Debug, Clone, Copy, PartialEq, Eq, Structural)]
pub struct ChunkStats {
    pub rows_total: usize,
    pub rows_emitted: usize,
    pub rows_resolve_fail: usize,
    pub rows_encode_fail: usize,
    pub rows_decode_fail: usize,
    pub rows_score_fail: usize,
}

impl ChunkStats {
    /// Every row ended in one way.
    pub open spec fn balanced(&self) -> bool {
        self.rows_total == self.rows_emitted + self.rows_resolve_fail + self.rows_encode_fail
            + self.rows_decode_fail + self.rows_score_fail
    }
}

/// The counts with the rows of one more table.
pub open spec fn with_chunk(s: BackfillStats, c: ChunkStats) -> BackfillStats {
    BackfillStats {
        rows_total: (s.rows_total + c.rows_total) as usize,
        rows_emitted: (s.rows_emitted + c.rows_emitted) as usize,
        rows_resolve_fail: (s.rows_resolve_fail + c.rows_resolve_fail) as usize,
        rows_encode_fail: (s.rows_encode_fail + c.rows_encode_fail) as usize,
        rows_decode_fail: (s.rows_decode_fail + c.rows_decode_fail) as usize,
        rows_score_fail: (s.rows_score_fail + c.rows_score_fail) as usize,
        ..s
    }
}

/// Can the rows of one more table be counted?
pub open spec fn room_for(s: BackfillStats, c: ChunkStats) -> bool {
    &&& s.rows_total + c.rows_total <= usize::MAX
    &&& s.rows_emitted + c.rows_emitted <= usize::MAX
    &&& s.rows_resolve_fail + c.rows_resolve_fail <= usize::MAX
    &&& s.rows_encode_fail + c.rows_encode_fail <= usize::MAX
    &&& s.rows_decode_fail + c.rows_decode_fail <= usize::MAX
    &&& s.rows_score_fail + c.rows_score_fail <= usize::MAX
}

/// Adds the rows of one more table.
pub fn accumulate(stats: &mut BackfillStats, chunk: &ChunkStats)
    requires
        room_for(*old(stats), *chunk),
    ensures
        *final(stats) == with_chunk(*old(stats), *chunk),
{
    stats.rows_total += chunk.rows_total;
    stats.rows_emitted += chunk.rows_emitted;
    stats.rows_resolve_fail += chunk.rows_resolve_fail;
    stats.rows_encode_fail += chunk.rows_encode_fail;
    stats.rows_decode_fail += chunk.rows_decode_fail;
    stats.rows_score_fail += chunk.rows_score_fail;
}

// ── Reading rows ───────────────────────────────────────────────────────

/// The codec that a row names; only the codecs that such sweeps used.
pub open spec fn row_codec(s: Seq<char>) -> Option<CodecKind> {
    let t = trimmed(s);
    if t == "zenwebp"@ {
        Some(CodecKind::Zenwebp)
    } else if t == "zenavif"@ {
        Some(CodecKind::Zenavif)
    } else if t == "zenjxl"@ {
        Some(CodecKind::Zenjxl)
    } else {
        None
    }
}

/// The codec that a row names.
pub fn parse_codec(s: &str) -> (r: Option<CodecKind>)
    ensures
        r == row_codec(s@),
{
    let t = trim(s);
    if same(t.as_str(), "zenwebp") {
        Some(CodecKind::Zenwebp)
    } else if same(t.as_str(), "zenavif") {
        Some(CodecKind::Zenavif)
    } else if same(t.as_str(), "zenjxl") {
        Some(CodecKind::Zenjxl)
    } else {
        None
    }
}

/// The knobs of a row, given what the JSON reader makes of its trimmed text.
pub open spec fn row_knobs(s: Seq<char>, read: Result<JsonView, Seq<char>>) -> Result<
    TupleView,
    Seq<char>,
> {
    if trimmed(s).len() == 0 || trimmed(s) == "{}"@ {
        Ok(TupleView::empty())
    } else {
        match read {
            Err(e) => Err(e),
            Ok(JsonView::Object(m)) => Ok(m),
            Ok(_) => Err("knob_tuple_json is not an object"@),
        }
    }
}

/// The members of an object, or the message that it is none.
pub fn object_members(v: &Json) -> (r: Result<Members, String>)
    ensures
        match r {
            Ok(m) => v@ == JsonView::Object(members(m@)),
            Err(e) => !(v@ is Object) && e@ == "knob_tuple_json is not an object"@,
        },
{
    proof {
        lemma_object_view(*v);
    }
    match v {
        Json::Object(m) => Ok(copy_members(m)),
        _ => Err(copy("knob_tuple_json is not an object")),
    }
}

/// Reads the knobs of a row; a blank text has none.
pub fn parse_knob_json(s: &str) -> (r: Result<Members, String>)
    ensures
        match r {
            Ok(m) => row_knobs(s@, json_parsed(trimmed(s@))) == Ok::<TupleView, Seq<char>>(
                members(m@),
            ),
            Err(e) => row_knobs(s@, json_parsed(trimmed(s@))) == Err::<TupleView, Seq<char>>(e@),
        },
{
    let t = trim(s);
    if t.as_str().is_empty() || same(t.as_str(), "{}") {
        let m: Members = Vec::new();
        assert(members(m@) =~= TupleView::empty());
        return Ok(m);
    }
    match parse_json(t.as_str()) {
        Err(e) => Err(e),
        Ok(v) => object_members(&v),
    }
}

/// The columns that a backfill reads.
#[derive(Debug, Clone, Copy, PartialEq, Eq, Structural)]
pub struct Columns {
    pub image: usize,
    pub codec: Option<usize>,
    pub q: usize,
    pub knobs: usize,
}

/// Are these the columns of the table?
pub open spec fn columns_for(c: Columns, headers: Seq<Seq<char>>) -> bool {
    &&& first_called(headers, seq!["image_path"@], c.image as int)
    &&& first_called(headers, seq!["q"@], c.q as int)
    &&& first_called(headers, seq!["knob_tuple_json"@], c.knobs as int)
    &&& match c.codec {
        Some(i) => first_called(headers, seq!["codec"@], i as int),
        None => none_called(headers, seq!["codec"@]),
    }
}

/// The message of the first needed column that a table lacks.
pub open spec fn columns_fault(headers: Seq<Seq<char>>) -> Option<Seq<char>> {
    if none_called(headers, seq!["image_path"@]) {
        Some(missing_column(seq!["image_path"@]))
    } else if none_called(headers, seq!["q"@]) {
        Some(missing_column(seq!["q"@]))
    } else if none_called(headers, seq!["knob_tuple_json"@]) {
        Some(missing_column(seq!["knob_tuple_json"@]))
    } else {
        None
    }
}

/// Finds the columns of a table.
pub fn find_columns(headers: &Vec<String>) -> (r: Result<Columns, String>)
    ensures
        match r {
            Ok(c) => columns_fault(views(headers@)) is None && columns_for(c, views(headers@)),
            Err(e) => columns_fault(views(headers@)) == Some(e@),
        },
{
    let image: usize = match find_col(headers, &one_name("image_path")) {
        Ok(i) => i,
        Err(e) => {
            return Err(e);
        },
    };
    let codec: Option<usize> = match find_col(headers, &one_name("codec")) {
        Ok(i) => Some(i),
        Err(_) => None,
    };
    let q: usize = match find_col(headers, &one_name("q")) {
        Ok(i) => i,
        Err(e) => {
            return Err(e);
        },
    };
    let knobs: usize = match find_col(headers, &one_name("knob_tuple_json")) {
        Ok(i) => i,
        Err(e) => {
            return Err(e);
        },
    };
    assert(is_some_column(views(headers@), seq!["image_path"@], image as int));
    assert(is_some_column(views(headers@), seq!["q"@], q as int));
    assert(is_some_column(views(headers@), seq!["knob_tuple_json"@], knobs as int));
    Ok(Columns { image, codec, q, knobs })
}

/// A found column is a column.
spec fn is_some_column(headers: Seq<Seq<char>>, names: Seq<Seq<char>>, i: int) -> bool {
    first_called(headers, names, i) && !none_called(headers, names)
}

/// A row that is to be redone, or that is left out.
#[derive(Debug)]
pub enum RowPlan {
    /// The knobs cannot be read; the message.
    Skip(String),
    Work { image_path: String, codec: CodecKind, q: u32, knobs: Members, knob_json: String },
}

/// How the codec of a row is found.
#[derive(Debug, Clone, Copy, PartialEq, Eq, Structural)]
pub enum RowCodec {
    /// All rows are of this codec: it selected the table.
    Fixed(CodecKind),
    /// Each row names its codec. Where it names none that is known, it is of the
    /// fallback.
    Named { fallback: Option<CodecKind> },
}

/// The codec of a row. A row that names no known codec is of the fallback, and of WebP
/// where there is none; without the column a fallback is needed.
pub open spec fn codec_for(given: RowCodec, c: Columns, fields: Seq<Seq<char>>) -> Option<
    CodecKind,
> {
    match given {
        RowCodec::Fixed(k) => Some(k),
        RowCodec::Named { fallback } => match c.codec {
            None => fallback,
            Some(i) => match row_codec(
                if i < fields.len() {
                    fields[i as int]
                } else {
                    Seq::<char>::empty()
                },
            ) {
                Some(k) => Some(k),
                None => match fallback {
                    Some(k) => Some(k),
                    None => Some(CodecKind::Zenwebp),
                },
            },
        },
    }
}

/// The message of a row that makes its whole table unusable.
pub open spec fn row_fault(
    given: RowCodec,
    c: Columns,
    fields: Seq<Seq<char>>,
) -> Option<Seq<char>> {
    if c.image >= fields.len() {
        Some("missing image_path"@)
    } else if c.q >= fields.len() {
        Some("missing q"@)
    } else if c.knobs >= fields.len() {
        Some("missing knob_tuple_json"@)
    } else if codec_for(given, c, fields) is None {
        Some("TSV has no `codec` column and --codec was not provided"@)
    } else {
        match unsigned(trimmed(fields[c.q as int]), u32::MAX as nat) {
            Err(f) => Some(
                "invalid q value "@ + debug_text(fields[c.q as int]) + ": "@ + fault_text(f),
            ),
            Ok(_) => None,
        }
    }
}

/// Is this what is to be done for a row?
pub open spec fn row_plan_for(
    p: RowPlan,
    given: RowCodec,
    c: Columns,
    fields: Seq<Seq<char>>,
) -> bool {
    let text = fields[c.knobs as int];
    let read = row_knobs(text, json_parsed(trimmed(text)));
    match p {
        RowPlan::Skip(e) => read == Err::<TupleView, Seq<char>>(e@),
        RowPlan::Work { image_path, codec, q, knobs, knob_json } => {
            &&& image_path@ == fields[c.image as int]
            &&& codec_for(given, c, fields) == Some(codec)
            &&& unsigned(trimmed(fields[c.q as int]), u32::MAX as nat) == Ok::<
                nat,
                crate::text::IntFault,
            >(q as nat)
            &&& read == Ok::<TupleView, Seq<char>>(members(knobs@))
            &&& knob_json@ == text
        },
    }
}

/// Reads a row.
pub fn read_row(given: RowCodec, c: Columns, fields: &Vec<String>) -> (r: Result<
    RowPlan,
    String,
>)
    ensures
        match r {
            Ok(p) => row_fault(given, c, views(fields@)) is None && row_plan_for(
                p,
                given,
                c,
                views(fields@),
            ),
            Err(e) => row_fault(given, c, views(fields@)) == Some(e@),
        },
{
    let ghost f = views(fields@);
    if c.image >= fields.len() {
        return Err(copy("missing image_path"));
    }
    if c.q >= fields.len() {
        return Err(copy("missing q"));
    }
    if c.knobs >= fields.len() {
        return Err(copy("missing knob_tuple_json"));
    }
    let codec: CodecKind = match given {
        RowCodec::Fixed(k) => k,
        RowCodec::Named { fallback } => match c.codec {
            None => match fallback {
                Some(k) => k,
                None => {
                    return Err(copy("TSV has no `codec` column and --codec was not provided"));
                },
            },
            Some(i) => {
                proof {
                    reveal_strlit("");
                    assert(""@ =~= Seq::<char>::empty());
                }
                let named = if i < fields.len() {
                    parse_codec(fields[i].as_str())
                } else {
                    parse_codec("")
                };
                match named {
                    Some(k) => k,
                    None => match fallback {
                        Some(k) => k,
                        None => CodecKind::Zenwebp,
                    },
                }
            },
        },
    };
    let q_text = trim(fields[c.q].as_str());
    let q: u32 = match parse_unsigned(q_text.as_str(), u32::MAX as u64) {
        Ok(v) => v as u32,
        Err(fault) => {
            let mut e: String = copy("invalid q value ");
            let t = quoted(fields[c.q].as_str());
            e.append(t.as_str());
            e.append(": ");
            let m = show_fault(fault);
            e.append(m.as_str());
            return Err(e);
        },
    };
    assert(f[c.image as int] == fields@[c.image as int]@);
    assert(f[c.knobs as int] == fields@[c.knobs as int]@);
    match parse_knob_json(fields[c.knobs].as_str()) {
        Err(e) => Ok(RowPlan::Skip(e)),
        Ok(knobs) => Ok(
            RowPlan::Work {
                image_path: copy(fields[c.image].as_str()),
                codec,
                q,
                knobs,
                knob_json: copy(fields[c.knobs].as_str()),
            },
        ),
    }
}

// ── Finding the source image ───────────────────────────────────────────

/// A place to look for a source image.
#[derive(Debug)]
pub enum Candidate {
    /// The path as the table has it.
    AsGiven,
    /// A path below the corpus.
    UnderRoot(String),
    /// Any file of this name anywhere below the corpus.
    Walk(String),
}

/// What a place to look means.
pub enum CandidateView {
    AsGiven,
    UnderRoot(Seq<char>),
    Walk(Seq<char>),
}

impl View for Candidate {
    type V = CandidateView;

    open spec fn view(&self) -> CandidateView {
        match self {
            Candidate::AsGiven => CandidateView::AsGiven,
            Candidate::UnderRoot(p) => CandidateView::UnderRoot(p@),
            Candidate::Walk(p) => CandidateView::Walk(p@),
        }
    }
}

/// Where to look for a source image, in order: the path itself; its file name
/// below the corpus; the same with every `__` as a directory separator; and any
/// file of that name. A path without a file name is only looked for as it is.
pub open spec fn places(basename: Option<Seq<char>>) -> Seq<CandidateView> {
    match basename {
        None => seq![CandidateView::AsGiven],
        Some(b) => if occurs(b, "__"@) {
            seq![
                CandidateView::AsGiven,
                CandidateView::UnderRoot(b),
                CandidateView::UnderRoot(replaced(b, "__"@, "/"@)),
                CandidateView::Walk(b),
            ]
        } else {
            seq![
                CandidateView::AsGiven,
                CandidateView::UnderRoot(b),
                CandidateView::Walk(b),
            ]
        },
    }
}

/// What a list of places means.
pub open spec fn place_views(v: Seq<Candidate>) -> Seq<CandidateView> {
    v.map_values(|c: Candidate| c@)
}

/// Where to look for a source image, in order.
pub fn resolve_places(basename: Option<&str>) -> (r: Vec<Candidate>)
    ensures
        place_views(r@) == places(opt_str(basename)),
{
    let r: Vec<Candidate> = match basename {
        None => vec![Candidate::AsGiven],
        Some(b) => if contains(b, "__") {
            vec![
                Candidate::AsGiven,
                Candidate::UnderRoot(copy(b)),
                Candidate::UnderRoot(replace(b, "__", "/")),
                Candidate::Walk(copy(b)),
            ]
        } else {
            vec![
                Candidate::AsGiven,
                Candidate::UnderRoot(copy(b)),
                Candidate::Walk(copy(b)),
            ]
        },
    };
    assert(place_views(r@) =~= places(opt_str(basename)));
    r
}

/// The first place where the image was found; `found` has one answer for each
/// place that was looked at, in order.
pub fn resolve_image_path(found: &Vec<bool>) -> (r: Option<usize>)
    ensures
        match r {
            Some(i) => i < found@.len() && found@[i as int] && forall|j: int|
                0 <= j < i ==> !(#[trigger] found@[j]),
            None => forall|j: int| 0 <= j < found@.len() ==> !(#[trigger] found@[j]),
        },
{
    let mut i: usize = 0;
    while i < found.len()
        invariant
            i <= found.len(),
            forall|j: int| 0 <= j < i ==> !(#[trigger] found@[j]),
        decreases found.len() - i,
    {
        if found[i] {
            return Some(i);
        }
        i += 1;
    }
    None
}

/// Something that stands in a directory.
#[derive(Debug)]
pub struct Entry {
    pub path: String,
    /// The last part of the path; nothing where it has none.
    pub name: Option<String>,
    pub is_dir: bool,
}

/// Is this a file of the name that is looked for?
pub open spec fn is_wanted(e: Entry, basename: Seq<char>) -> bool {
    !e.is_dir && e.name is Some && e.name->0@ == basename
}

/// The paths of the directories among the entries, in order.
pub open spec fn dirs_among(entries: Seq<Entry>) -> Seq<Seq<char>>
    decreases entries.len(),
{
    if entries.len() == 0 {
        Seq::empty()
    } else {
        let before = dirs_among(entries.drop_last());
        if entries.last().is_dir {
            before.push(entries.last().path@)
        } else {
            before
        }
    }
}

/// One directory of a search: the first file of the wanted name ends the search.
/// Where there is none, the directories in it wait to be looked into, the last
/// one first. A directory that cannot be read has no entries.
pub fn walk_find_basename(waiting: &mut Vec<String>, entries: &Vec<Entry>, basename: &str) -> (r: Option<usize>)
    ensures
        match r {
            Some(i) => i < entries@.len() && is_wanted(entries@[i as int], basename@) && forall|j: int|
                0 <= j < i ==> !is_wanted(#[trigger] entries@[j], basename@),
            None => {
                &&& forall|j: int|
                    0 <= j < entries@.len() ==> !is_wanted(#[trigger] entries@[j], basename@)
                &&& views(final(waiting)@) == views(old(waiting)@) + dirs_among(entries@)
            },
        },
{
    let ghost start = views(waiting@);
    let mut i: usize = 0;
    assert(views(waiting@) =~= start + dirs_among(entries@.take(0)));
    while i < entries.len()
        invariant
            i <= entries.len(),
            forall|j: int| 0 <= j < i ==> !is_wanted(#[trigger] entries@[j], basename@),
            views(waiting@) == start + dirs_among(entries@.take(i as int)),
        decreases entries.len() - i,
    {
        let e = &entries[i];
        let ghost sofar = entries@.take(i + 1);
        assert(sofar.drop_last() =~= entries@.take(i as int));
        assert(sofar.last() == entries@[i as int]);
        if e.is_dir {
            let p: String = copy(e.path.as_str());
            proof {
                lemma_views_push(waiting@, p);
            }
            waiting.push(p);
            assert(views(waiting@) =~= start + dirs_among(sofar));
        } else {
            match &e.name {
                Some(n) => {
                    if same(n.as_str(), basename) {
                        return Some(i);
                    }
                },
                None => {},
            }
        }
        i = i + 1;
    }
    assert(entries@.take(i as int) =~= entries@);
    None
}

// ── Redoing a row ──────────────────────────────────────────────────────

/// Everything that has come back for a row.
#[derive(Debug)]
pub struct RowReplies {
    /// The path of the source image; `Some(None)` where it was not found.
    pub resolved: Option<Option<String>>,
    /// The size of the source image; `Some(None)` where it could not be decoded.
    pub source: Option<Option<(u32, u32)>>,
    /// Whether the row could be encoded.
    pub encoded: Option<bool>,
    /// The size of the decoded row; `Some(None)` where it could not be decoded.
    pub decoded: Option<Option<(u32, u32)>>,
    /// Whether the features could be computed.
    pub scored: Option<bool>,
    /// Whether the row could be written.
    pub written: Option<bool>,
}

/// The source image that was decoded last: its path and size.
#[derive(Debug)]
pub struct SourceCache {
    pub path: String,
    pub width: u32,
    pub height: u32,
}

/// How a row ended.
#[derive(Debug, Clone, Copy, PartialEq, Eq, Structural)]
pub enum RowOutcome {
    Unresolved,
    EncodeFailed,
    DecodeFailed,
    ScoreFailed,
    Emitted,
}

/// What to do next for a row.
#[derive(Debug, Clone, Copy, PartialEq, Eq, Structural)]
pub enum RowStep {
    Resolve,
    DecodeSource,
    Encode,
    DecodeBack,
    Score,
    Write,
    Done(RowOutcome),
}

/// The size of the source image: of the one that was decoded last when the path is
/// the same, else of what decoding came to.
pub open spec fn source_size(
    path: Seq<char>,
    cache: Option<SourceCache>,
    decoded: Option<Option<(u32, u32)>>,
) -> Option<Option<(u32, u32)>> {
    match cache {
        Some(c) => if c.path@ == path {
            Some(Some((c.width, c.height)))
        } else {
            decoded
        },
        None => decoded,
    }
}

/// The next step for a row. The source image is found and decoded, unless it is
/// the one that was decoded last; the row is encoded, decoded back in the same
/// size, scored and written.
pub open spec fn row_step(cache: Option<SourceCache>, r: RowReplies) -> RowStep {
    match r.resolved {
        None => RowStep::Resolve,
        Some(None) => RowStep::Done(RowOutcome::Unresolved),
        Some(Some(path)) => match source_size(path@, cache, r.source) {
            None => RowStep::DecodeSource,
            Some(None) => RowStep::Done(RowOutcome::Unresolved),
            Some(Some(size)) => match r.encoded {
                None => RowStep::Encode,
                Some(false) => RowStep::Done(RowOutcome::EncodeFailed),
                Some(true) => match r.decoded {
                    None => RowStep::DecodeBack,
                    Some(None) => RowStep::Done(RowOutcome::DecodeFailed),
                    Some(Some(back)) => if back != size {
                        RowStep::Done(RowOutcome::DecodeFailed)
                    } else {
                        match r.scored {
                            None => RowStep::Score,
                            Some(false) => RowStep::Done(RowOutcome::ScoreFailed),
                            Some(true) => match r.written {
                                None => RowStep::Write,
                                Some(false) => RowStep::Done(RowOutcome::ScoreFailed),
                                Some(true) => RowStep::Done(RowOutcome::Emitted),
                            },
                        }
                    },
                },
            },
        },
    }
}

/// The next step for a row, given the source image that was decoded last and the
/// replies so far.
pub fn backfill_row(cache: &Option<SourceCache>, r: &RowReplies) -> (step: RowStep)
    ensures
        step == row_step(*cache, *r),
{
    let path = match &r.resolved {
        None => {
            return RowStep::Resolve;
        },
        Some(None) => {
            return RowStep::Done(RowOutcome::Unresolved);
        },
        Some(Some(p)) => p,
    };
    let hit: Option<(u32, u32)> = match cache {
        Some(c) => if same(c.path.as_str(), path.as_str()) {
            Some((c.width, c.height))
        } else {
            None
        },
        None => None,
    };
    let size: (u32, u32) = match hit {
        Some(s) => s,
        None => match r.source {
            None => {
                return RowStep::DecodeSource;
            },
            Some(None) => {
                return RowStep::Done(RowOutcome::Unresolved);
            },
            Some(Some(s)) => s,
        },
    };
    match r.encoded {
        None => {
            return RowStep::Encode;
        },
        Some(ok) => {
            if !ok {
                return RowStep::Done(RowOutcome::EncodeFailed);
            }
        },
    }
    let back: (u32, u32) = match r.decoded {
        None => {
            return RowStep::DecodeBack;
        },
        Some(None) => {
            return RowStep::Done(RowOutcome::DecodeFailed);
        },
        Some(Some(b)) => b,
    };
    if back.0 != size.0 || back.1 != size.1 {
        return RowStep::Done(RowOutcome::DecodeFailed);
    }
    match r.scored {
        None => RowStep::Score,
        Some(ok) => if !ok {
            RowStep::Done(RowOutcome::ScoreFailed)
        } else {
            match r.written {
                None => RowStep::Write,
                Some(w) => if w {
                    RowStep::Done(RowOutcome::Emitted)
                } else {
                    RowStep::Done(RowOutcome::ScoreFailed)
                },
            }
        },
    }
}

// ── A whole table ──────────────────────────────────────────────────────

/// The counts with one more row.
pub open spec fn with_row(s: ChunkStats, o: RowOutcome) -> ChunkStats {
    let t = ChunkStats { rows_total: (s.rows_total + 1) as usize, ..s };
    match o {
        RowOutcome::Unresolved => ChunkStats {
            rows_resolve_fail: (s.rows_resolve_fail + 1) as usize,
            ..t
        },
        RowOutcome::EncodeFailed => ChunkStats {
            rows_encode_fail: (s.rows_encode_fail + 1) as usize,
            ..t
        },
        RowOutcome::DecodeFailed => ChunkStats {
            rows_decode_fail: (s.rows_decode_fail + 1) as usize,
            ..t
        },
        RowOutcome::ScoreFailed => ChunkStats {
            rows_score_fail: (s.rows_score_fail + 1) as usize,
            ..t
        },
        RowOutcome::Emitted => ChunkStats { rows_emitted: (s.rows_emitted + 1) as usize, ..t },
    }
}

/// Nothing counted yet.
pub open spec fn no_rows() -> ChunkStats {
    ChunkStats {
        rows_total: 0,
        rows_emitted: 0,
        rows_resolve_fail: 0,
        rows_encode_fail: 0,
        rows_decode_fail: 0,
        rows_score_fail: 0,
    }
}

/// The counts of the first rows, or the message of the first that makes the table
/// unusable. A row whose knobs cannot be read counts as unresolved, whatever its
/// outcome says.
pub open spec fn rows_counted(
    given: RowCodec,
    c: Columns,
    records: Seq<Result<Seq<Seq<char>>, Seq<char>>>,
    outcomes: Seq<RowOutcome>,
) -> Result<ChunkStats, Seq<char>>
    decreases records.len(),
{
    if records.len() == 0 {
        Ok(no_rows())
    } else {
        match rows_counted(given, c, records.drop_last(), outcomes) {
            Err(e) => Err(e),
            Ok(s) => match records.last() {
                Err(e) => Err(e),
                Ok(fields) => match row_fault(given, c, fields) {
                    Some(e) => Err(e),
                    None => {
                        let text = fields[c.knobs as int];
                        if row_knobs(text, json_parsed(trimmed(text))) is Err {
                            Ok(with_row(s, RowOutcome::Unresolved))
                        } else {
                            Ok(with_row(s, outcomes[records.len() - 1]))
                        }
                    },
                },
            },
        }
    }
}

/// A table has its columns in one place.
proof fn lemma_columns_unique(c: Columns, d: Columns, headers: Seq<Seq<char>>)
    requires
        columns_for(c, headers),
        columns_for(d, headers),
    ensures
        c == d,
{
}

proof fn lemma_rows_fault_stays(
    given: RowCodec,
    c: Columns,
    records: Seq<Result<Seq<Seq<char>>, Seq<char>>>,
    outcomes: Seq<RowOutcome>,
    n: int,
)
    requires
        0 <= n <= records.len(),
        rows_counted(given, c, records.take(n), outcomes) is Err,
    ensures
        rows_counted(given, c, records, outcomes) == rows_counted(
            given,
            c,
            records.take(n),
            outcomes,
        ),
    decreases records.len() - n,
{
    if n < records.len() {
        assert(records.take(n + 1).drop_last() =~= records.take(n));
        lemma_rows_fault_stays(given, c, records, outcomes, n + 1);
    } else {
        assert(records.take(n) =~= records);
    }
}

/// Counts one more row.
fn count_row(s: &mut ChunkStats, o: RowOutcome)
    requires
        old(s).balanced(),
        old(s).rows_total < usize::MAX,
    ensures
        *final(s) == with_row(*old(s), o),
        final(s).balanced(),
        final(s).rows_total == old(s).rows_total + 1,
{
    s.rows_total += 1;
    match o {
        RowOutcome::Unresolved => {
            s.rows_resolve_fail += 1;
        },
        RowOutcome::EncodeFailed => {
            s.rows_encode_fail += 1;
        },
        RowOutcome::DecodeFailed => {
            s.rows_decode_fail += 1;
        },
        RowOutcome::ScoreFailed => {
            s.rows_score_fail += 1;
        },
        RowOutcome::Emitted => {
            s.rows_emitted += 1;
        },
    }
}

/// Counts a table whose rows have been redone: `outcomes` says how each row
/// ended. The first record that cannot be read, or row without what it needs,
/// makes the table unusable.
pub fn backfill_one_tsv(given: RowCodec, table: &Tsv, outcomes: &Vec<RowOutcome>) -> (r: Result<
    ChunkStats,
    String,
>)
    requires
        outcomes@.len() == table.records@.len(),
    ensures
        columns_fault(table@.0) matches Some(e) ==> (r matches Err(f) && f@ == e),
        columns_fault(table@.0) is None ==> forall|c: Columns| #[trigger]
            columns_for(c, table@.0) ==> match r {
                Ok(s) => rows_counted(given, c, table@.1, outcomes@) == Ok::<ChunkStats, Seq<char>>(
                    s,
                ),
                Err(e) => rows_counted(given, c, table@.1, outcomes@) == Err::<
                    ChunkStats,
                    Seq<char>,
                >(e@),
            },
        r matches Ok(s) ==> s.balanced() && s.rows_total == table.records@.len(),
{
    let c: Columns = match find_columns(&table.headers) {
        Ok(c) => c,
        Err(e) => {
            return Err(e);
        },
    };
    let ghost recs = table@.1;
    let mut s = ChunkStats {
        rows_total: 0,
        rows_emitted: 0,
        rows_resolve_fail: 0,
        rows_encode_fail: 0,
        rows_decode_fail: 0,
        rows_score_fail: 0,
    };
    let mut i: usize = 0;
    assert(recs.take(0).len() == 0);
    while i < table.records.len()
        invariant
            i <= table.records.len(),
            outcomes@.len() == table.records@.len(),
            recs == table@.1,
            columns_for(c, table@.0),
            columns_fault(table@.0) is None,
            s.balanced(),
            s.rows_total == i,
            rows_counted(given, c, recs.take(i as int), outcomes@) == Ok::<ChunkStats, Seq<char>>(s),
        decreases table.records.len() - i,
    {
        let ghost t = recs.take(i + 1);
        assert(t.drop_last() =~= recs.take(i as int));
        assert(t.last() == record_view(table.records@[i as int]));
        match &table.records[i] {
            Err(e) => {
                proof {
                    lemma_rows_fault_stays(given, c, recs, outcomes@, i + 1);
                    assert forall|d: Columns| #[trigger] columns_for(d, table@.0) implies d == c by {
                        lemma_columns_unique(c, d, table@.0);
                    }
                }
                return Err(copy(e.as_str()));
            },
            Ok(fields) => match read_row(given, c, fields) {
                Err(e) => {
                    proof {
                        lemma_rows_fault_stays(given, c, recs, outcomes@, i + 1);
                        assert forall|d: Columns| #[trigger] columns_for(d, table@.0) implies d
                            == c by {
                            lemma_columns_unique(c, d, table@.0);
                        }
                    }
                    return Err(e);
                },
                Ok(RowPlan::Skip(_)) => {
                    count_row(&mut s, RowOutcome::Unresolved);
                },
                Ok(RowPlan::Work { .. }) => {
                    count_row(&mut s, outcomes[i]);
                },
            },
        }
        i += 1;
    }
    assert(recs.take(i as int) =~= recs);
    proof {
        assert forall|d: Columns| #[trigger] columns_for(d, table@.0) implies d == c by {
            lemma_columns_unique(c, d, table@.0);
        }
    }
    Ok(s)
}

// ── Tables in the object store ─────────────────────────────────────────

/// The identifier of a table in the object store: the last part of its key,
/// without the ending.
pub open spec fn chunk_id(key: Seq<char>) -> Seq<char> {
    without_suffixes(after_last(key, '/'), ".tsv"@)
}

/// The identifier of a table in the object store.
pub fn extract_chunk_id(tsv_key: &str) -> (r: String)
    ensures
        r@ == chunk_id(tsv_key@),
{
    let base = rest_after_last(tsv_key, '/');
    trim_end_matches(base.as_str(), ".tsv")
}

/// Where tables are read from: the prefix that was given, else the run's own.
pub open spec fn input_prefix(
    run_id: Seq<char>,
    codec: CodecKind,
    given: Option<Seq<char>>,
) -> Seq<char> {
    match given {
        Some(p) => without_trailing(p, '/'),
        None => "s3://zentrain/"@ + run_id + "/"@ + codec.spec_name(),
    }
}

/// Where features are written: the prefix that was given, else below the input.
pub open spec fn output_prefix(input: Seq<char>, given: Option<Seq<char>>) -> Seq<char> {
    match given {
        Some(p) => without_trailing(p, '/'),
        None => input + "/features"@,
    }
}

/// Where tables are read from and features are written.
pub fn r2_prefixes(
    run_id: &str,
    codec: CodecKind,
    r2_prefix: Option<&str>,
    output_r2_prefix: Option<&str>,
) -> (r: (String, String))
    ensures
        r.0@ == input_prefix(run_id@, codec, opt_str(r2_prefix)),
        r.1@ == output_prefix(r.0@, opt_str(output_r2_prefix)),
{
    let input: String = match r2_prefix {
        Some(p) => trim_end_char(p, '/'),
        None => {
            let mut s: String = copy("s3://zentrain/");
            s.append(run_id);
            s.append("/");
            s.append(codec.name());
            s
        },
    };
    let output: String = match output_r2_prefix {
        Some(p) => trim_end_char(p, '/'),
        None => {
            let mut s: String = copy(input.as_str());
            s.append("/features");
            s
        },
    };
    (input, output)
}

/// Is this the name of a table with rows to redo? Concatenated tables and
/// manifests are not.
pub open spec fn is_chunk_name(name: Seq<char>) -> bool {
    name.len() > 0 && ends(name, ".tsv"@) && !occurs(name, "_concat"@) && !occurs(name, "_manifest"@)
}

/// The keys of the tables that a listing names, one on each line as its last word.
pub open spec fn listed_keys(lines: Seq<Seq<char>>, prefix: Seq<char>) -> Seq<Seq<char>>
    decreases lines.len(),
{
    if lines.len() == 0 {
        Seq::<Seq<char>>::empty()
    } else {
        let before = listed_keys(lines.drop_last(), prefix);
        let name = last_word_of(lines.last());
        if is_chunk_name(name) {
            before.push(prefix + "/"@ + name)
        } else {
            before
        }
    }
}

/// The keys of the tables that a listing names.
pub fn list_r2_chunk_tsvs(listing: &str, prefix: &str) -> (r: Vec<String>)
    ensures
        views(r@) == listed_keys(split_at_each(listing@, '\n'), prefix@),
{
    let lines = split(listing, '\n');
    let ghost all = views(lines@);
    let mut keys: Vec<String> = Vec::new();
    let mut i: usize = 0;
    assert(views(keys@) =~= listed_keys(all.take(0), prefix@));
    while i < lines.len()
        invariant
            i <= lines.len(),
            all == views(lines@),
            views(keys@) == listed_keys(all.take(i as int), prefix@),
        decreases lines.len() - i,
    {
        assert(all.take(i + 1).drop_last() =~= all.take(i as int));
        assert(all.take(i + 1).last() == lines@[i as int]@);
        let name = last_word(lines[i].as_str());
        if !name.as_str().is_empty() && ends_with(name.as_str(), ".tsv") && !contains(
            name.as_str(),
            "_concat",
        ) && !contains(name.as_str(), "_manifest") {
            let mut key: String = copy(prefix);
            key.append("/");
            key.append(name.as_str());
            proof {
                crate::text::lemma_views_push(keys@, key);
            }
            keys.push(key);
        }
        i += 1;
    }
    assert(all.take(i as int) =~= all);
    keys
}

/// Does some line of a listing end in the last part of the key?
pub open spec fn listed(lines: Seq<Seq<char>>, key: Seq<char>) -> bool {
    exists|i: int|
        0 <= i < lines.len() && last_word_of(#[trigger] lines[i]).len() > 0 && last_word_of(
            lines[i],
        ) == after_last(key, '/')
}

/// Does an object exist? The listing of its key must have succeeded and name the
/// object itself, not only something that begins like it.
pub fn r2_object_exists(key: &str, listing: Option<&str>) -> (r: bool)
    ensures
        r == (match listing {
            Some(text) => listed(split_at_each(text@, '\n'), key@),
            None => false,
        }),
{
    match listing {
        None => false,
        Some(text) => {
            let base = rest_after_last(key, '/');
            let lines = split(text, '\n');
            let ghost all = views(lines@);
            let mut i: usize = 0;
            while i < lines.len()
                invariant
                    i <= lines.len(),
                    all == views(lines@),
                    all == split_at_each(text@, '\n'),
                    listing == Some(text),
                    base@ == after_last(key@, '/'),
                    forall|j: int|
                        0 <= j < i ==> !(last_word_of(#[trigger] all[j]).len() > 0 && last_word_of(
                            all[j],
                        ) == base@),
                decreases lines.len() - i,
            {
                assert(all[i as int] == lines@[i as int]@);
                let w = last_word(lines[i].as_str());
                if !w.as_str().is_empty() && same(w.as_str(), base.as_str()) {
                    assert(listed(all, key@));
                    return true;
                }
                i += 1;
            }
            false
        },
    }
}

/// How a table in the object store ended.
#[derive(Debug, Clone, Copy, PartialEq, Eq, Structural)]
pub enum ChunkOutcome {
    /// Its features were there already.
    Skipped,
    /// It could not be fetched, redone, uploaded or put in place.
    Failed,
    Processed(ChunkStats),
}

/// Everything that has come back for a table in the object store.
#[derive(Debug, Clone, Copy, PartialEq, Eq, Structural)]
pub struct ChunkReplies {
    pub present: Option<bool>,
    pub fetched: Option<bool>,
    /// `Some(None)` where the table could not be redone.
    pub redone: Option<Option<ChunkStats>>,
    pub uploaded: Option<bool>,
    pub renamed: Option<bool>,
}

/// What to do next for a table in the object store.
#[derive(Debug, Clone, Copy, PartialEq, Eq, Structural)]
pub enum ChunkStep {
    CheckPresent,
    Fetch,
    Redo,
    Upload,
    Rename,
    Done(ChunkOutcome),
}

/// The next step for a table in the object store. Features go to a temporary key
/// first and are then put in place, so that a key is never half written.
pub open spec fn chunk_step(r: ChunkReplies) -> ChunkStep {
    match r.present {
        None => ChunkStep::CheckPresent,
        Some(true) => ChunkStep::Done(ChunkOutcome::Skipped),
        Some(false) => match r.fetched {
            None => ChunkStep::Fetch,
            Some(false) => ChunkStep::Done(ChunkOutcome::Failed),
            Some(true) => match r.redone {
                None => ChunkStep::Redo,
                Some(None) => ChunkStep::Done(ChunkOutcome::Failed),
                Some(Some(s)) => match r.uploaded {
                    None => ChunkStep::Upload,
                    Some(false) => ChunkStep::Done(ChunkOutcome::Failed),
                    Some(true) => match r.renamed {
                        None => ChunkStep::Rename,
                        Some(false) => ChunkStep::Done(ChunkOutcome::Failed),
                        Some(true) => ChunkStep::Done(ChunkOutcome::Processed(s)),
                    },
                },
            },
        },
    }
}

/// The next step for a table in the object store, given the replies so far.
pub fn r2_chunk(r: &ChunkReplies) -> (step: ChunkStep)
    ensures
        step == chunk_step(*r),
{
    match r.present {
        None => ChunkStep::CheckPresent,
        Some(there) => if there {
            ChunkStep::Done(ChunkOutcome::Skipped)
        } else {
            match r.fetched {
                None => ChunkStep::Fetch,
                Some(ok) => if !ok {
                    ChunkStep::Done(ChunkOutcome::Failed)
                } else {
                    match r.redone {
                        None => ChunkStep::Redo,
                        Some(None) => ChunkStep::Done(ChunkOutcome::Failed),
                        Some(Some(s)) => match r.uploaded {
                            None => ChunkStep::Upload,
                            Some(up) => if !up {
                                ChunkStep::Done(ChunkOutcome::Failed)
                            } else {
                                match r.renamed {
                                    None => ChunkStep::Rename,
                                    Some(done) => if done {
                                        ChunkStep::Done(ChunkOutcome::Processed(s))
                                    } else {
                                        ChunkStep::Done(ChunkOutcome::Failed)
                                    },
                                }
                            },
                        },
                    }
                },
            }
        },
    }
}

/// The key of a table's features, and the temporary key they are uploaded to.
pub fn feature_keys(out_prefix: &str, tsv_key: &str) -> (r: (String, String))
    ensures
        r.0@ == out_prefix@ + "/"@ + chunk_id(tsv_key@) + ".parquet"@,
        r.1@ == r.0@ + ".uploading"@,
{
    let id = extract_chunk_id(tsv_key);
    let mut key: String = copy(out_prefix);
    key.append("/");
    key.append(id.as_str());
    key.append(".parquet");
    let mut temp: String = copy(key.as_str());
    temp.append(".uploading");
    (key, temp)
}

/// The counts with one more table.
pub open spec fn with_outcome(s: BackfillStats, o: ChunkOutcome) -> BackfillStats {
    match o {
        ChunkOutcome::Skipped => BackfillStats {
            chunks_skipped: (s.chunks_skipped + 1) as usize,
            ..s
        },
        ChunkOutcome::Failed => BackfillStats {
            chunks_failed: (s.chunks_failed + 1) as usize,
            ..s
        },
        ChunkOutcome::Processed(c) => with_chunk(
            BackfillStats { chunks_processed: (s.chunks_processed + 1) as usize, ..s },
            c,
        ),
    }
}

/// The counts of the first tables.
pub open spec fn outcomes_counted(total: nat, outcomes: Seq<ChunkOutcome>) -> BackfillStats
    decreases outcomes.len(),
{
    if outcomes.len() == 0 {
        BackfillStats { chunks_total: total as usize, ..no_stats() }
    } else {
        with_outcome(outcomes_counted(total, outcomes.drop_last()), outcomes.last())
    }
}

/// The rows of all tables that were redone.
pub open spec fn rows_in(outcomes: Seq<ChunkOutcome>) -> nat
    decreases outcomes.len(),
{
    if outcomes.len() == 0 {
        0
    } else {
        rows_in(outcomes.drop_last()) + (match outcomes.last() {
            ChunkOutcome::Processed(c) => c.rows_total as nat,
            _ => 0nat,
        })
    }
}

/// In every table, every row ended in one way.
pub open spec fn all_balanced(outcomes: Seq<ChunkOutcome>) -> bool {
    forall|i: int|
        0 <= i < outcomes.len() ==> (#[trigger] outcomes[i] matches ChunkOutcome::Processed(c)
            ==> c.balanced())
}

proof fn lemma_rows_grow(outcomes: Seq<ChunkOutcome>, n: int)
    requires
        0 <= n <= outcomes.len(),
    ensures
        rows_in(outcomes.take(n)) <= rows_in(outcomes),
    decreases outcomes.len() - n,
{
    if n < outcomes.len() {
        assert(outcomes.take(n + 1).drop_last() =~= outcomes.take(n));
        lemma_rows_grow(outcomes, n + 1);
    } else {
        assert(outcomes.take(n) =~= outcomes);
    }
}

/// The counts of a backfill from the object store, given how each table ended; an
/// error when there was no table at all.
pub fn run_r2_backfill(in_prefix: &str, outcomes: &Vec<ChunkOutcome>) -> (r: Result<
    BackfillStats,
    String,
>)
    requires
        all_balanced(outcomes@),
        rows_in(outcomes@) <= usize::MAX,
    ensures
        match r {
            Ok(s) => outcomes@.len() > 0 && s == outcomes_counted(outcomes@.len(), outcomes@),
            Err(e) => outcomes@.len() == 0 && e@ == "no chunk TSVs found under "@ + in_prefix@
                + "/"@,
        },
        r matches Ok(s) ==> s.chunks_total == s.chunks_skipped + s.chunks_processed
            + s.chunks_failed && s.rows_total == s.rows_emitted + s.rows_resolve_fail
            + s.rows_encode_fail + s.rows_decode_fail + s.rows_score_fail,
{
    if outcomes.len() == 0 {
        let mut e: String = copy("no chunk TSVs found under ");
        e.append(in_prefix);
        e.append("/");
        return Err(e);
    }
    let mut s = BackfillStats::default();
    s.chunks_total = outcomes.len();
    let mut i: usize = 0;
    assert(outcomes@.take(0).len() == 0);
    while i < outcomes.len()
        invariant
            i <= outcomes.len(),
            all_balanced(outcomes@),
            rows_in(outcomes@) <= usize::MAX,
            s == outcomes_counted(outcomes@.len(), outcomes@.take(i as int)),
            s.chunks_total == outcomes@.len(),
            i == s.chunks_skipped + s.chunks_processed + s.chunks_failed,
            s.rows_total == rows_in(outcomes@.take(i as int)),
            s.rows_total == s.rows_emitted + s.rows_resolve_fail + s.rows_encode_fail
                + s.rows_decode_fail + s.rows_score_fail,
        decreases outcomes.len() - i,
    {
        assert(outcomes@.take(i + 1).drop_last() =~= outcomes@.take(i as int));
        assert(outcomes@.take(i + 1).last() == outcomes@[i as int]);
        proof {
            lemma_rows_grow(outcomes@, i + 1);
        }
        match outcomes[i] {
            ChunkOutcome::Skipped => {
                s.chunks_skipped += 1;
            },
            ChunkOutcome::Failed => {
                s.chunks_failed += 1;
            },
            ChunkOutcome::Processed(c) => {
                s.chunks_processed += 1;
                accumulate(&mut s, &c);
            },
        }
        i += 1;
    }
    assert(outcomes@.take(i as int) =~= outcomes@);
    Ok(s)
}

// ── The whole command ──────────────────────────────────────────────────

/// Everything that has come back for a backfill.
#[derive(Debug)]
pub struct BackfillReplies {
    pub corpus_is_dir: bool,
    /// Whether the features of a local table are there already.
    pub output_exists: Option<bool>,
    /// What a local table came to.
    pub redone: Option<Result<ChunkStats, String>>,
}

/// What to do next for a backfill.
#[derive(Debug)]
pub enum BackfillStep {
    Fail(String),
    CheckOutput,
    /// Redo the local table, with its rows' codecs found so.
    Redo(RowCodec),
    /// Redo the tables of this codec in the object store.
    Remote(CodecKind),
    Done(BackfillStats),
}

/// The counts of a local table whose features are there already.
pub open spec fn skipped_stats() -> BackfillStats {
    BackfillStats { chunks_total: 1, chunks_skipped: 1, ..no_stats() }
}

/// The counts of a local table that was redone.
pub open spec fn local_stats(c: ChunkStats) -> BackfillStats {
    with_chunk(BackfillStats { chunks_total: 1, chunks_processed: 1, ..no_stats() }, c)
}

/// Is this the next step for a backfill?
pub open spec fn backfill_step_for(
    step: BackfillStep,
    cfg: BackfillConfig,
    r: BackfillReplies,
) -> bool {
    if !r.corpus_is_dir {
        step matches BackfillStep::Fail(e) && e@ == "--corpus-root "@ + cfg.corpus_root@
            + " is not a directory"@
    } else {
        match cfg.mode {
            BackfillMode::R2 { .. } => match cfg.codec {
                None => step matches BackfillStep::Fail(e) && e@
                    == "R2 mode requires --codec to select chunks"@,
                Some(c) => step matches BackfillStep::Remote(k) && k == c,
            },
            BackfillMode::Local { .. } => match r.output_exists {
                None => step is CheckOutput,
                Some(true) => step matches BackfillStep::Done(s) && s == skipped_stats(),
                Some(false) => match r.redone {
                    None => step matches BackfillStep::Redo(g) && g == (RowCodec::Named {
                        fallback: cfg.codec,
                    }),
                    Some(Err(f)) => step matches BackfillStep::Fail(e) && e@ == f@,
                    Some(Ok(c)) => step matches BackfillStep::Done(s) && s == local_stats(c),
                },
            },
        }
    }
}

/// The next step for a backfill, given the replies so far. A local table whose
/// features are there already is left alone.
pub fn run_backfill(cfg: &BackfillConfig, r: &BackfillReplies) -> (step: BackfillStep)
    ensures
        backfill_step_for(step, *cfg, *r),
{
    if !r.corpus_is_dir {
        let mut e: String = copy("--corpus-root ");
        e.append(cfg.corpus_root.as_str());
        e.append(" is not a directory");
        return BackfillStep::Fail(e);
    }
    match &cfg.mode {
        BackfillMode::R2 { .. } => match cfg.codec {
            None => BackfillStep::Fail(copy("R2 mode requires --codec to select chunks")),
            Some(c) => BackfillStep::Remote(c),
        },
        BackfillMode::Local { .. } => match r.output_exists {
            None => BackfillStep::CheckOutput,
            Some(there) => if there {
                let mut s = BackfillStats::default();
                s.chunks_total = 1;
                s.chunks_skipped = 1;
                BackfillStep::Done(s)
            } else {
                match &r.redone {
                    None => BackfillStep::Redo(RowCodec::Named { fallback: cfg.codec }),
                    Some(Err(e)) => BackfillStep::Fail(copy(e.as_str())),
                    Some(Ok(c)) => {
                        let mut s = BackfillStats::default();
                        s.chunks_total = 1;
                        s.chunks_processed = 1;
                        accumulate(&mut s, c);
                        BackfillStep::Done(s)
                    },
                }
            },
        },
    }
}

/// A step of a row that is not the last asks for a reply that is still missing.
pub proof fn law_row_step_asks_for_missing(cache: Option<SourceCache>, r: RowReplies)
    ensures
        match row_step(cache, r) {
            RowStep::Resolve => r.resolved is None,
            RowStep::DecodeSource => r.source is None,
            RowStep::Encode => r.encoded is None,
            RowStep::DecodeBack => r.decoded is None,
            RowStep::Score => r.scored is None,
            RowStep::Write => r.written is None,
            RowStep::Done(_) => r.resolved is Some,
        },
{
}

/// A row counts as emitted only when its image was found, and it was encoded,
/// decoded back, scored and written.
pub proof fn law_emitted_means_complete(cache: Option<SourceCache>, r: RowReplies)
    requires
        row_step(cache, r) == RowStep::Done(RowOutcome::Emitted),
    ensures
        r.resolved matches Some(p) && p is Some,
        r.encoded == Some(true),
        r.decoded matches Some(d) && d is Some,
        r.scored == Some(true),
        r.written == Some(true),
{
}

/// A step of a table that is not the last asks for a reply that is still missing.
pub proof fn law_chunk_step_asks_for_missing(r: ChunkReplies)
    ensures
        match chunk_step(r) {
            ChunkStep::CheckPresent => r.present is None,
            ChunkStep::Fetch => r.fetched is None,
            ChunkStep::Redo => r.redone is None,
            ChunkStep::Upload => r.uploaded is None,
            ChunkStep::Rename => r.renamed is None,
            ChunkStep::Done(_) => r.present is Some,
        },
{
}

/// A second run does nothing: once the features of a local table are there, the
/// table is not redone and only counted as skipped.
pub proof fn law_local_backfill_idempotent(step: BackfillStep, cfg: BackfillConfig, r: BackfillReplies)
    requires
        backfill_step_for(step, cfg, r),
        cfg.mode is Local,
        r.corpus_is_dir,
        r.output_exists == Some(true),
    ensures
        step matches BackfillStep::Done(s) && s.chunks_skipped == 1 && s.chunks_processed == 0
            && s.rows_total == 0,
{
}

/// A table in the object store whose features are there already is skipped without
/// being fetched.
pub proof fn law_present_chunk_skipped(r: ChunkReplies)
    requires
        r.present == Some(true),
    ensures
        chunk_step(r) == ChunkStep::Done(ChunkOutcome::Skipped),
{
}

/// A table counts as processed only when it was fetched, redone, uploaded and put
/// in place.
pub proof fn law_processed_means_complete(r: ChunkReplies, s: ChunkStats)
    requires
        chunk_step(r) == ChunkStep::Done(ChunkOutcome::Processed(s)),
    ensures
        r.fetched == Some(true),
        r.redone == Some(Some(s)),
        r.uploaded == Some(true),
        r.renamed == Some(true),
{
}

/// In a table that names its codecs, a codec that a row names is never overridden.
pub proof fn law_named_codec_kept(
    fallback: Option<CodecKind>,
    c: Columns,
    fields: Seq<Seq<char>>,
    i: usize,
    k: CodecKind,
)
    requires
        c.codec == Some(i),
        i < fields.len(),
        row_codec(fields[i as int]) == Some(k),
    ensures
        codec_for(RowCodec::Named { fallback }, c, fields) == Some(k),
{
}

/// The codecs that such sweeps used are read from their own names, whatever white space
/// stands around them.
pub proof fn law_codec_name_reads_back(k: CodecKind, before: Seq<char>, after: Seq<char>)
    requires
        k is Zenwebp || k is Zenavif || k is Zenjxl,
        forall|i: int| 0 <= i < before.len() ==> is_white(#[trigger] before[i]),
        forall|i: int| 0 <= i < after.len() ==> is_white(#[trigger] after[i]),
    ensures
        row_codec(before + k.spec_name() + after) == Some(k),
{
    reveal_strlit("zenwebp");
    reveal_strlit("zenavif");
    reveal_strlit("zenjxl");
    assert("zenwebp"@[0] == 'z' && "zenwebp"@.last() == 'p' && "zenwebp"@[3] == 'w');
    assert("zenavif"@[0] == 'z' && "zenavif"@.last() == 'f' && "zenavif"@[3] == 'a');
    assert("zenjxl"@[0] == 'z' && "zenjxl"@.last() == 'l' && "zenjxl"@[3] == 'j');
    law_trimmed(before, k.spec_name(), after);
}

/// Whenever a codec is read from a text, the text is its name, but for white space
/// around it.
pub proof fn law_codec_read_is_named(s: Seq<char>)
    ensures
        row_codec(s) matches Some(k) ==> k.spec_name() == trimmed(s) && (k is Zenwebp || k
            is Zenavif || k is Zenjxl),
{
}

/// How a row ended tells what failed, and a row fails only so. A source that was decoded
/// before need not be decoded again, and a decoded row must have the size of its source.
pub proof fn law_row_outcome_tells_what_failed(cache: Option<SourceCache>, r: RowReplies)
    ensures
        row_step(cache, r) matches RowStep::Done(o) ==> match o {
            RowOutcome::Unresolved => {
                ||| r.resolved == Some(None::<String>)
                ||| r.source == Some(None::<(u32, u32)>)
            },
            RowOutcome::EncodeFailed => r.encoded == Some(false),
            RowOutcome::DecodeFailed => r.encoded == Some(true) && match r.decoded {
                Some(Some(back)) => {
                    &&& r.resolved matches Some(Some(path)) && match cache {
                        Some(c) => if c.path@ == path@ {
                            back != (c.width, c.height)
                        } else {
                            r.source != Some(Some(back))
                        },
                        None => r.source != Some(Some(back)),
                    }
                },
                _ => r.decoded == Some(None::<(u32, u32)>),
            },
            RowOutcome::ScoreFailed => r.scored == Some(false) || r.written == Some(false),
            RowOutcome::Emitted => {
                &&& r.resolved matches Some(Some(path)) && match cache {
                    Some(c) => if c.path@ == path@ {
                        r.decoded == Some(Some((c.width, c.height)))
                    } else {
                        r.decoded == r.source
                    },
                    None => r.decoded == r.source,
                }
            },
        },
{
}

/// How many rows ended so.
pub open spec fn rows_ended(s: ChunkStats, o: RowOutcome) -> usize {
    match o {
        RowOutcome::Unresolved => s.rows_resolve_fail,
        RowOutcome::EncodeFailed => s.rows_encode_fail,
        RowOutcome::DecodeFailed => s.rows_decode_fail,
        RowOutcome::ScoreFailed => s.rows_score_fail,
        RowOutcome::Emitted => s.rows_emitted,
    }
}

/// A row adds one to the rows and one to those that ended like it, and to nothing else.
pub proof fn law_row_counted_under_its_outcome(s: ChunkStats, o: RowOutcome, p: RowOutcome)
    requires
        s.rows_total < usize::MAX,
        rows_ended(s, o) < usize::MAX,
    ensures
        with_row(s, o).rows_total == s.rows_total + 1,
        rows_ended(with_row(s, o), o) == rows_ended(s, o) + 1,
        p != o ==> rows_ended(with_row(s, o), p) == rows_ended(s, p),
{
}

/// A chunk that was read to its end counts every record once.
pub proof fn law_every_record_counted(
    given: RowCodec,
    c: Columns,
    records: Seq<Result<Seq<Seq<char>>, Seq<char>>>,
    outcomes: Seq<RowOutcome>,
)
    requires
        records.len() <= usize::MAX,
    ensures
        rows_counted(given, c, records, outcomes) matches Ok(s) ==> s.rows_total == records.len()
            && s.balanced(),
    decreases records.len(),
{
    if records.len() > 0 {
        law_every_record_counted(given, c, records.drop_last(), outcomes);
    }
}

/// How many chunks ended so.
pub open spec fn chunks_ended(s: BackfillStats, o: ChunkOutcome) -> usize {
    match o {
        ChunkOutcome::Skipped => s.chunks_skipped,
        ChunkOutcome::Failed => s.chunks_failed,
        ChunkOutcome::Processed(_) => s.chunks_processed,
    }
}

/// Did two chunks end alike?
pub open spec fn ended_alike(a: ChunkOutcome, b: ChunkOutcome) -> bool {
    ||| a is Skipped && b is Skipped
    ||| a is Failed && b is Failed
    ||| a is Processed && b is Processed
}

/// Every chunk is counted once, and the rows are those of the chunks that were redone.
pub proof fn law_every_chunk_counted(total: nat, outcomes: Seq<ChunkOutcome>)
    requires
        total <= usize::MAX,
        outcomes.len() <= usize::MAX,
        rows_in(outcomes) <= usize::MAX,
        all_balanced(outcomes),
    ensures
        ({
            let s = outcomes_counted(total, outcomes);
            &&& s.chunks_total == total
            &&& s.chunks_skipped + s.chunks_failed + s.chunks_processed == outcomes.len()
            &&& s.rows_total == rows_in(outcomes)
            &&& s.rows_total == s.rows_emitted + s.rows_resolve_fail + s.rows_encode_fail
                + s.rows_decode_fail + s.rows_score_fail
        }),
    decreases outcomes.len(),
{
    if outcomes.len() > 0 {
        let front = outcomes.drop_last();
        assert forall|i: int| 0 <= i < front.len() implies (#[trigger] front[i] matches
            ChunkOutcome::Processed(c) ==> c.balanced()) by {
            assert(front[i] == outcomes[i]);
        }
        assert(outcomes[outcomes.len() - 1] == outcomes.last());
        law_every_chunk_counted(total, front);
    }
}

/// A chunk adds one to the chunks that ended like it, and to no others; only a chunk that
/// was redone adds rows.
pub proof fn law_chunk_counted_under_its_outcome(
    s: BackfillStats,
    o: ChunkOutcome,
    p: ChunkOutcome,
)
    requires
        chunks_ended(s, o) < usize::MAX,
        o matches ChunkOutcome::Processed(c) ==> room_for(s, c),
    ensures
        chunks_ended(with_outcome(s, o), o) == chunks_ended(s, o) + 1,
        !ended_alike(o, p) ==> chunks_ended(with_outcome(s, o), p) == chunks_ended(s, p),
        o matches ChunkOutcome::Processed(c) ==> {
            &&& with_outcome(s, o).rows_total == s.rows_total + c.rows_total
            &&& with_outcome(s, o).rows_emitted == s.rows_emitted + c.rows_emitted
            &&& with_outcome(s, o).rows_resolve_fail == s.rows_resolve_fail + c.rows_resolve_fail
            &&& with_outcome(s, o).rows_encode_fail == s.rows_encode_fail + c.rows_encode_fail
            &&& with_outcome(s, o).rows_decode_fail == s.rows_decode_fail + c.rows_decode_fail
            &&& with_outcome(s, o).rows_score_fail == s.rows_score_fail + c.rows_score_fail
        },
        !(o is Processed) ==> with_outcome(s, o).rows_total == s.rows_total,
        with_outcome(s, o).chunks_total == s.chunks_total,
{
}

/// Each part of a row is the field under the header that names the part.
pub proof fn law_row_reads_named_columns(
    headers: Seq<Seq<char>>,
    c: Columns,
    given: RowCodec,
    fields: Seq<Seq<char>>,
    p: RowPlan,
    i: int,
)
    requires
        columns_for(c, headers),
        row_plan_for(p, given, c, fields),
        headers.len() <= fields.len(),
    ensures
        p matches RowPlan::Work { image_path, codec, q, knobs, knob_json } ==> {
            &&& first_called(headers, seq!["image_path"@], i) ==> image_path@ == fields[i]
            &&& first_called(headers, seq!["knob_tuple_json"@], i) ==> knob_json@ == fields[i]
            &&& first_called(headers, seq!["q"@], i) ==> forall|n: u32|
                trimmed(fields[i]) == #[trigger] decimal(n as nat) ==> q == n
            &&& first_called(headers, seq!["codec"@], i) && given is Named ==> forall|k: CodecKind|
                row_codec(fields[i]) == Some(k) ==> codec == k
            &&& given matches RowCodec::Fixed(k) ==> codec == k
        },
{
    lemma_one_first(headers, seq!["image_path"@], c.image as int, i);
    lemma_one_first(headers, seq!["knob_tuple_json"@], c.knobs as int, i);
    lemma_one_first(headers, seq!["q"@], c.q as int, i);
    match c.codec {
        Some(k) => {
            lemma_one_first(headers, seq!["codec"@], k as int, i);
        },
        None => {
            if first_called(headers, seq!["codec"@], i) {
                assert(is_called(headers[i], seq!["codec"@]));
            }
        },
    }
    assert forall|n: u32| trimmed(fields[i]) == #[trigger] decimal(n as nat) implies unsigned(
        trimmed(fields[i]),
        u32::MAX as nat,
    ) == Ok::<nat, crate::text::IntFault>(n as nat) by {
        law_decimal_reads_back(n as nat, u32::MAX as nat);
    }
}

proof fn lemma_one_first(headers: Seq<Seq<char>>, names: Seq<Seq<char>>, a: int, b: int)
    requires
        first_called(headers, names, a),
    ensures
        first_called(headers, names, b) ==> a == b,
{
    assert(is_called(headers[a], names));
    if first_called(headers, names, b) {
        if a < b {
            assert(!is_called(headers[a], names));
        } else if b < a {
            assert(!is_called(headers[b], names));
        }
    }
}

/// A source is looked for as it is given, then by its name below the corpus, and last by
/// its name anywhere below the corpus. A name with doubled underscores is also looked for
/// with slashes in their place.
pub proof fn law_places_in_order(name: Seq<char>)
    ensures
        places(None) == seq![CandidateView::AsGiven],
        places(Some(name))[0] == CandidateView::AsGiven,
        places(Some(name))[1] == CandidateView::UnderRoot(name),
        places(Some(name)).last() == CandidateView::Walk(name),
        places(Some(name)).len() == (if occurs(name, "__"@) {
            4int
        } else {
            3int
        }),
        occurs(name, "__"@) ==> places(Some(name))[2] == CandidateView::UnderRoot(
            replaced(name, "__"@, "/"@),
        ),
{
}

/// The directories to look into are those among the entries, each once for each entry.
pub proof fn law_only_directories_are_entered(entries: Seq<Entry>, path: Seq<char>)
    ensures
        dirs_among(entries).contains(path) <==> exists|i: int|
            0 <= i < entries.len() && (#[trigger] entries[i]).is_dir && entries[i].path@ == path,
    decreases entries.len(),
{
    let dirs = dirs_among(entries);
    if entries.len() > 0 {
        let front = entries.drop_last();
        let before = dirs_among(front);
        law_only_directories_are_entered(front, path);
        if dirs.contains(path) {
            let k = choose|k: int| 0 <= k < dirs.len() && dirs[k] == path;
            if k < before.len() {
                assert(before[k] == path);
                assert(before.contains(path));
                let i = choose|i: int|
                    0 <= i < front.len() && (#[trigger] front[i]).is_dir && front[i].path@ == path;
                assert(entries[i] == front[i]);
            } else {
                assert(entries[entries.len() - 1].is_dir);
            }
        }
        if exists|i: int|
            0 <= i < entries.len() && (#[trigger] entries[i]).is_dir && entries[i].path@ == path {
            let i = choose|i: int|
                0 <= i < entries.len() && (#[trigger] entries[i]).is_dir && entries[i].path@
                    == path;
            if i < front.len() {
                assert(front[i] == entries[i]);
                let k = choose|k: int| 0 <= k < before.len() && before[k] == path;
                assert(dirs[k] == path);
            } else {
                assert(dirs[dirs.len() - 1] == path);
            }
        }
    }
}

/// A chunk is known by the last part of its key without the extension.
pub proof fn law_chunk_id_is_file_stem(prefix: Seq<char>, name: Seq<char>)
    requires
        !name.contains('/'),
        !ends(name, ".tsv"@),
    ensures
        chunk_id(prefix + "/"@ + name + ".tsv"@) == name,
{
    reveal_strlit("/");
    reveal_strlit(".tsv");
    let file = name + ".tsv"@;
    let key = prefix + "/"@ + name + ".tsv"@;
    assert(!file.contains('/')) by {
        if file.contains('/') {
            let j = choose|j: int| 0 <= j < file.len() && file[j] == '/';
            if j < name.len() {
                assert(name[j] == '/');
            } else {
                assert(".tsv"@[j - name.len()] == '/');
            }
        }
    }
    assert(key =~= prefix + "/"@ + file);
    lemma_after_last_part(prefix + "/"@, file);
    assert(file.subrange(file.len() - 4, file.len() as int) =~= ".tsv"@);
    assert(ends(file, ".tsv"@));
    assert(file.take(file.len() - 4) =~= name);
    reveal_with_fuel(without_suffixes, 2);
}

proof fn lemma_after_last_part(lead: Seq<char>, file: Seq<char>)
    requires
        lead.len() > 0,
        lead.last() == '/',
        !file.contains('/'),
    ensures
        after_last(lead + file, '/') == file,
    decreases file.len(),
{
    if file.len() == 0 {
        assert(lead + file =~= lead);
    } else {
        assert((lead + file).drop_last() =~= lead + file.drop_last());
        assert(file[file.len() - 1] == (lead + file).last());
        assert(!file.drop_last().contains('/')) by {
            if file.drop_last().contains('/') {
                let j = choose|j: int| 0 <= j < file.drop_last().len() && file.drop_last()[j] == '/';
                assert(file[j] == '/');
            }
        }
        lemma_after_last_part(lead, file.drop_last());
        assert(file.drop_last().push(file.last()) =~= file);
    }
}

/// The chunks are the tables among the listed names, but for those that put chunks
/// together or describe them, each under the prefix.
pub proof fn law_listed_chunks(lines: Seq<Seq<char>>, prefix: Seq<char>, i: int)
    requires
        0 <= i < lines.len(),
        ends(last_word_of(lines[i]), ".tsv"@),
        !occurs(last_word_of(lines[i]), "_concat"@),
        !occurs(last_word_of(lines[i]), "_manifest"@),
    ensures
        listed_keys(lines, prefix).contains(prefix + "/"@ + last_word_of(lines[i])),
    decreases lines.len(),
{
    reveal_strlit(".tsv");
    let front = lines.drop_last();
    let before = listed_keys(front, prefix);
    let all = listed_keys(lines, prefix);
    let key = prefix + "/"@ + last_word_of(lines[i]);
    if i < front.len() {
        assert(front[i] == lines[i]);
        law_listed_chunks(front, prefix, i);
        let k = choose|k: int| 0 <= k < before.len() && before[k] == key;
        assert(all[k] == key);
    } else {
        assert(lines[i] == lines.last());
        assert(all[all.len() - 1] == key);
    }
}

/// Nothing else is taken for a chunk.
pub proof fn law_only_tables_are_chunks(lines: Seq<Seq<char>>, prefix: Seq<char>, k: int)
    requires
        0 <= k < listed_keys(lines, prefix).len(),
    ensures
        exists|i: int|
            0 <= i < lines.len() && listed_keys(lines, prefix)[k] == prefix + "/"@
                + #[trigger] last_word_of(lines[i]) && ends(last_word_of(lines[i]), ".tsv"@)
                && !occurs(last_word_of(lines[i]), "_concat"@) && !occurs(
                last_word_of(lines[i]),
                "_manifest"@,
            ),
    decreases lines.len(),
{
    if lines.len() > 0 {
        let front = lines.drop_last();
        let before = listed_keys(front, prefix);
        if k < before.len() {
            law_only_tables_are_chunks(front, prefix, k);
            let i = choose|i: int|
                0 <= i < front.len() && before[k] == prefix + "/"@ + #[trigger] last_word_of(
                    front[i],
                ) && ends(last_word_of(front[i]), ".tsv"@) && !occurs(
                    last_word_of(front[i]),
                    "_concat"@,
                ) && !occurs(last_word_of(front[i]), "_manifest"@);
            assert(front[i] == lines[i]);
            assert(listed_keys(lines, prefix)[k] == before[k]);
        } else {
            let i = lines.len() - 1;
            assert(lines[i] == lines.last());
            assert(listed_keys(lines, prefix)[k] == prefix + "/"@ + last_word_of(lines[i]));
        }
    }
}

/// Slashes at the end of a prefix make no difference.
pub proof fn law_prefix_slashes_make_no_difference(
    run_id: Seq<char>,
    codec: CodecKind,
    p: Seq<char>,
    input: Seq<char>,
)
    ensures
        input_prefix(run_id, codec, Some(p.push('/'))) == input_prefix(run_id, codec, Some(p)),
        output_prefix(input, Some(p.push('/'))) == output_prefix(input, Some(p)),
        starts(output_prefix(input, None), input),
{
    assert(p.push('/').drop_last() =~= p);
    let o = output_prefix(input, None);
    assert(o.take(input.len() as int) =~= input);
}

/// A table is refused exactly when it lacks one of the three columns that every row
/// needs.
pub proof fn law_table_refused_without_columns(headers: Seq<Seq<char>>)
    ensures
        columns_fault(headers) is None <==> {
            &&& !none_called(headers, seq!["image_path"@])
            &&& !none_called(headers, seq!["q"@])
            &&& !none_called(headers, seq!["knob_tuple_json"@])
        },
{
}

/// A row is refused exactly when a field is missing, when its codec cannot be known or
/// when its quality is no number.
pub proof fn law_row_refused(given: RowCodec, c: Columns, fields: Seq<Seq<char>>)
    ensures
        row_fault(given, c, fields) is None <==> {
            &&& c.image < fields.len() && c.q < fields.len() && c.knobs < fields.len()
            &&& unsigned(trimmed(fields[c.q as int]), u32::MAX as nat) is Ok
            &&& !(c.codec is None && given == (RowCodec::Named { fallback: None }))
        },
{
}

/// The knobs of a row are the members of its object; a blank text or an empty object
/// gives none, and any other value is refused.
pub proof fn law_row_knobs_are_members(s: Seq<char>, read: Result<JsonView, Seq<char>>)
    ensures
        trimmed(s).len() == 0 || trimmed(s) == "{}"@ ==> (row_knobs(s, read) matches Ok(m)
            && m.len() == 0),
        trimmed(s).len() > 0 && trimmed(s) != "{}"@ ==> match read {
            Ok(JsonView::Object(m)) => row_knobs(s, read) == Ok::<TupleView, Seq<char>>(m),
            _ => row_knobs(s, read) is Err,
        },
{
}

/// Without a prefix the tables are those of the run and of the codec.
pub proof fn law_own_prefix_names_run_and_codec(run_id: Seq<char>, codec: CodecKind)
    ensures
        ends(input_prefix(run_id, codec, None), "/"@ + run_id + "/"@ + codec.spec_name()),
{
    reveal_strlit("/");
    reveal_strlit("s3://zentrain/");
    let p = input_prefix(run_id, codec, None);
    let tail = "/"@ + run_id + "/"@ + codec.spec_name();
    assert(p.subrange(p.len() - tail.len(), p.len() as int) =~= tail);
}

/// Each further row is counted as it ended; one whose knobs cannot be read counts among
/// those that were not found. A record that cannot be read ends the count.
pub proof fn law_next_row_counted(
    given: RowCodec,
    c: Columns,
    records: Seq<Result<Seq<Seq<char>>, Seq<char>>>,
    fields: Seq<Seq<char>>,
    outcomes: Seq<RowOutcome>,
    s: ChunkStats,
    e: Seq<char>,
)
    requires
        rows_counted(given, c, records, outcomes) == Ok::<ChunkStats, Seq<char>>(s),
        row_fault(given, c, fields) is None,
    ensures
        rows_counted(given, c, records.push(Ok(fields)), outcomes) == Ok::<ChunkStats, Seq<char>>(
            with_row(
                s,
                if row_knobs(
                    fields[c.knobs as int],
                    json_parsed(trimmed(fields[c.knobs as int])),
                ) is Err {
                    RowOutcome::Unresolved
                } else {
                    outcomes[records.len() as int]
                },
            ),
        ),
        rows_counted(given, c, records.push(Err(e)), outcomes) == Err::<ChunkStats, Seq<char>>(e),
{
    assert(records.push(Ok(fields)).drop_last() =~= records);
    assert(records.push(Err(e)).drop_last() =~= records);
}

/// Each further chunk is counted as it ended.
pub proof fn law_next_chunk_counted(total: nat, outcomes: Seq<ChunkOutcome>, o: ChunkOutcome)
    ensures
        outcomes_counted(total, outcomes.push(o)) == with_outcome(
            outcomes_counted(total, outcomes),
            o,
        ),
{
    assert(outcomes.push(o).drop_last() =~= outcomes);
}

/// Chunks are listed in the order of their lines.
pub proof fn law_chunks_in_order(lines: Seq<Seq<char>>, line: Seq<char>, prefix: Seq<char>)
    ensures
        listed_keys(lines.push(line), prefix) == listed_keys(lines, prefix) || listed_keys(
            lines.push(line),
            prefix,
        ) == listed_keys(lines, prefix).push(prefix + "/"@ + last_word_of(line)),
{
    assert(lines.push(line).drop_last() =~= lines);
}

} // verus!
