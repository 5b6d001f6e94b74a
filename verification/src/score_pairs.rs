//! Scoring the pairs of a table, and judging whether a column of scores can be
//! true.
//!
//! Scores are real numbers. What is asked of them here is plain: whether a score
//! is a number, whether it is the score of identical images, and whether their
//! mean and spread lie where they should.

use crate::metrics::dispatch::{scorer_of, Build};
use crate::metrics::family::{
    law_scorer_computes_its_metric, lemma_words_differ, of_family, scored_family, Family,
};
use crate::metrics::kind::{str_views, MetricKind};
use crate::text::{
    copy, debug_text, decimal, decimal_int, law_signed_reads_back, lemma_views_push, parse_signed,
    quoted, show, show_usize, signed, views,
};
use crate::tsv::{
    find_col, first_called, is_called, missing_column, name_list, none_called, one_name,
    record_view, two_names, Tsv,
};
use vstd::prelude::*;

verus! {

// ── Rows ───────────────────────────────────────────────────────────────

/// The columns that scoring reads.
#[derive(Debug, Clone, Copy, PartialEq, Eq, Structural)]
pub struct PairColumns {
    pub reference: usize,
    pub distorted: usize,
    pub image_path: Option<usize>,
    pub codec: Option<usize>,
    pub q: Option<usize>,
    pub knobs: Option<usize>,
}

/// Is this the place of an optional column?
pub open spec fn optional_column(
    headers: Seq<Seq<char>>,
    name: Seq<char>,
    at: Option<usize>,
) -> bool {
    match at {
        Some(i) => first_called(headers, seq![name], i as int),
        None => none_called(headers, seq![name]),
    }
}

/// The names of the column with the reference image.
pub open spec fn reference_names() -> Seq<Seq<char>> {
    seq!["ref_path"@, "reference"@]
}

/// The names of the column with the distorted image.
pub open spec fn distorted_names() -> Seq<Seq<char>> {
    seq!["dist_path"@, "distorted"@]
}

/// Are these the columns of the table?
pub open spec fn pair_columns_for(c: PairColumns, headers: Seq<Seq<char>>) -> bool {
    &&& first_called(headers, reference_names(), c.reference as int)
    &&& first_called(headers, distorted_names(), c.distorted as int)
    &&& optional_column(headers, "image_path"@, c.image_path)
    &&& optional_column(headers, "codec"@, c.codec)
    &&& optional_column(headers, "q"@, c.q)
    &&& optional_column(headers, "knob_tuple_json"@, c.knobs)
}

/// The message of the first needed column that a table lacks.
pub open spec fn pair_columns_fault(headers: Seq<Seq<char>>) -> Option<Seq<char>> {
    if none_called(headers, reference_names()) {
        Some(missing_column(reference_names()))
    } else if none_called(headers, distorted_names()) {
        Some(missing_column(distorted_names()))
    } else {
        None
    }
}

spec fn found(headers: Seq<Seq<char>>, names: Seq<Seq<char>>, i: int) -> bool {
    first_called(headers, names, i) && !none_called(headers, names)
}

/// The place of an optional column.
fn find_optional(headers: &Vec<String>, name: &str) -> (r: Option<usize>)
    ensures
        optional_column(views(headers@), name@, r),
{
    match find_col(headers, &one_name(name)) {
        Ok(i) => Some(i),
        Err(_) => None,
    }
}

/// Finds the columns of a table.
pub fn find_pair_columns(headers: &Vec<String>) -> (r: Result<PairColumns, String>)
    ensures
        match r {
            Ok(c) => pair_columns_fault(views(headers@)) is None && pair_columns_for(
                c,
                views(headers@),
            ),
            Err(e) => pair_columns_fault(views(headers@)) == Some(e@),
        },
{
    let reference: usize = match find_col(headers, &two_names("ref_path", "reference")) {
        Ok(i) => i,
        Err(e) => {
            return Err(e);
        },
    };
    let distorted: usize = match find_col(headers, &two_names("dist_path", "distorted")) {
        Ok(i) => i,
        Err(e) => {
            return Err(e);
        },
    };
    assert(found(views(headers@), reference_names(), reference as int));
    assert(found(views(headers@), distorted_names(), distorted as int));
    Ok(
        PairColumns {
            reference,
            distorted,
            image_path: find_optional(headers, "image_path"),
            codec: find_optional(headers, "codec"),
            q: find_optional(headers, "q"),
            knobs: find_optional(headers, "knob_tuple_json"),
        },
    )
}

/// A pair to score, with the identity under which its score is written.
#[derive(Debug)]
pub struct PairRow {
    pub ref_path: String,
    pub dist_path: String,
    pub image_path: String,
    pub codec: String,
    pub q: i64,
    pub knobs: String,
}

/// The field in an optional column.
pub open spec fn field(fields: Seq<Seq<char>>, at: Option<usize>) -> Option<Seq<char>> {
    match at {
        Some(i) => if i < fields.len() {
            Some(fields[i as int])
        } else {
            None
        },
        None => None,
    }
}

/// The message of a row without its images.
pub open spec fn pair_fault(c: PairColumns, fields: Seq<Seq<char>>) -> Option<Seq<char>> {
    if c.reference >= fields.len() {
        Some("missing ref_path"@)
    } else if c.distorted >= fields.len() {
        Some("missing dist_path"@)
    } else {
        None
    }
}

/// Is this the pair of a row? Without its own identity a pair goes by the path of
/// its reference, an empty codec, quality 0 and no knobs.
pub open spec fn pair_for(p: PairRow, c: PairColumns, fields: Seq<Seq<char>>) -> bool {
    &&& p.ref_path@ == fields[c.reference as int]
    &&& p.dist_path@ == fields[c.distorted as int]
    &&& p.image_path@ == (match field(fields, c.image_path) {
        Some(t) => t,
        None => fields[c.reference as int],
    })
    &&& p.codec@ == (match field(fields, c.codec) {
        Some(t) => t,
        None => Seq::<char>::empty(),
    })
    &&& p.q == (match field(fields, c.q) {
        Some(t) => match signed(t) {
            Some(n) => n,
            None => 0,
        },
        None => 0,
    })
    &&& p.knobs@ == (match field(fields, c.knobs) {
        Some(t) => t,
        None => "{}"@,
    })
}

/// The field in an optional column.
fn read_field<'a>(fields: &'a Vec<String>, at: Option<usize>) -> (r: Option<&'a str>)
    ensures
        crate::json::opt_str(r) == field(views(fields@), at),
{
    match at {
        Some(i) => if i < fields.len() {
            assert(views(fields@)[i as int] == fields@[i as int]@);
            Some(fields[i].as_str())
        } else {
            None
        },
        None => None,
    }
}

/// Reads a row.
pub fn read_pair(c: PairColumns, fields: &Vec<String>) -> (r: Result<PairRow, String>)
    ensures
        match r {
            Ok(p) => pair_fault(c, views(fields@)) is None && pair_for(p, c, views(fields@)),
            Err(e) => pair_fault(c, views(fields@)) == Some(e@),
        },
{
    if c.reference >= fields.len() {
        return Err(copy("missing ref_path"));
    }
    if c.distorted >= fields.len() {
        return Err(copy("missing dist_path"));
    }
    let ghost f = views(fields@);
    assert(f[c.reference as int] == fields@[c.reference as int]@);
    assert(f[c.distorted as int] == fields@[c.distorted as int]@);
    let image_path: String = match read_field(fields, c.image_path) {
        Some(t) => copy(t),
        None => copy(fields[c.reference].as_str()),
    };
    let codec: String = match read_field(fields, c.codec) {
        Some(t) => copy(t),
        None => String::new(),
    };
    let q: i64 = match read_field(fields, c.q) {
        Some(t) => match parse_signed(t) {
            Some(n) => n,
            None => 0,
        },
        None => 0,
    };
    let knobs: String = match read_field(fields, c.knobs) {
        Some(t) => copy(t),
        None => copy("{}"),
    };
    assert(codec@ =~= (match field(f, c.codec) {
        Some(t) => t,
        None => Seq::<char>::empty(),
    }));
    Ok(
        PairRow {
            ref_path: copy(fields[c.reference].as_str()),
            dist_path: copy(fields[c.distorted].as_str()),
            image_path,
            codec,
            q,
            knobs,
        },
    )
}

// ── The whole table ────────────────────────────────────────────────────

/// The message for a metric with more than one column.
pub open spec fn many_columns(kind: MetricKind, build: Build) -> Seq<char> {
    "score-pairs supports single-column metrics only; "@ + kind.spec_name() + " emits "@ + decimal(
        kind.width(),
    ) + " columns (["@ + name_list(kind.columns(build)) + "]). Use `batch` for now."@
}

/// The column of a metric that has one.
pub fn score_column(kind: MetricKind, build: Build) -> (r: Result<&'static str, String>)
    ensures
        match r {
            Ok(c) => kind.columns(build) == seq![c@],
            Err(e) => kind.width() != 1 && e@ == many_columns(kind, build),
        },
{
    let names = kind.column_names(build);
    assert(names@.len() == str_views(names@).len());
    if names.len() == 1 {
        assert(str_views(names@)[0] == names@[0]@);
        assert(kind.columns(build) =~= seq![names@[0]@]);
        return Ok(names[0]);
    }
    let mut e: String = copy("score-pairs supports single-column metrics only; ");
    e.append(kind.name());
    e.append(" emits ");
    let n = show_usize(names.len());
    e.append(n.as_str());
    e.append(" columns ([");
    assert(str_views(names@)[0] == names@[0]@ && str_views(names@)[1] == names@[1]@);
    let a = quoted(names[0]);
    let b = quoted(names[1]);
    let mut l: String = copy(a.as_str());
    l.append(", ");
    l.append(b.as_str());
    proof {
        let two = kind.columns(build);
        assert(two.drop_last().len() == 1);
        assert(name_list(two.drop_last()) == debug_text(two[0]));
    }
    e.append(l.as_str());
    e.append("]). Use `batch` for now.");
    Err(e)
}

/// The scored pairs of a table.
#[derive(Debug)]
pub struct ScoredPairs {
    pub column: &'static str,
    pub rows: Vec<PairRow>,
    pub succeeded: usize,
    pub failed: usize,
}

/// The message of the first record that is malformed or has no images.
pub open spec fn records_fault(
    c: PairColumns,
    records: Seq<Result<Seq<Seq<char>>, Seq<char>>>,
) -> Option<Seq<char>>
    decreases records.len(),
{
    if records.len() == 0 {
        None
    } else {
        match records_fault(c, records.drop_last()) {
            Some(e) => Some(e),
            None => match records.last() {
                Err(e) => Some(e),
                Ok(fields) => pair_fault(c, fields),
            },
        }
    }
}

/// The number of scores that came out.
pub open spec fn count_true(v: Seq<bool>) -> nat
    decreases v.len(),
{
    if v.len() == 0 {
        0
    } else {
        count_true(v.drop_last()) + (if v.last() {
            1nat
        } else {
            0nat
        })
    }
}

proof fn lemma_records_fault_stays(
    c: PairColumns,
    records: Seq<Result<Seq<Seq<char>>, Seq<char>>>,
    n: int,
)
    requires
        0 <= n <= records.len(),
        records_fault(c, records.take(n)) is Some,
    ensures
        records_fault(c, records) == records_fault(c, records.take(n)),
    decreases records.len() - n,
{
    if n < records.len() {
        assert(records.take(n + 1).drop_last() =~= records.take(n));
        lemma_records_fault_stays(c, records, n + 1);
    } else {
        assert(records.take(n) =~= records);
    }
}

proof fn lemma_pair_columns_unique(c: PairColumns, d: PairColumns, headers: Seq<Seq<char>>)
    requires
        pair_columns_for(c, headers),
        pair_columns_for(d, headers),
    ensures
        c == d,
{
}

/// Is this the pair of a well-formed record?
pub open spec fn pair_of(
    p: PairRow,
    c: PairColumns,
    record: Result<Seq<Seq<char>>, Seq<char>>,
) -> bool {
    match record {
        Ok(fields) => pair_for(p, c, fields),
        Err(_) => false,
    }
}

/// Is this what a table of pairs with these columns comes to?
pub open spec fn pairs_outcome(
    r: Result<ScoredPairs, String>,
    kind: MetricKind,
    build: Build,
    c: PairColumns,
    records: Seq<Result<Seq<Seq<char>>, Seq<char>>>,
    scorer: Result<(), String>,
    scored: Seq<bool>,
) -> bool {
    if kind.width() != 1 {
        r matches Err(e) && e@ == many_columns(kind, build)
    } else if kind == MetricKind::Cvvdp && scorer is Err {
        r matches Err(e) && e@ == "CvvdpBatchScorer init: "@ + scorer->Err_0@
    } else {
        match records_fault(c, records) {
            Some(f) => r matches Err(e) && e@ == f,
            None => if records.len() == 0 {
                r matches Err(e) && e@ == "score-pairs: input TSV produced no rows"@
            } else {
                r matches Ok(p) && {
                    &&& kind.columns(build) == seq![p.column@]
                    &&& p.rows@.len() == records.len()
                    &&& forall|i: int|
                        0 <= i < records.len() ==> pair_of(#[trigger] p.rows@[i], c, records[i])
                    &&& p.succeeded == count_true(scored)
                    &&& p.failed == records.len() - count_true(scored)
                }
            },
        }
    }
}

/// What scoring the pairs of a table comes to: `scorer` says whether the scorer of CVVDP
/// could be made, which no other metric needs, and `scored` says of each record whether
/// its pair could be scored. Every row is kept, scored or not. A table without a
/// needed column, a metric with several columns, a scorer that could not be made, a
/// malformed record and an empty table are errors, in this order.
pub fn cmd_score_pairs(
    kind: MetricKind,
    build: Build,
    table: &Tsv,
    scorer: &Result<(), String>,
    scored: &Vec<bool>,
) -> (r: Result<ScoredPairs, String>)
    requires
        scored@.len() == table.records@.len(),
    ensures
        pair_columns_fault(table@.0) matches Some(f) ==> (r matches Err(e) && e@ == f),
        pair_columns_fault(table@.0) is None ==> forall|c: PairColumns| #[trigger]
            pair_columns_for(c, table@.0) ==> pairs_outcome(r, kind, build, c, table@.1, *scorer, scored@),
{
    let c: PairColumns = match find_pair_columns(&table.headers) {
        Ok(c) => c,
        Err(e) => {
            return Err(e);
        },
    };
    proof {
        assert forall|d: PairColumns| #[trigger] pair_columns_for(d, table@.0) implies d == c by {
            lemma_pair_columns_unique(c, d, table@.0);
        }
    }
    let column: &'static str = match score_column(kind, build) {
        Ok(s) => s,
        Err(e) => {
            return Err(e);
        },
    };
    if kind == MetricKind::Cvvdp {
        match scorer {
            Ok(_) => {},
            Err(f) => {
                let mut e: String = copy("CvvdpBatchScorer init: ");
                e.append(f.as_str());
                return Err(e);
            },
        }
    }
    let ghost recs = table@.1;
    let mut rows: Vec<PairRow> = Vec::new();
    let mut succeeded: usize = 0;
    let mut failed: usize = 0;
    let mut i: usize = 0;
    assert(recs.take(0).len() == 0);
    while i < table.records.len()
        invariant
            i <= table.records.len(),
            scored@.len() == table.records@.len(),
            recs == table@.1,
            kind.columns(build) == seq![column@],
            kind == MetricKind::Cvvdp ==> scorer is Ok,
            pair_columns_fault(table@.0) is None,
            forall|d: PairColumns| #[trigger] pair_columns_for(d, table@.0) ==> d == c,
            records_fault(c, recs.take(i as int)) is None,
            rows@.len() == i,
            forall|j: int| 0 <= j < i ==> pair_of(#[trigger] rows@[j], c, recs[j]),
            succeeded == count_true(scored@.take(i as int)),
            succeeded + failed == i,
        decreases table.records.len() - i,
    {
        let ghost t = recs.take(i + 1);
        assert(t.drop_last() =~= recs.take(i as int));
        assert(t.last() == record_view(table.records@[i as int]));
        assert(recs[i as int] == record_view(table.records@[i as int]));
        match &table.records[i] {
            Err(e) => {
                proof {
                    lemma_records_fault_stays(c, recs, i + 1);
                }
                return Err(copy(e.as_str()));
            },
            Ok(fields) => match read_pair(c, fields) {
                Err(e) => {
                    proof {
                        lemma_records_fault_stays(c, recs, i + 1);
                    }
                    return Err(e);
                },
                Ok(p) => {
                    assert(recs[i as int] == Ok::<Seq<Seq<char>>, Seq<char>>(views(fields@)));
                    rows.push(p);
                },
            },
        }
        assert(scored@.take(i + 1).drop_last() =~= scored@.take(i as int));
        if scored[i] {
            succeeded += 1;
        } else {
            failed += 1;
        }
        i += 1;
    }
    assert(recs.take(i as int) =~= recs);
    assert(scored@.take(i as int) =~= scored@);
    if rows.len() == 0 {
        return Err(copy("score-pairs: input TSV produced no rows"));
    }
    Ok(ScoredPairs { column, rows, succeeded, failed })
}

// ── Sizes ──────────────────────────────────────────────────────────────

/// `w` by `h`, as messages have it.
pub open spec fn size_view(w: u32, h: u32) -> Seq<char> {
    decimal(w as nat) + "x"@ + decimal(h as nat)
}

/// `w` by `h`, as messages have it.
pub fn show_size(w: u32, h: u32) -> (r: String)
    ensures
        r@ == size_view(w, h),
{
    let mut s: String = show(w as u64);
    s.append("x");
    let b = show(h as u64);
    s.append(b.as_str());
    s
}

/// The message for a pair of different sizes, with the paths of both images.
pub open spec fn pair_size_text(
    lead: Seq<char>,
    a: Seq<char>,
    aw: u32,
    ah: u32,
    b: Seq<char>,
    bw: u32,
    bh: u32,
) -> Seq<char> {
    lead + a + " ("@ + size_view(aw, ah) + ") vs "@ + b + " ("@ + size_view(bw, bh) + ")"@
}

/// A pair can be scored when both images have the same size.
pub fn check_pair_size(
    lead: &str,
    a: &str,
    aw: u32,
    ah: u32,
    b: &str,
    bw: u32,
    bh: u32,
) -> (r: Result<(), String>)
    ensures
        match r {
            Ok(_) => aw == bw && ah == bh,
            Err(e) => (aw != bw || ah != bh) && e@ == pair_size_text(
                lead@,
                a@,
                aw,
                ah,
                b@,
                bw,
                bh,
            ),
        },
{
    if aw == bw && ah == bh {
        return Ok(());
    }
    let mut e: String = copy(lead);
    e.append(a);
    e.append(" (");
    let x = show_size(aw, ah);
    e.append(x.as_str());
    e.append(") vs ");
    e.append(b);
    e.append(" (");
    let y = show_size(bw, bh);
    e.append(y.as_str());
    e.append(")");
    Err(e)
}

/// The score of one pair: the first number of the metric. Images of different
/// sizes are an error, and so is a metric without numbers.
pub fn score_one_pair<T: Copy>(
    ref_path: &str,
    rw: u32,
    rh: u32,
    dist_path: &str,
    dw: u32,
    dh: u32,
    scores: Result<Vec<T>, String>,
) -> (r: Result<T, String>)
    ensures
        if rw != dw || rh != dh {
            r matches Err(e) && e@ == pair_size_text(
                "dimension mismatch: "@,
                ref_path@,
                rw,
                rh,
                dist_path@,
                dw,
                dh,
            )
        } else {
            match scores {
                Err(f) => r matches Err(e) && e@ == f@,
                Ok(v) => if v@.len() == 0 {
                    r matches Err(e) && e@ == "metric returned zero scores"@
                } else {
                    r == Ok::<T, String>(v@[0])
                },
            }
        },
{
    match check_pair_size("dimension mismatch: ", ref_path, rw, rh, dist_path, dw, dh) {
        Err(e) => {
            return Err(e);
        },
        Ok(_) => {},
    }
    match scores {
        Err(f) => Err(f),
        Ok(v) => if v.len() == 0 {
            Err(copy("metric returned zero scores"))
        } else {
            Ok(v[0])
        },
    }
}

/// The message of `score` for images of different sizes.
pub fn cmd_score(rw: u32, rh: u32, dw: u32, dh: u32) -> (r: Result<(), String>)
    ensures
        match r {
            Ok(_) => rw == dw && rh == dh,
            Err(e) => (rw != dw || rh != dh) && e@ == "dimension mismatch: reference is "@
                + size_view(rw, rh) + ", distorted is "@ + size_view(dw, dh),
        },
{
    if rw == dw && rh == dh {
        return Ok(());
    }
    let mut e: String = copy("dimension mismatch: reference is ");
    let x = show_size(rw, rh);
    e.append(x.as_str());
    e.append(", distorted is ");
    let y = show_size(dw, dh);
    e.append(y.as_str());
    Err(e)
}

// ── Batches ────────────────────────────────────────────────────────────

/// The fields of a row followed by more of them.
pub fn extend_row(fields: &Vec<String>, more: &Vec<String>) -> (r: Vec<String>)
    ensures
        views(r@) == views(fields@) + views(more@),
{
    let mut out: Vec<String> = crate::text::copies(fields.as_slice());
    let mut i: usize = 0;
    assert(views(out@) =~= views(fields@) + views(more@).take(0));
    while i < more.len()
        invariant
            i <= more.len(),
            views(out@) == views(fields@) + views(more@).take(i as int),
        decreases more.len() - i,
    {
        let c = copy(more[i].as_str());
        proof {
            lemma_views_push(out@, c);
        }
        out.push(c);
        i += 1;
        assert(views(out@) =~= views(fields@) + views(more@).take(i as int));
    }
    assert(views(more@).take(i as int) =~= views(more@));
    out
}

/// The header of a batch: the columns of the table, then those of the metric.
pub fn batch_header(headers: &Vec<String>, kind: MetricKind, build: Build) -> (r: Vec<String>)
    ensures
        views(r@) == views(headers@) + kind.columns(build),
{
    let names = kind.column_names(build);
    let mut more: Vec<String> = Vec::new();
    let mut i: usize = 0;
    while i < names.len()
        invariant
            i <= names.len(),
            views(more@) == str_views(names@).take(i as int),
        decreases names.len() - i,
    {
        let c = copy(names[i]);
        proof {
            lemma_views_push(more@, c);
        }
        more.push(c);
        i += 1;
        assert(str_views(names@).take(i as int) =~= str_views(names@).take(i - 1).push(
            names@[i - 1]@,
        ));
    }
    assert(str_views(names@).take(i as int) =~= str_views(names@));
    extend_row(headers, &more)
}

/// One row of a batch: the fields of the record, then the scores. A malformed
/// record, a record without its images, images of different sizes and a failed
/// metric end the batch.
pub fn cmd_batch(
    c: PairColumns,
    record: &Result<Vec<String>, String>,
    sizes: ((u32, u32), (u32, u32)),
    scores: &Result<Vec<String>, String>,
) -> (r: Result<Vec<String>, String>)
    ensures
        match record_view(*record) {
            Err(f) => r matches Err(e) && e@ == f,
            Ok(fields) => match pair_fault(c, fields) {
                Some(f) => r matches Err(e) && e@ == f,
                None => if sizes.0 != sizes.1 {
                    r matches Err(e) && e@ == pair_size_text(
                        "dimension mismatch on row: "@,
                        fields[c.reference as int],
                        sizes.0.0,
                        sizes.0.1,
                        fields[c.distorted as int],
                        sizes.1.0,
                        sizes.1.1,
                    )
                } else {
                    match scores {
                        Err(f) => r matches Err(e) && e@ == f@,
                        Ok(v) => r matches Ok(row) && views(row@) == fields + views(v@),
                    }
                },
            },
        },
{
    match record {
        Err(f) => Err(copy(f.as_str())),
        Ok(fields) => match read_pair(c, fields) {
            Err(e) => Err(e),
            Ok(p) => {
                match check_pair_size(
                    "dimension mismatch on row: ",
                    p.ref_path.as_str(),
                    sizes.0.0,
                    sizes.0.1,
                    p.dist_path.as_str(),
                    sizes.1.0,
                    sizes.1.1,
                ) {
                    Err(e) => {
                        return Err(e);
                    },
                    Ok(_) => {},
                }
                match scores {
                    Err(f) => Err(copy(f.as_str())),
                    Ok(v) => Ok(extend_row(fields, v)),
                }
            },
        },
    }
}

// ── Judging a column of scores ─────────────────────────────────────────

/// How scoring ended: well, or with scores that cannot be true.
#[derive(Debug, Clone, Copy, PartialEq, Eq, Structural)]
pub enum ScorePairsOutcome {
    Good,
    Bogus,
}

/// The range of a metric's mean and the score of identical images, in
/// thousandths.
#[derive(Debug, Clone, Copy, PartialEq, Eq, Structural)]
pub struct ScoreRange {
    pub min_mean: i64,
    pub max_mean: i64,
    pub identity: i64,
}

/// The range of a metric.
pub open spec fn range_of(kind: MetricKind) -> ScoreRange {
    match kind {
        MetricKind::Ssim2 | MetricKind::Ssim2Gpu => ScoreRange {
            min_mean: (-50_000) as i64,
            max_mean: 100_500,
            identity: 100_000,
        },
        MetricKind::Butteraugli | MetricKind::ButteraugliGpu => ScoreRange {
            min_mean: (-1) as i64,
            max_mean: 100_000,
            identity: 0,
        },
        MetricKind::Dssim | MetricKind::DssimGpu => ScoreRange {
            min_mean: (-1) as i64,
            max_mean: 1_500,
            identity: 0,
        },
        MetricKind::IwssimGpu | MetricKind::Iwssim => ScoreRange {
            min_mean: (-1) as i64,
            max_mean: 1_001,
            identity: 1_000,
        },
        MetricKind::Zensim | MetricKind::ZensimGpu => ScoreRange {
            min_mean: (-1_000) as i64,
            max_mean: 110_000,
            identity: 100_000,
        },
        MetricKind::Cvvdp => ScoreRange { min_mean: (-500) as i64, max_mean: 10_500, identity: 10_000 },
    }
}

/// The range of a metric.
pub fn metric_range_bounds(kind: MetricKind) -> (r: ScoreRange)
    ensures
        r == range_of(kind),
{
    match kind {
        MetricKind::Ssim2 | MetricKind::Ssim2Gpu => ScoreRange {
            min_mean: -50_000,
            max_mean: 100_500,
            identity: 100_000,
        },
        MetricKind::Butteraugli | MetricKind::ButteraugliGpu => ScoreRange {
            min_mean: -1,
            max_mean: 100_000,
            identity: 0,
        },
        MetricKind::Dssim | MetricKind::DssimGpu => ScoreRange {
            min_mean: -1,
            max_mean: 1_500,
            identity: 0,
        },
        MetricKind::IwssimGpu | MetricKind::Iwssim => ScoreRange {
            min_mean: -1,
            max_mean: 1_001,
            identity: 1_000,
        },
        MetricKind::Zensim | MetricKind::ZensimGpu => ScoreRange {
            min_mean: -1_000,
            max_mean: 110_000,
            identity: 100_000,
        },
        MetricKind::Cvvdp => ScoreRange { min_mean: -500, max_mean: 10_500, identity: 10_000 },
    }
}

/// The score of identical images is itself within the range of the metric's mean.
pub proof fn law_identity_in_range(kind: MetricKind)
    ensures
        range_of(kind).min_mean <= range_of(kind).identity <= range_of(kind).max_mean,
{
}

/// What is asked of one score.
#[derive(Debug, Clone, Copy, PartialEq, Eq, Structural)]
pub enum ScoreClass {
    NotANumber,
    Infinite,
    /// A number; is it the score of identical images?
    Finite { at_identity: bool },
}

/// What is asked of the finite scores together.
#[derive(Debug, Clone, Copy, PartialEq, Eq, Structural)]
pub struct ScoreSpread {
    /// Does the mean lie within the range of the metric?
    pub mean_in_range: bool,
    /// Do the largest and the smallest differ by less than a hundredth?
    pub constant: bool,
}

/// The number of scores that `f` holds of.
pub open spec fn class_count(v: Seq<ScoreClass>, f: spec_fn(ScoreClass) -> bool) -> nat
    decreases v.len(),
{
    if v.len() == 0 {
        0
    } else {
        class_count(v.drop_last(), f) + (if f(v.last()) {
            1nat
        } else {
            0nat
        })
    }
}

/// Is the score not a number?
pub open spec fn is_nan() -> spec_fn(ScoreClass) -> bool {
    |c: ScoreClass| c == ScoreClass::NotANumber
}

/// Is the score finite?
pub open spec fn is_finite() -> spec_fn(ScoreClass) -> bool {
    |c: ScoreClass| c is Finite
}

/// Is the score that of identical images?
pub open spec fn is_identity() -> spec_fn(ScoreClass) -> bool {
    |c: ScoreClass| c matches ScoreClass::Finite { at_identity } && at_identity
}

/// Can the column be true? It has scores, none of which is not a number; some are
/// finite; fewer than half of those are the score of identical images; their mean
/// lies within range; and four or more of them are not all the same.
pub open spec fn plausible(v: Seq<ScoreClass>, s: ScoreSpread) -> bool {
    let finite = class_count(v, is_finite());
    &&& v.len() > 0
    &&& class_count(v, is_nan()) == 0
    &&& finite > 0
    &&& 2 * class_count(v, is_identity()) < finite
    &&& s.mean_in_range
    &&& finite >= 4 ==> !s.constant
}

/// Which of the checks a column fails.
#[derive(Debug, Clone, Copy, PartialEq, Eq, Structural)]
pub struct BogusReport {
    pub empty: bool,
    pub nan: usize,
    pub none_finite: bool,
    pub at_identity: usize,
    pub finite: usize,
    pub mostly_identity: bool,
    pub mean_out_of_range: bool,
    pub constant: bool,
}

impl BogusReport {
    /// Did the column pass every check?
    pub open spec fn spec_passed(&self) -> bool {
        !self.empty && self.nan == 0 && !self.none_finite && !self.mostly_identity
            && !self.mean_out_of_range && !self.constant
    }

    /// Did the column pass every check?
    pub fn passed(&self) -> (r: bool)
        ensures
            r == self.spec_passed(),
    {
        !self.empty && self.nan == 0 && !self.none_finite && !self.mostly_identity
            && !self.mean_out_of_range && !self.constant
    }
}

/// Checks a column of scores. The checks on the finite scores are left out when
/// there are none.
pub fn bogus_check(v: &Vec<ScoreClass>, s: ScoreSpread) -> (r: BogusReport)
    ensures
        r.spec_passed() == plausible(v@, s),
        r.empty == (v@.len() == 0),
        r.nan == class_count(v@, is_nan()),
        r.finite == class_count(v@, is_finite()),
        r.at_identity == class_count(v@, is_identity()),
        r.none_finite == (v@.len() > 0 && r.finite == 0),
        r.mostly_identity == (r.finite > 0 && 2 * r.at_identity >= r.finite),
        r.mean_out_of_range == (r.finite > 0 && !s.mean_in_range),
        r.constant == (r.finite >= 4 && s.constant),
{
    let mut nan: usize = 0;
    let mut finite: usize = 0;
    let mut at_identity: usize = 0;
    let mut i: usize = 0;
    while i < v.len()
        invariant
            i <= v.len(),
            nan == class_count(v@.take(i as int), is_nan()),
            finite == class_count(v@.take(i as int), is_finite()),
            at_identity == class_count(v@.take(i as int), is_identity()),
            nan + finite <= i,
            at_identity <= finite,
        decreases v.len() - i,
    {
        assert(v@.take(i + 1).drop_last() =~= v@.take(i as int));
        assert(v@.take(i + 1).last() == v@[i as int]);
        match v[i] {
            ScoreClass::NotANumber => {
                nan += 1;
            },
            ScoreClass::Infinite => {},
            ScoreClass::Finite { at_identity: same } => {
                finite += 1;
                if same {
                    at_identity += 1;
                }
            },
        }
        i += 1;
    }
    assert(v@.take(i as int) =~= v@);
    let mostly_identity: bool = finite > 0 && at_identity >= finite - at_identity;
    BogusReport {
        empty: v.len() == 0,
        nan,
        none_finite: v.len() > 0 && finite == 0,
        at_identity,
        finite,
        mostly_identity,
        mean_out_of_range: finite > 0 && !s.mean_in_range,
        constant: finite >= 4 && s.constant,
    }
}

/// How scoring ended: scores that cannot be true matter only where the caller
/// asked for the checks.
pub fn pairs_verdict(fail_on_bogus: bool, report: &BogusReport) -> (r: ScorePairsOutcome)
    ensures
        r == (if fail_on_bogus && !report.spec_passed() {
            ScorePairsOutcome::Bogus
        } else {
            ScorePairsOutcome::Good
        }),
{
    if fail_on_bogus && !report.passed() {
        ScorePairsOutcome::Bogus
    } else {
        ScorePairsOutcome::Good
    }
}

/// The exit status of the command.
pub fn exit_status(o: ScorePairsOutcome) -> (r: u8)
    ensures
        r == (match o {
            ScorePairsOutcome::Good => 0u8,
            ScorePairsOutcome::Bogus => 2u8,
        }),
{
    match o {
        ScorePairsOutcome::Good => 0,
        ScorePairsOutcome::Bogus => 2,
    }
}

proof fn lemma_class_count_bound(v: Seq<ScoreClass>, f: spec_fn(ScoreClass) -> bool, i: int)
    requires
        0 <= i < v.len(),
        f(v[i]),
    ensures
        class_count(v, f) >= 1,
    decreases v.len(),
{
    if i < v.len() - 1 {
        assert(v.drop_last()[i] == v[i]);
        lemma_class_count_bound(v.drop_last(), f, i);
    }
}

/// A single score that is not a number condemns its column.
pub proof fn law_any_nan_is_bogus(v: Seq<ScoreClass>, s: ScoreSpread, i: int)
    requires
        0 <= i < v.len(),
        v[i] == ScoreClass::NotANumber,
    ensures
        !plausible(v, s),
{
    lemma_class_count_bound(v, is_nan(), i);
}

/// Each part of a pair is the field under the header that names the part. Where there is
/// no such header the image is the reference, and the rest is empty.
pub proof fn law_pair_reads_named_columns(
    headers: Seq<Seq<char>>,
    c: PairColumns,
    fields: Seq<Seq<char>>,
    p: PairRow,
    i: int,
)
    requires
        pair_columns_for(c, headers),
        pair_for(p, c, fields),
        headers.len() <= fields.len(),
    ensures
        first_called(headers, seq!["ref_path"@, "reference"@], i) ==> p.ref_path@ == fields[i],
        first_called(headers, seq!["dist_path"@, "distorted"@], i) ==> p.dist_path@ == fields[i],
        first_called(headers, seq!["image_path"@], i) ==> p.image_path@ == fields[i],
        none_called(headers, seq!["image_path"@]) ==> p.image_path@ == p.ref_path@,
        first_called(headers, seq!["codec"@], i) ==> p.codec@ == fields[i],
        none_called(headers, seq!["codec"@]) ==> p.codec@.len() == 0,
        first_called(headers, seq!["knob_tuple_json"@], i) ==> p.knobs@ == fields[i],
        none_called(headers, seq!["knob_tuple_json"@]) ==> p.knobs@ == "{}"@,
        first_called(headers, seq!["q"@], i) ==> forall|n: i64|
            fields[i] == #[trigger] decimal_int(n as int) ==> p.q == n,
        none_called(headers, seq!["q"@]) ==> p.q == 0,
{
    lemma_first_is_one(headers, seq!["ref_path"@, "reference"@], c.reference as int, i);
    lemma_first_is_one(headers, seq!["dist_path"@, "distorted"@], c.distorted as int, i);
    lemma_optional_is_first(headers, "image_path"@, c.image_path, i);
    lemma_optional_is_first(headers, "codec"@, c.codec, i);
    lemma_optional_is_first(headers, "q"@, c.q, i);
    lemma_optional_is_first(headers, "knob_tuple_json"@, c.knobs, i);
    assert forall|n: i64| fields[i] == #[trigger] decimal_int(n as int) implies signed(fields[i])
        == Some(n) by {
        law_signed_reads_back(n);
    }
}

proof fn lemma_first_is_one(headers: Seq<Seq<char>>, names: Seq<Seq<char>>, a: int, b: int)
    requires
        first_called(headers, names, a),
    ensures
        first_called(headers, names, b) ==> a == b,
        !none_called(headers, names),
{
    assert(is_called(headers[a], names));
    if first_called(headers, names, b) {
        if a < b {
            assert(!is_called(headers[a], names));
        } else if b < a {
            assert(!is_called(headers[b], names));
        }
    }
}

proof fn lemma_optional_is_first(
    headers: Seq<Seq<char>>,
    name: Seq<char>,
    at: Option<usize>,
    i: int,
)
    requires
        optional_column(headers, name, at),
    ensures
        first_called(headers, seq![name], i) ==> at == Some(i as usize) && 0 <= i < headers.len()
            && at->Some_0 == i,
        none_called(headers, seq![name]) <==> at is None,
{
    match at {
        Some(k) => {
            lemma_first_is_one(headers, seq![name], k as int, i);
        },
        None => {
            if first_called(headers, seq![name], i) {
                assert(is_called(headers[i], seq![name]));
            }
        },
    }
}

/// Every record is counted once, as scored or as failed.
pub proof fn law_pairs_counted_once(scored: Seq<bool>)
    ensures
        count_true(scored) + count_true(scored.map_values(|b: bool| !b)) == scored.len(),
    decreases scored.len(),
{
    let other = scored.map_values(|b: bool| !b);
    if scored.len() > 0 {
        law_pairs_counted_once(scored.drop_last());
        assert(other.drop_last() =~= scored.drop_last().map_values(|b: bool| !b));
    }
}

/// The range of a score goes by the measure alone: a distance is zero for identical
/// images, and a similarity has its best score there.
pub proof fn law_range_goes_by_measure(kind: MetricKind, f: Family)
    requires
        of_family(kind, f),
    ensures
        match f {
            Family::Ssim2 => range_of(kind).identity == 100_000 && range_of(kind).min_mean
                == -50_000,
            Family::Zensim => range_of(kind).identity == 100_000 && range_of(kind).min_mean
                == -1_000,
            Family::Cvvdp => range_of(kind).identity == 10_000 && range_of(kind).min_mean == -500,
            Family::Iwssim => range_of(kind).identity == 1_000 && range_of(kind).min_mean == -1,
            Family::Butteraugli => range_of(kind).identity == 0 && range_of(kind).min_mean == -1
                && range_of(kind).max_mean == 100_000,
            Family::Dssim => range_of(kind).identity == 0 && range_of(kind).min_mean == -1
                && range_of(kind).max_mean == 1_500,
        },
        !(f is Butteraugli || f is Dssim) ==> range_of(kind).identity <= range_of(kind).max_mean
            <= range_of(kind).identity + range_of(kind).identity / 10,
{
    law_scorer_computes_its_metric(kind);
    let h = scored_family(scorer_of(kind));
    if h != f {
        lemma_words_differ(h, f);
        lemma_words_differ(f, h);
    }
}

/// Metrics of one measure have the same range wherever they run.
pub proof fn law_one_range_per_measure(a: MetricKind, b: MetricKind, f: Family)
    requires
        of_family(a, f),
        of_family(b, f),
    ensures
        range_of(a) == range_of(b),
{
    law_scorer_computes_its_metric(a);
    law_scorer_computes_its_metric(b);
    let g = scored_family(scorer_of(a));
    let h = scored_family(scorer_of(b));
    if g != f {
        lemma_words_differ(g, f);
        lemma_words_differ(f, g);
    }
    if h != f {
        lemma_words_differ(h, f);
        lemma_words_differ(f, h);
    }
}

proof fn lemma_class_count(v: Seq<ScoreClass>, f: spec_fn(ScoreClass) -> bool, all: bool)
    requires
        forall|i: int| 0 <= i < v.len() ==> f(#[trigger] v[i]) == all,
    ensures
        class_count(v, f) == (if all {
            v.len()
        } else {
            0
        }),
    decreases v.len(),
{
    if v.len() > 0 {
        assert forall|i: int| 0 <= i < v.drop_last().len() implies f(#[trigger] v.drop_last()[i])
            == all by {
            assert(v.drop_last()[i] == v[i]);
        }
        lemma_class_count(v.drop_last(), f, all);
        assert(v[v.len() - 1] == v.last());
    }
}

/// Scores that are all numbers, none of them that of identical images, with a mean in
/// the range and some spread, are believed.
pub proof fn law_ordinary_scores_believed(v: Seq<ScoreClass>, s: ScoreSpread)
    requires
        v.len() > 0,
        forall|i: int| 0 <= i < v.len() ==> #[trigger] v[i] == (ScoreClass::Finite {
            at_identity: false,
        }),
        s.mean_in_range,
        !s.constant,
    ensures
        plausible(v, s),
{
    lemma_class_count(v, is_finite(), true);
    lemma_class_count(v, is_nan(), false);
    lemma_class_count(v, is_identity(), false);
}

/// Scores that are all those of identical images, or that hold no finite number, or whose
/// mean lies outside the range, are not believed.
pub proof fn law_useless_scores_not_believed(v: Seq<ScoreClass>, s: ScoreSpread)
    requires
        ({
            ||| v.len() == 0
            ||| !s.mean_in_range
            ||| forall|i: int| 0 <= i < v.len() ==> !((#[trigger] v[i]) is Finite)
            ||| forall|i: int| 0 <= i < v.len() ==> #[trigger] v[i] == (ScoreClass::Finite {
                at_identity: true,
            })
        }),
    ensures
        !plausible(v, s),
{
    if forall|i: int| 0 <= i < v.len() ==> !((#[trigger] v[i]) is Finite) {
        lemma_class_count(v, is_finite(), false);
    } else if forall|i: int| 0 <= i < v.len() ==> #[trigger] v[i] == (ScoreClass::Finite {
        at_identity: true,
    }) {
        lemma_class_count(v, is_finite(), true);
        lemma_class_count(v, is_identity(), true);
    }
}

/// A list of pairs is refused exactly when it lacks the column of the references or that
/// of the distorted images.
pub proof fn law_pairs_refused_without_columns(headers: Seq<Seq<char>>)
    ensures
        pair_columns_fault(headers) is None <==> {
            &&& !none_called(headers, seq!["ref_path"@, "reference"@])
            &&& !none_called(headers, seq!["dist_path"@, "distorted"@])
        },
{
}

/// The list is read to its end exactly when every record can be read and holds both
/// images.
pub proof fn law_records_read(
    c: PairColumns,
    records: Seq<Result<Seq<Seq<char>>, Seq<char>>>,
)
    ensures
        records_fault(c, records) is None <==> forall|i: int|
            0 <= i < records.len() ==> (#[trigger] records[i] matches Ok(fields) && c.reference
                < fields.len() && c.distorted < fields.len()),
    decreases records.len(),
{
    if records.len() > 0 {
        let front = records.drop_last();
        law_records_read(c, front);
        if records_fault(c, records) is None {
            assert forall|i: int| 0 <= i < records.len() implies (#[trigger] records[i] matches Ok(
                fields,
            ) && c.reference < fields.len() && c.distorted < fields.len()) by {
                if i < front.len() {
                    assert(front[i] == records[i]);
                }
            }
        } else if forall|i: int|
            0 <= i < records.len() ==> (#[trigger] records[i] matches Ok(fields) && c.reference
                < fields.len() && c.distorted < fields.len()) {
            assert forall|i: int| 0 <= i < front.len() implies (#[trigger] front[i] matches Ok(
                fields,
            ) && c.reference < fields.len() && c.distorted < fields.len()) by {
                assert(front[i] == records[i]);
            }
            assert(records[records.len() - 1] == records.last());
        }
    }
}

/// Scoring succeeds only for a metric with one column, and every record is then a row
/// that was scored or that failed.
pub proof fn law_pairs_outcome(
    p: ScoredPairs,
    kind: MetricKind,
    build: Build,
    c: PairColumns,
    records: Seq<Result<Seq<Seq<char>>, Seq<char>>>,
    scorer: Result<(), String>,
    scored: Seq<bool>,
)
    requires
        pairs_outcome(Ok(p), kind, build, c, records, scorer, scored),
        scored.len() == records.len(),
    ensures
        kind.columns(build) == seq![p.column@],
        records.len() > 0,
        p.rows@.len() == records.len(),
        p.succeeded + p.failed == records.len(),
        p.succeeded == count_true(scored),
        kind.spec_name() == "cvvdp"@ ==> scorer is Ok,
{
    crate::metrics::kind::law_metric_name_round_trip(kind);
    crate::metrics::kind::law_metric_name_round_trip(MetricKind::Cvvdp);
}

/// Each further score is counted exactly when it is of the class.
pub proof fn law_scores_counted_one_by_one(
    v: Seq<ScoreClass>,
    c: ScoreClass,
    f: spec_fn(ScoreClass) -> bool,
    scored: Seq<bool>,
    b: bool,
)
    ensures
        class_count(v.push(c), f) == class_count(v, f) + (if f(c) {
            1int
        } else {
            0
        }),
        class_count(Seq::<ScoreClass>::empty(), f) == 0,
        count_true(scored.push(b)) == count_true(scored) + (if b {
            1int
        } else {
            0
        }),
        count_true(Seq::<bool>::empty()) == 0,
        is_nan()(c) <==> c is NotANumber,
        is_finite()(c) <==> c is Finite,
        is_identity()(c) <==> c == (ScoreClass::Finite { at_identity: true }),
{
    assert(v.push(c).drop_last() =~= v);
    assert(scored.push(b).drop_last() =~= scored);
}

/// Scores are not believed where half of the numbers or more are those of identical
/// images, or where four numbers or more are all alike.
pub proof fn law_alike_scores_not_believed(v: Seq<ScoreClass>, s: ScoreSpread)
    requires
        2 * class_count(v, is_identity()) >= class_count(v, is_finite()) || s.constant
            && class_count(v, is_finite()) >= 4,
    ensures
        !plausible(v, s),
{
}

} // verus!
