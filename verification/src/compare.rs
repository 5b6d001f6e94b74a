//! Comparing every reference with every variant on every metric.
//!
//! Each image is decoded once, however often it is named. A pair that cannot be
//! scored is recorded with its reason, and the rest goes on.

use crate::json::{
    lemma_array_view, lemma_object_view, members, Json, JsonNumber, JsonView, Members,
};
use crate::metrics::dispatch::Build;
use crate::metrics::kind::MetricKind;
use crate::output::{
    column_strings, copy_scores, fixed_strings, fixed_views, number_view, score_views, ScoreText,
    ScoreView,
};
use crate::score_pairs::{extend_row, show_size, size_view};
use crate::sweep::run::blanks;
use crate::text::{copy, lemma_views_push, same, views};
use vstd::prelude::*;

verus! {

// ── Decoding each image once ───────────────────────────────────────────

/// Is `j` the first place where the key of `i` stands?
pub open spec fn first_place(keys: Seq<Seq<char>>, i: int, j: int) -> bool {
    &&& 0 <= j <= i < keys.len()
    &&& keys[j] == keys[i]
    &&& forall|k: int| 0 <= k < j ==> #[trigger] keys[k] != keys[i]
}

/// For each path, the first path with the same key: the one whose decoded image
/// it shares.
pub fn canonical_slots(keys: &Vec<String>) -> (r: Vec<usize>)
    ensures
        r@.len() == keys@.len(),
        forall|i: int|
            0 <= i < r@.len() ==> first_place(views(keys@), i, #[trigger] r@[i] as int),
{
    let mut out: Vec<usize> = Vec::new();
    let ghost all = views(keys@);
    let mut i: usize = 0;
    while i < keys.len()
        invariant
            i <= keys.len(),
            all == views(keys@),
            out@.len() == i,
            forall|k: int| 0 <= k < i ==> first_place(all, k, #[trigger] out@[k] as int),
        decreases keys.len() - i,
    {
        let mut j: usize = 0;
        while j < i && !same(keys[j].as_str(), keys[i].as_str())
            invariant
                j <= i < keys.len(),
                all == views(keys@),
                forall|k: int| 0 <= k < j ==> #[trigger] all[k] != all[i as int],
            decreases i - j,
        {
            assert(all[j as int] == keys@[j as int]@ && all[i as int] == keys@[i as int]@);
            j += 1;
        }
        assert(all[j as int] == keys@[j as int]@ && all[i as int] == keys@[i as int]@);
        out.push(j);
        i += 1;
    }
    out
}

/// Paths with one key share one decoded image, and paths with different keys do
/// not; so each image is decoded exactly once.
pub proof fn law_one_slot_per_key(keys: Seq<Seq<char>>, a: int, sa: int, b: int, sb: int)
    requires
        first_place(keys, a, sa),
        first_place(keys, b, sb),
    ensures
        sa == sb <==> keys[a] == keys[b],
        first_place(keys, sa, sa),
{
    if keys[a] == keys[b] {
        if sa < sb {
            assert(keys[sa] != keys[b]);
        }
        if sb < sa {
            assert(keys[sb] != keys[a]);
        }
    }
}

// ── One cell ───────────────────────────────────────────────────────────

/// The message for a pair of different sizes.
pub open spec fn compare_size_text(
    a: Seq<char>,
    aw: u32,
    ah: u32,
    b: Seq<char>,
    bw: u32,
    bh: u32,
) -> Seq<char> {
    "dimension mismatch: "@ + a + " is "@ + size_view(aw, ah) + ", "@ + b + " is "@ + size_view(
        bw,
        bh,
    )
}

/// Can a pair be scored? A decoded image is known here by its size. The reference's
/// own failure comes first, then the variant's, then a difference in size.
pub fn score_one(
    reference: &Result<(u32, u32), String>,
    variant: &Result<(u32, u32), String>,
    ref_path: &str,
    var_path: &str,
) -> (r: Result<(), String>)
    ensures
        match (reference, variant) {
            (Err(f), _) => r matches Err(e) && e@ == f@,
            (Ok(_), Err(f)) => r matches Err(e) && e@ == f@,
            (Ok(a), Ok(b)) => if a.0 == b.0 && a.1 == b.1 {
                r is Ok
            } else {
                r matches Err(e) && e@ == compare_size_text(
                    ref_path@,
                    a.0,
                    a.1,
                    var_path@,
                    b.0,
                    b.1,
                )
            },
        },
{
    match reference {
        Err(f) => Err(copy(f.as_str())),
        Ok(a) => match variant {
            Err(f) => Err(copy(f.as_str())),
            Ok(b) => {
                if a.0 == b.0 && a.1 == b.1 {
                    return Ok(());
                }
                let mut e: String = copy("dimension mismatch: ");
                e.append(ref_path);
                e.append(" is ");
                let x = show_size(a.0, a.1);
                e.append(x.as_str());
                e.append(", ");
                e.append(var_path);
                e.append(" is ");
                let y = show_size(b.0, b.1);
                e.append(y.as_str());
                Err(e)
            },
        },
    }
}

/// Why an image could not be decoded, as a cell records it.
pub fn decode_failed(path: &str, reason: &str) -> (r: String)
    ensures
        r@ == "decode "@ + path@ + ": "@ + reason@,
{
    let mut e: String = copy("decode ");
    e.append(path);
    e.append(": ");
    e.append(reason);
    e
}

/// The warning for a cell without scores.
pub fn cell_warning(reference: &str, variant: &str, kind: MetricKind, reason: &str) -> (r: String)
    ensures
        r@ == "warning: "@ + reference@ + " vs "@ + variant@ + " ["@ + kind.spec_name() + "]: "@
            + reason@,
{
    let mut e: String = copy("warning: ");
    e.append(reference);
    e.append(" vs ");
    e.append(variant);
    e.append(" [");
    e.append(kind.name());
    e.append("]: ");
    e.append(reason);
    e
}

// ── The report ─────────────────────────────────────────────────────────

/// The scores of a metric on a pair, or the reason why there are none.
pub type Cell = Result<Vec<ScoreText>, String>;

/// What a cell means.
pub open spec fn cell_view(c: Cell) -> Result<Seq<ScoreView>, Seq<char>> {
    match c {
        Ok(v) => Ok(score_views(v@)),
        Err(e) => Err(e@),
    }
}

/// What a list of cells means.
pub open spec fn cell_views(v: Seq<Cell>) -> Seq<Result<Seq<ScoreView>, Seq<char>>> {
    v.map_values(|c: Cell| cell_view(c))
}

/// One pair with a cell for each metric.
#[derive(Debug)]
pub struct CompareRow {
    pub reference: String,
    pub variant: String,
    pub scores: Vec<Cell>,
}

/// All pairs, and whether some cell has no scores.
#[derive(Debug)]
pub struct CompareReport {
    pub rows: Vec<CompareRow>,
    pub had_failures: bool,
}

/// Copies of the cells `lo..hi`.
fn copy_cells(cells: &Vec<Cell>, lo: usize, hi: usize) -> (r: Vec<Cell>)
    requires
        lo <= hi <= cells@.len(),
    ensures
        cell_views(r@) == cell_views(cells@).subrange(lo as int, hi as int),
{
    let mut out: Vec<Cell> = Vec::new();
    let mut i: usize = lo;
    while i < hi
        invariant
            lo <= i <= hi <= cells@.len(),
            out@.len() == i - lo,
            forall|j: int| 0 <= j < i - lo ==> cell_view(#[trigger] out@[j]) == cell_view(
                cells@[lo + j],
            ),
        decreases hi - i,
    {
        let c: Cell = match &cells[i] {
            Ok(v) => Ok(copy_scores(v)),
            Err(e) => Err(copy(e.as_str())),
        };
        out.push(c);
        i += 1;
    }
    assert(cell_views(out@) =~= cell_views(cells@).subrange(lo as int, hi as int));
    out
}

/// Has some cell no scores?
pub open spec fn any_failure(cells: Seq<Cell>) -> bool {
    exists|i: int| 0 <= i < cells.len() && (#[trigger] cells[i]) is Err
}

/// Is this the row of the `k`th pair, the variants varying fastest?
pub open spec fn row_for(
    row: CompareRow,
    references: Seq<String>,
    variants: Seq<String>,
    metrics: nat,
    cells: Seq<Cell>,
    k: int,
) -> bool {
    let n = variants.len() as int;
    &&& row.reference@ == references[k / n]@
    &&& row.variant@ == variants[k % n]@
    &&& cell_views(row.scores@) == cell_views(cells).subrange(
        k * metrics,
        k * metrics + metrics,
    )
}

/// Puts the cells of a comparison into rows. The cells come pair by pair, and for
/// each pair metric by metric.
pub fn run_compare(
    references: &Vec<String>,
    variants: &Vec<String>,
    metrics: usize,
    cells: &Vec<Cell>,
) -> (r: CompareReport)
    requires
        cells@.len() == references@.len() * variants@.len() * metrics,
        references@.len() * variants@.len() <= usize::MAX,
    ensures
        r.rows@.len() == references@.len() * variants@.len(),
        forall|k: int|
            0 <= k < r.rows@.len() ==> row_for(
                #[trigger] r.rows@[k],
                references@,
                variants@,
                metrics as nat,
                cells@,
                k,
            ),
        r.had_failures == any_failure(cells@),
{
    let n: usize = variants.len();
    let total: usize = references.len() * n;
    let mut rows: Vec<CompareRow> = Vec::new();
    let mut k: usize = 0;
    while k < total
        invariant
            k <= total,
            n == variants@.len(),
            total == references@.len() * n,
            cells@.len() == total * metrics,
            rows@.len() == k,
            forall|j: int|
                0 <= j < k ==> row_for(
                    #[trigger] rows@[j],
                    references@,
                    variants@,
                    metrics as nat,
                    cells@,
                    j,
                ),
        decreases total - k,
    {
        let ghost m = metrics as int;
        let ghost rs = references@.len() as int;
        assert(n > 0) by (nonlinear_arith)
            requires
                k < rs * n,
                n >= 0,
                k >= 0,
        ;
        assert(0 <= k / n < rs) by (nonlinear_arith)
            requires
                0 <= k < rs * n,
                n > 0,
        ;
        assert(k * m + m <= total * m) by (nonlinear_arith)
            requires
                k + 1 <= total,
                m >= 0,
        ;
        assert(0 <= k * m) by (nonlinear_arith)
            requires
                k >= 0,
                m >= 0,
        ;
        assert(cells.len() == cells@.len());
        let lo: usize = k * metrics;
        let scores = copy_cells(cells, lo, lo + metrics);
        rows.push(
            CompareRow {
                reference: copy(references[k / n].as_str()),
                variant: copy(variants[k % n].as_str()),
                scores,
            },
        );
        k += 1;
    }
    let mut failed: bool = false;
    let mut i: usize = 0;
    while i < cells.len()
        invariant
            i <= cells.len(),
            failed == exists|j: int| 0 <= j < i && (#[trigger] cells@[j]) is Err,
        decreases cells.len() - i,
    {
        if cells[i].is_err() {
            assert(cells@[i as int] is Err);
            failed = true;
        }
        i += 1;
    }
    CompareReport { rows, had_failures: failed }
}

/// A comparison needs at least one reference, one variant and one metric.
pub fn cmd_compare(references: usize, variants: usize, metrics: usize) -> (r: Result<(), String>)
    ensures
        match r {
            Ok(_) => references > 0 && variants > 0 && metrics > 0,
            Err(e) => if references == 0 {
                e@ == "at least one --reference is required"@
            } else if variants == 0 {
                e@ == "at least one --variant is required"@
            } else {
                metrics == 0 && e@ == "at least one --metric is required"@
            },
        },
{
    if references == 0 {
        return Err(copy("at least one --reference is required"));
    }
    if variants == 0 {
        return Err(copy("at least one --variant is required"));
    }
    if metrics == 0 {
        return Err(copy("at least one --metric is required"));
    }
    Ok(())
}

// ── Showing the report ─────────────────────────────────────────────────

/// The columns of the metrics.
pub open spec fn metric_columns(metrics: Seq<MetricKind>, build: Build) -> Seq<Seq<char>>
    decreases metrics.len(),
{
    if metrics.len() == 0 {
        Seq::<Seq<char>>::empty()
    } else {
        metric_columns(metrics.drop_last(), build) + metrics.last().columns(build)
    }
}

/// The header of the tab-separated form.
pub fn compare_header(metrics: &Vec<MetricKind>, build: Build) -> (r: Vec<String>)
    ensures
        views(r@) == seq!["reference"@, "variant"@] + metric_columns(metrics@, build),
{
    let mut row: Vec<String> = vec![copy("reference"), copy("variant")];
    let ghost lead = seq!["reference"@, "variant"@];
    assert(views(row@) =~= lead + metric_columns(metrics@.take(0), build));
    let mut i: usize = 0;
    while i < metrics.len()
        invariant
            i <= metrics.len(),
            views(row@) == lead + metric_columns(metrics@.take(i as int), build),
        decreases metrics.len() - i,
    {
        assert(metrics@.take(i + 1).drop_last() =~= metrics@.take(i as int));
        let cols = column_strings(metrics[i], build);
        row = extend_row(&row, &cols);
        i += 1;
        assert(views(row@) =~= lead + metric_columns(metrics@.take(i as int), build));
    }
    assert(metrics@.take(i as int) =~= metrics@);
    row
}

/// The texts of a cell; blanks where it has no scores.
pub open spec fn cell_texts(kind: MetricKind, c: Result<Seq<ScoreView>, Seq<char>>) -> Seq<
    Seq<char>,
> {
    match c {
        Ok(v) => fixed_views(v),
        Err(_) => blanks(kind.width()),
    }
}

/// The texts of the first cells.
pub open spec fn row_texts(
    metrics: Seq<MetricKind>,
    cells: Seq<Result<Seq<ScoreView>, Seq<char>>>,
) -> Seq<Seq<char>>
    decreases cells.len(),
{
    if cells.len() == 0 {
        Seq::<Seq<char>>::empty()
    } else {
        row_texts(metrics, cells.drop_last()) + cell_texts(
            metrics[cells.len() - 1],
            cells.last(),
        )
    }
}

/// One line of the tab-separated form.
pub fn compare_line(metrics: &Vec<MetricKind>, row: &CompareRow) -> (r: Vec<String>)
    requires
        row.scores@.len() <= metrics@.len(),
    ensures
        views(r@) == seq![row.reference@, row.variant@] + row_texts(
            metrics@,
            cell_views(row.scores@),
        ),
{
    let mut out: Vec<String> = vec![copy(row.reference.as_str()), copy(row.variant.as_str())];
    let ghost lead = seq![row.reference@, row.variant@];
    let ghost all = cell_views(row.scores@);
    assert(views(out@) =~= lead + row_texts(metrics@, all.take(0)));
    let mut i: usize = 0;
    while i < row.scores.len()
        invariant
            i <= row.scores.len() <= metrics.len(),
            all == cell_views(row.scores@),
            views(out@) == lead + row_texts(metrics@, all.take(i as int)),
        decreases row.scores.len() - i,
    {
        assert(all.take(i + 1).drop_last() =~= all.take(i as int));
        assert(all.take(i + 1).last() == cell_view(row.scores@[i as int]));
        let texts: Vec<String> = match &row.scores[i] {
            Ok(v) => fixed_strings(v),
            Err(_) => {
                blank_row(metrics[i].column_count())
            },
        };
        out = extend_row(&out, &texts);
        i += 1;
        assert(views(out@) =~= lead + row_texts(metrics@, all.take(i as int)));
    }
    assert(all.take(i as int) =~= all);
    out
}

/// `n` empty texts.
fn blank_row(n: usize) -> (r: Vec<String>)
    ensures
        views(r@) == blanks(n as nat),
{
    let mut out: Vec<String> = Vec::new();
    let mut i: usize = 0;
    while i < n
        invariant
            i <= n,
            views(out@) == blanks(i as nat),
        decreases n - i,
    {
        let s: String = String::new();
        proof {
            lemma_views_push(out@, s);
            assert(s@ =~= Seq::<char>::empty());
        }
        out.push(s);
        i += 1;
        assert(views(out@) =~= blanks(i as nat));
    }
    assert(views(out@) =~= blanks(n as nat));
    out
}

/// Do the cells have as many numbers as their metrics have columns?
pub open spec fn cells_fit(
    metrics: Seq<MetricKind>,
    cells: Seq<Result<Seq<ScoreView>, Seq<char>>>,
) -> bool {
    &&& cells.len() == metrics.len()
    &&& forall|i: int|
        0 <= i < cells.len() ==> (#[trigger] cells[i] matches Ok(v) ==> v.len()
            == metrics[i].width())
}

proof fn lemma_row_texts_len(
    metrics: Seq<MetricKind>,
    build: Build,
    cells: Seq<Result<Seq<ScoreView>, Seq<char>>>,
)
    requires
        cells_fit(metrics, cells),
    ensures
        row_texts(metrics, cells).len() == metric_columns(metrics, build).len(),
    decreases cells.len(),
{
    if cells.len() > 0 {
        let c = cells.drop_last();
        let m = metrics.drop_last();
        assert forall|i: int| 0 <= i < c.len() implies (#[trigger] c[i] matches Ok(v) ==> v.len()
            == m[i].width()) by {
            assert(c[i] == cells[i] && m[i] == metrics[i]);
        }
        lemma_row_texts_len(m, build, c);
        lemma_row_texts_prefix(metrics, c);
        assert(cells.last() == cells[cells.len() - 1]);
    }
}

proof fn lemma_row_texts_prefix(
    metrics: Seq<MetricKind>,
    cells: Seq<Result<Seq<ScoreView>, Seq<char>>>,
)
    requires
        cells.len() < metrics.len(),
    ensures
        row_texts(metrics, cells) == row_texts(metrics.drop_last(), cells),
    decreases cells.len(),
{
    if cells.len() > 0 {
        lemma_row_texts_prefix(metrics, cells.drop_last());
    }
}

/// Every line of a comparison has one text for each column of its header, whether
/// its cells have scores or not.
pub proof fn law_compare_line_matches_header(
    metrics: Seq<MetricKind>,
    build: Build,
    cells: Seq<Result<Seq<ScoreView>, Seq<char>>>,
    a: Seq<char>,
    b: Seq<char>,
)
    requires
        cells_fit(metrics, cells),
    ensures
        (seq![a, b] + row_texts(metrics, cells)).len() == (seq!["reference"@, "variant"@]
            + metric_columns(metrics, build)).len(),
{
    lemma_row_texts_len(metrics, build, cells);
}

/// The members of a row's scores: a number for each column, or null where the cell
/// has no scores.
pub open spec fn cell_members(kind: MetricKind, build: Build, c: Result<Seq<ScoreView>, Seq<char>>) -> Seq<
    (Seq<char>, JsonView),
> {
    Seq::new(
        kind.width(),
        |i: int|
            (
                kind.columns(build)[i],
                match c {
                    Ok(v) => number_view(v[i].1),
                    Err(_) => JsonView::Null,
                },
            ),
    )
}

/// The members of the first cells.
pub open spec fn row_members(
    metrics: Seq<MetricKind>,
    build: Build,
    cells: Seq<Result<Seq<ScoreView>, Seq<char>>>,
) -> Seq<(Seq<char>, JsonView)>
    decreases cells.len(),
{
    if cells.len() == 0 {
        Seq::<(Seq<char>, JsonView)>::empty()
    } else {
        row_members(metrics, build, cells.drop_last()) + cell_members(
            metrics[cells.len() - 1],
            build,
            cells.last(),
        )
    }
}

/// One row as JSON.
pub open spec fn row_value(metrics: Seq<MetricKind>, build: Build, row: CompareRow) -> JsonView {
    JsonView::Object(
        seq![
            ("reference"@, JsonView::Str(row.reference@)),
            ("scores"@, JsonView::Object(row_members(metrics, build, cell_views(row.scores@)))),
            ("variant"@, JsonView::Str(row.variant@)),
        ],
    )
}

/// The report as JSON: the metrics' names and the rows.
pub open spec fn report_value(metrics: Seq<MetricKind>, build: Build, rows: Seq<CompareRow>) -> JsonView {
    JsonView::Object(
        seq![
            (
                "metrics"@,
                JsonView::Array(metrics.map_values(|m: MetricKind| JsonView::Str(m.spec_name()))),
            ),
            (
                "results"@,
                JsonView::Array(rows.map_values(|r: CompareRow| row_value(metrics, build, r))),
            ),
        ],
    )
}

/// Adds the members of one cell.
fn add_cell_members(m: &mut Members, kind: MetricKind, build: Build, cell: &Cell)
    requires
        cell matches Ok(v) ==> v@.len() == kind.width(),
    ensures
        members(final(m)@) == members(old(m)@) + cell_members(kind, build, cell_view(*cell)),
{
    let cols = column_strings(kind, build);
    assert(views(cols@).len() == cols@.len());
    let ghost base = members(m@);
    let ghost want = cell_members(kind, build, cell_view(*cell));
    let mut i: usize = 0;
    assert(base + want.take(0) =~= base);
    while i < cols.len()
        invariant
            i <= cols.len(),
            views(cols@) == kind.columns(build),
            cols@.len() == kind.width(),
            cell matches Ok(v) ==> v@.len() == kind.width(),
            want == cell_members(kind, build, cell_view(*cell)),
            members(m@) == base + want.take(i as int),
        decreases cols.len() - i,
    {
        assert(views(cols@)[i as int] == cols@[i as int]@);
        let value: Json = match cell {
            Ok(v) => Json::Number(
                JsonNumber { unsigned: None, text: copy(v[i].exact.as_str()) },
            ),
            Err(_) => Json::Null,
        };
        let ghost before = m@;
        m.push((copy(cols[i].as_str()), value));
        assert(members(m@) =~= members(before).push(want[i as int]));
        i += 1;
        assert(members(m@) =~= base + want.take(i as int));
    }
    assert(want.take(i as int) =~= want);
}

/// One row as JSON.
fn row_json(metrics: &Vec<MetricKind>, build: Build, row: &CompareRow) -> (r: Json)
    requires
        cells_fit(metrics@, cell_views(row.scores@)),
    ensures
        r@ == row_value(metrics@, build, *row),
{
    let ghost all = cell_views(row.scores@);
    let mut scores: Members = Vec::new();
    let mut i: usize = 0;
    assert(members(scores@) =~= row_members(metrics@, build, all.take(0)));
    while i < row.scores.len()
        invariant
            i <= row.scores.len(),
            row.scores@.len() == metrics@.len(),
            all == cell_views(row.scores@),
            cells_fit(metrics@, all),
            members(scores@) == row_members(metrics@, build, all.take(i as int)),
        decreases row.scores.len() - i,
    {
        assert(all.take(i + 1).drop_last() =~= all.take(i as int));
        assert(all[i as int] == cell_view(row.scores@[i as int]));
        add_cell_members(&mut scores, metrics[i], build, &row.scores[i]);
        i += 1;
    }
    assert(all.take(i as int) =~= all);
    let inner = Json::Object(scores);
    proof {
        lemma_object_view(inner);
    }
    let mut m: Members = Vec::new();
    m.push((copy("reference"), Json::Str(copy(row.reference.as_str()))));
    m.push((copy("scores"), inner));
    m.push((copy("variant"), Json::Str(copy(row.variant.as_str()))));
    let v = Json::Object(m);
    proof {
        lemma_object_view(v);
        assert(members(m@) =~= row_value(metrics@, build, *row)->Object_0);
    }
    v
}

/// The report as JSON.
pub fn render_compare(metrics: &Vec<MetricKind>, build: Build, rows: &Vec<CompareRow>) -> (r: Json)
    requires
        forall|k: int|
            0 <= k < rows@.len() ==> cells_fit(metrics@, cell_views((#[trigger] rows@[k]).scores@)),
    ensures
        r@ == report_value(metrics@, build, rows@),
{
    let mut names: Vec<Json> = Vec::new();
    let mut i: usize = 0;
    while i < metrics.len()
        invariant
            i <= metrics.len(),
            names@.len() == i,
            forall|j: int|
                0 <= j < i ==> (#[trigger] names@[j])@ == JsonView::Str(metrics@[j].spec_name()),
        decreases metrics.len() - i,
    {
        names.push(Json::Str(copy(metrics[i].name())));
        i += 1;
    }
    let names_json = Json::Array(names);
    let mut results: Vec<Json> = Vec::new();
    let mut k: usize = 0;
    while k < rows.len()
        invariant
            k <= rows.len(),
            results@.len() == k,
            forall|j: int|
                0 <= j < rows@.len() ==> cells_fit(
                    metrics@,
                    cell_views((#[trigger] rows@[j]).scores@),
                ),
            forall|j: int|
                0 <= j < k ==> (#[trigger] results@[j])@ == row_value(metrics@, build, rows@[j]),
        decreases rows.len() - k,
    {
        assert(cells_fit(metrics@, cell_views(rows@[k as int].scores@)));
        results.push(row_json(metrics, build, &rows[k]));
        k += 1;
    }
    let results_json = Json::Array(results);
    proof {
        lemma_array_view(names_json);
        lemma_array_view(results_json);
        assert(names_json@->Array_0 =~= metrics@.map_values(
            |m: MetricKind| JsonView::Str(m.spec_name()),
        ));
        assert(results_json@->Array_0 =~= rows@.map_values(
            |r: CompareRow| row_value(metrics@, build, r),
        ));
    }
    let mut m: Members = Vec::new();
    m.push((copy("metrics"), names_json));
    m.push((copy("results"), results_json));
    let v = Json::Object(m);
    proof {
        lemma_object_view(v);
        assert(members(m@) =~= report_value(metrics@, build, rows@)->Object_0);
    }
    v
}

/// The rows go through the references in order, and for each of them through the
/// variants in order; each has the scores of its own pair.
pub proof fn law_compare_row_of_pair(
    row: CompareRow,
    references: Seq<String>,
    variants: Seq<String>,
    metrics: nat,
    cells: Seq<Cell>,
    i: int,
    j: int,
    m: int,
)
    requires
        0 <= i < references.len(),
        0 <= j < variants.len(),
        0 <= m < metrics,
        cells.len() == references.len() * variants.len() * metrics,
        row_for(row, references, variants, metrics, cells, i * variants.len() + j),
    ensures
        row.reference@ == references[i]@,
        row.variant@ == variants[j]@,
        row.scores@.len() == metrics,
        cell_view(row.scores@[m]) == cell_view(
            cells[(i * variants.len() + j) * metrics + m],
        ),
{
    let n = variants.len() as int;
    let r = references.len() as int;
    let k = i * n + j;
    assert(k / n == i && k % n == j) by (nonlinear_arith)
        requires
            0 <= j < n,
            k == i * n + j,
    ;
    assert(0 <= k < r * n) by (nonlinear_arith)
        requires
            0 <= i < r,
            0 <= j < n,
            k == i * n + j,
    ;
    assert(0 <= k * metrics && k * metrics + metrics <= r * n * metrics) by (nonlinear_arith)
        requires
            0 <= k < r * n,
            0 <= metrics,
    ;
    let all = cell_views(cells);
    let part = all.subrange(k * metrics, k * metrics + metrics);
    assert(all.len() == cells.len());
    assert(part.len() == metrics);
    assert(cell_views(row.scores@).len() == row.scores@.len());
    assert(cell_views(row.scores@)[m] == part[m]);
    assert(part[m] == all[k * metrics + m]);
}

/// How many columns the metrics before this one fill.
pub open spec fn columns_before(metrics: Seq<MetricKind>, i: int) -> int
    decreases i,
{
    if i <= 0 {
        0
    } else {
        columns_before(metrics, i - 1) + metrics[i - 1].width()
    }
}

proof fn lemma_columns_before(metrics: Seq<MetricKind>, i: int, n: int)
    requires
        0 <= i < n <= metrics.len(),
    ensures
        0 <= columns_before(metrics, i),
        columns_before(metrics, i) + metrics[i].width() <= columns_before(metrics, n),
    decreases n,
{
    if i + 1 < n {
        lemma_columns_before(metrics, i, n - 1);
    } else if i > 0 {
        lemma_columns_before(metrics, 0, i);
    }
}

proof fn lemma_metric_column(metrics: Seq<MetricKind>, build: Build, n: int, i: int, j: int)
    requires
        0 <= i < n <= metrics.len(),
        0 <= j < metrics[i].width(),
    ensures
        metric_columns(metrics.take(n), build).len() == columns_before(metrics, n),
        metric_columns(metrics.take(n), build)[columns_before(metrics, i) + j]
            == metrics[i].columns(build)[j],
    decreases n,
{
    lemma_metric_columns_len(metrics, build, n - 1);
    assert(metrics.take(n).drop_last() =~= metrics.take(n - 1));
    assert(metrics.take(n).last() == metrics[n - 1]);
    lemma_columns_before(metrics, i, n);
    if i < n - 1 {
        lemma_metric_column(metrics, build, n - 1, i, j);
        lemma_columns_before(metrics, i, n - 1);
    }
}

proof fn lemma_metric_columns_len(metrics: Seq<MetricKind>, build: Build, n: int)
    requires
        0 <= n <= metrics.len(),
    ensures
        metric_columns(metrics.take(n), build).len() == columns_before(metrics, n),
    decreases n,
{
    if n > 0 {
        lemma_metric_columns_len(metrics, build, n - 1);
        assert(metrics.take(n).drop_last() =~= metrics.take(n - 1));
        assert(metrics.take(n).last() == metrics[n - 1]);
    }
}

proof fn lemma_row_texts_taken(
    metrics: Seq<MetricKind>,
    cells: Seq<Result<Seq<ScoreView>, Seq<char>>>,
    n: int,
)
    requires
        cells_fit(metrics, cells),
        0 <= n <= cells.len(),
    ensures
        row_texts(metrics, cells.take(n)).len() == columns_before(metrics, n),
    decreases n,
{
    if n > 0 {
        lemma_row_texts_taken(metrics, cells, n - 1);
        assert(cells.take(n).drop_last() =~= cells.take(n - 1));
        assert(cells.take(n).last() == cells[n - 1]);
        assert(cell_texts(metrics[n - 1], cells[n - 1]).len() == metrics[n - 1].width());
    }
}

proof fn lemma_row_text(
    metrics: Seq<MetricKind>,
    cells: Seq<Result<Seq<ScoreView>, Seq<char>>>,
    n: int,
    i: int,
    j: int,
)
    requires
        cells_fit(metrics, cells),
        0 <= i < n <= cells.len(),
        0 <= j < metrics[i].width(),
    ensures
        row_texts(metrics, cells.take(n))[columns_before(metrics, i) + j] == cell_texts(
            metrics[i],
            cells[i],
        )[j],
    decreases n,
{
    lemma_row_texts_taken(metrics, cells, n - 1);
    assert(cells.take(n).drop_last() =~= cells.take(n - 1));
    assert(cells.take(n).last() == cells[n - 1]);
    lemma_columns_before(metrics, i, n);
    if i < n - 1 {
        lemma_row_text(metrics, cells, n - 1, i, j);
        lemma_columns_before(metrics, i, n - 1);
    }
}

/// In a line each score stands under the column of its own metric, and nothing stands
/// there where the metric failed.
pub proof fn law_compared_score_under_its_column(
    metrics: Seq<MetricKind>,
    build: Build,
    cells: Seq<Result<Seq<ScoreView>, Seq<char>>>,
    i: int,
    j: int,
)
    requires
        cells_fit(metrics, cells),
        0 <= i < metrics.len(),
        0 <= j < metrics[i].width(),
    ensures
        metric_columns(metrics, build)[columns_before(metrics, i) + j] == metrics[i].columns(
            build,
        )[j],
        match cells[i] {
            Ok(v) => row_texts(metrics, cells)[columns_before(metrics, i) + j] == fixed_views(v)[j],
            Err(_) => row_texts(metrics, cells)[columns_before(metrics, i) + j].len() == 0,
        },
{
    let n = metrics.len() as int;
    lemma_metric_column(metrics, build, n, i, j);
    lemma_row_text(metrics, cells, n, i, j);
    assert(metrics.take(n) =~= metrics);
    assert(cells.take(n) =~= cells);
}

proof fn lemma_row_members_len(
    metrics: Seq<MetricKind>,
    build: Build,
    cells: Seq<Result<Seq<ScoreView>, Seq<char>>>,
    n: int,
)
    requires
        0 <= n <= cells.len(),
    ensures
        row_members(metrics, build, cells.take(n)).len() == columns_before(metrics, n),
    decreases n,
{
    if n > 0 {
        lemma_row_members_len(metrics, build, cells, n - 1);
        assert(cells.take(n).drop_last() =~= cells.take(n - 1));
    }
}

proof fn lemma_row_member(
    metrics: Seq<MetricKind>,
    build: Build,
    cells: Seq<Result<Seq<ScoreView>, Seq<char>>>,
    n: int,
    i: int,
    j: int,
)
    requires
        0 <= i < n <= cells.len(),
        n <= metrics.len(),
        0 <= j < metrics[i].width(),
    ensures
        row_members(metrics, build, cells.take(n))[columns_before(metrics, i) + j]
            == cell_members(metrics[i], build, cells[i])[j],
    decreases n,
{
    lemma_row_members_len(metrics, build, cells, n - 1);
    assert(cells.take(n).drop_last() =~= cells.take(n - 1));
    assert(cells.take(n).last() == cells[n - 1]);
    lemma_columns_before(metrics, i, n);
    if i < n - 1 {
        lemma_row_member(metrics, build, cells, n - 1, i, j);
        lemma_columns_before(metrics, i, n - 1);
    }
}

/// In the report each score is a member named after the column of its own metric, and
/// null where the metric failed.
pub proof fn law_reported_score_named_after_column(
    metrics: Seq<MetricKind>,
    build: Build,
    cells: Seq<Result<Seq<ScoreView>, Seq<char>>>,
    i: int,
    j: int,
)
    requires
        cells_fit(metrics, cells),
        0 <= i < metrics.len(),
        0 <= j < metrics[i].width(),
    ensures
        row_members(metrics, build, cells)[columns_before(metrics, i) + j].0
            == metrics[i].columns(build)[j],
        match cells[i] {
            Ok(v) => row_members(metrics, build, cells)[columns_before(metrics, i) + j].1
                == number_view(v[j].1),
            Err(_) => row_members(metrics, build, cells)[columns_before(metrics, i) + j].1
                == JsonView::Null,
        },
{
    let n = metrics.len() as int;
    lemma_row_member(metrics, build, cells, n, i, j);
    assert(cells.take(n) =~= cells);
}

/// The report names the metrics in their order and has a result for each row, with the
/// two images that it compares.
pub proof fn law_report_has_every_row(
    metrics: Seq<MetricKind>,
    build: Build,
    rows: Seq<CompareRow>,
    i: int,
    j: int,
)
    requires
        0 <= i < metrics.len(),
        0 <= j < rows.len(),
    ensures
        report_value(metrics, build, rows) matches JsonView::Object(m) && {
            &&& m[0].0 == "metrics"@ && m[1].0 == "results"@
            &&& m[0].1 matches JsonView::Array(names) && names.len() == metrics.len() && names[i]
                == JsonView::Str(metrics[i].spec_name())
            &&& m[1].1 matches JsonView::Array(results) && results.len() == rows.len()
            &&& m[1].1->Array_0[j] matches JsonView::Object(r) && {
                &&& r.contains(("reference"@, JsonView::Str(rows[j].reference@)))
                &&& r.contains(("variant"@, JsonView::Str(rows[j].variant@)))
                &&& r.contains(
                    (
                        "scores"@,
                        JsonView::Object(
                            row_members(metrics, build, cell_views(rows[j].scores@)),
                        ),
                    ),
                )
            }
        },
{
    let r = row_value(metrics, build, rows[j])->Object_0;
    assert(r[0].0 == "reference"@ && r[1].0 == "scores"@ && r[2].0 == "variant"@);
}

} // verus!
