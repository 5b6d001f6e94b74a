//! Running a sweep: what is done for one cell, what is written for it, and what
//! the whole run counts.
//!
//! Encoding, saving, decoding and scoring happen elsewhere. [`compute_cell`] is
//! given what has come back so far and says what to do next, until the cell is
//! done. Cells are independent of one another, so they can run in any order.

use crate::decode::{decode_image_to_rgb8, decodes_to, format_of, full, outcome, Rgb8Image};
use crate::metrics::dispatch::Build;
use crate::metrics::kind::{has_metric, str_views, GpuRuntime, MetricKind, ZensimFeatureRegime};
use crate::orchestrator_runner::{eligible, metric_orchestrator_eligible};
use crate::sweep::encode::{encode, plan_fault, plan_for, CodecKind, EncodePlan};
use crate::sweep::grid::{
    canonical, countable, law_tuple_count, product, tuple_views, tuples, KnobGrid, KnobTuple,
    TupleView,
};
use crate::sweep::plan::PlannedCell;
use crate::text::{
    copy, decimal, hex16, lemma_views_push, opt_text, same, show_hex, show_usize, trim, trimmed,
    views,
};
use std::collections::hash_map::DefaultHasher;
use std::hash::{Hash, Hasher};
use vstd::prelude::*;

verus! {

// ── Configuration ──────────────────────────────────────────────────────

/// A plan that the codec's own planner is asked for.
#[derive(Debug)]
pub struct PlanSpec {
    pub name: String,
    pub budget: Option<usize>,
}

/// What a sweep does. Paths and qualities are texts.
#[derive(Debug)]
pub struct SweepConfig {
    pub codec: CodecKind,
    pub sources: Vec<String>,
    pub q_grid: Vec<String>,
    pub knob_grid: KnobGrid,
    /// Takes the place of the knob grid, which must then be empty.
    pub plan: Option<PlanSpec>,
    pub metrics: Vec<MetricKind>,
    pub gpu_runtime: GpuRuntime,
    pub output: String,
    /// Where the feature vectors of zensim go.
    pub feature_output: Option<String>,
    pub feature_regime: ZensimFeatureRegime,
    /// Where decoded cells are kept.
    pub distorted_out_dir: Option<String>,
    /// Where encoded cells are kept.
    pub encoded_out_dir: Option<String>,
    /// Where the pairs of source and decoded image are listed.
    pub pairs_tsv: Option<String>,
    /// The number of threads; 0 leaves the choice to the machine.
    pub jobs: usize,
}

// ── Units of work ──────────────────────────────────────────────────────

/// One cell of the sweep, for every source image.
#[derive(Debug)]
pub enum SweepUnit {
    /// A quality and a tuple of knobs.
    Tuple(String, KnobTuple),
    /// A cell of a plan.
    Planned(PlannedCell),
}

impl SweepUnit {
    /// The quality, as text.
    pub open spec fn spec_q(&self) -> Seq<char> {
        match self {
            SweepUnit::Tuple(q, _) => q@,
            SweepUnit::Planned(c) => c.q@,
        }
    }

    /// The text under which the cell's knobs are written.
    pub open spec fn spec_knobs(&self) -> Seq<char> {
        match self {
            SweepUnit::Tuple(_, t) => canonical(t@),
            SweepUnit::Planned(c) => c.knob_json@,
        }
    }

    /// The quality, as text.
    pub fn q(&self) -> (r: &str)
        ensures
            r@ == self.spec_q(),
    {
        match self {
            SweepUnit::Tuple(q, _) => q.as_str(),
            SweepUnit::Planned(c) => c.q.as_str(),
        }
    }

    /// The text under which the cell's knobs are written.
    pub fn knob_json(&self) -> (r: String)
        ensures
            r@ == self.spec_knobs(),
    {
        match self {
            SweepUnit::Tuple(_, t) => t.to_canonical_json(),
            SweepUnit::Planned(c) => copy(c.knob_json.as_str()),
        }
    }

    /// The settings of a cell of knobs; none for a planned cell, whose settings
    /// the planner holds.
    pub fn encode_cell(&self, codec: CodecKind) -> (r: Result<Option<EncodePlan>, String>)
        ensures
            match self {
                SweepUnit::Planned(_) => r matches Ok(p) && p is None,
                SweepUnit::Tuple(_, t) => match r {
                    Ok(p) => p is Some && plan_fault(codec, t@) is None && plan_for(
                        p->0,
                        codec,
                        t@,
                    ),
                    Err(e) => plan_fault(codec, t@) == Some(e@),
                },
            },
    {
        match self {
            SweepUnit::Planned(_) => Ok(None),
            SweepUnit::Tuple(_, t) => match encode(codec, &t.0) {
                Ok(p) => Ok(Some(p)),
                Err(e) => Err(e),
            },
        }
    }
}

/// The cell of a quality and a tuple.
pub type UnitView = (Seq<char>, TupleView);

/// One quality with every tuple in turn.
pub open spec fn units_at(q: Seq<char>, ts: Seq<TupleView>) -> Seq<UnitView> {
    ts.map_values(|t: TupleView| (q, t))
}

/// Every quality with every tuple in turn.
pub open spec fn grid_units(qs: Seq<Seq<char>>, ts: Seq<TupleView>) -> Seq<UnitView>
    decreases qs.len(),
{
    if qs.len() == 0 {
        Seq::<UnitView>::empty()
    } else {
        grid_units(qs.drop_last(), ts) + units_at(qs.last(), ts)
    }
}

/// Are these the cells of the grid, in order?
pub open spec fn is_grid(units: Seq<SweepUnit>, cells: Seq<UnitView>) -> bool {
    &&& units.len() == cells.len()
    &&& forall|i: int|
        0 <= i < units.len() ==> (#[trigger] units[i] matches SweepUnit::Tuple(q, t) && q@
            == cells[i].0 && t@ == cells[i].1)
}

/// The cells of the grid: every quality with every tuple in turn.
pub fn tuple_units(cfg: &SweepConfig) -> (r: Vec<SweepUnit>)
    ensures
        is_grid(r@, grid_units(views(cfg.q_grid@), tuples(cfg.knob_grid@))),
{
    let all = cfg.knob_grid.iter_tuples();
    let ghost ts = tuple_views(all@);
    let ghost qs = views(cfg.q_grid@);
    let mut out: Vec<SweepUnit> = Vec::new();
    let mut i: usize = 0;
    while i < cfg.q_grid.len()
        invariant
            i <= cfg.q_grid.len(),
            qs == views(cfg.q_grid@),
            ts == tuple_views(all@),
            is_grid(out@, grid_units(qs.take(i as int), ts)),
        decreases cfg.q_grid.len() - i,
    {
        let ghost base = grid_units(qs.take(i as int), ts);
        let ghost row = units_at(qs[i as int], ts);
        assert(qs.take(i + 1).drop_last() =~= qs.take(i as int));
        let mut j: usize = 0;
        while j < all.len()
            invariant
                i < cfg.q_grid.len(),
                j <= all.len(),
                qs == views(cfg.q_grid@),
                ts == tuple_views(all@),
                row == units_at(qs[i as int], ts),
                is_grid(out@, base + row.take(j as int)),
            decreases all.len() - j,
        {
            let ghost before = out@;
            out.push(SweepUnit::Tuple(copy(cfg.q_grid[i].as_str()), all[j].duplicate()));
            assert(row[j as int] == (qs[i as int], all@[j as int]@));
            let ghost next = base + row.take(j + 1);
            assert forall|k: int| 0 <= k < out@.len() implies (#[trigger] out@[k] matches SweepUnit::Tuple(
                q,
                t,
            ) && q@ == next[k].0 && t@ == next[k].1) by {
                if k < before.len() {
                    assert(out@[k] == before[k]);
                    assert((base + row.take(j as int))[k] == next[k]);
                } else {
                    assert(next[k] == row[j as int]);
                }
            }
            j += 1;
        }
        assert(row.take(j as int) =~= row);
        i += 1;
    }
    assert(qs.take(i as int) =~= qs);
    out
}

proof fn lemma_grid_units_len(qs: Seq<Seq<char>>, ts: Seq<TupleView>)
    ensures
        grid_units(qs, ts).len() == qs.len() * ts.len(),
    decreases qs.len(),
{
    if qs.len() > 0 {
        lemma_grid_units_len(qs.drop_last(), ts);
        assert((qs.len() - 1) * ts.len() + ts.len() == qs.len() * ts.len()) by (nonlinear_arith);
    }
}

/// A sweep over a grid visits every pair of a quality and a tuple of knobs once
/// for each image: the number of qualities times the number of tuples.
pub proof fn law_grid_unit_count(qs: Seq<Seq<char>>, ts: Seq<TupleView>, i: int, j: int)
    requires
        0 <= i < qs.len(),
        0 <= j < ts.len(),
    ensures
        grid_units(qs, ts).len() == qs.len() * ts.len(),
        0 <= i * ts.len() + j < grid_units(qs, ts).len(),
        grid_units(qs, ts)[i * ts.len() + j] == (qs[i], ts[j]),
    decreases qs.len(),
{
    lemma_grid_units_len(qs, ts);
    let n = ts.len();
    let before = qs.drop_last();
    lemma_grid_units_len(before, ts);
    assert(0 <= i * n + j < qs.len() * n) by (nonlinear_arith)
        requires
            0 <= i < qs.len(),
            0 <= j < n,
    ;
    if i < before.len() {
        law_grid_unit_count(before, ts, i, j);
        assert(before[i] == qs[i]);
    } else {
        assert(i * n == before.len() * n);
        assert(grid_units(qs, ts)[i * n + j] == units_at(qs.last(), ts)[j]);
    }
}

// ── Rows ───────────────────────────────────────────────────────────────

/// The texts that lead every row: source, codec, quality and knobs.
pub open spec fn identity_cells(
    codec: CodecKind,
    src: Seq<char>,
    q: Seq<char>,
    knobs: Seq<char>,
) -> Seq<Seq<char>> {
    seq![src, codec.spec_name(), q, knobs]
}

/// The number of score columns of the metrics.
pub open spec fn column_total(metrics: Seq<MetricKind>) -> nat
    decreases metrics.len(),
{
    if metrics.len() == 0 {
        0
    } else {
        column_total(metrics.drop_last()) + metrics.last().width()
    }
}

/// `n` empty cells.
pub open spec fn blanks(n: nat) -> Seq<Seq<char>> {
    Seq::new(n, |i: int| Seq::<char>::empty())
}

/// The columns that come before the scores.
pub open spec fn lead_columns() -> Seq<Seq<char>> {
    seq![
        "image_path"@,
        "codec"@,
        "q"@,
        "knob_tuple_json"@,
        "encoded_bytes"@,
        "encode_ms"@,
        "encoded_filename"@,
        "decode_ms"@,
    ]
}

/// The score columns of one metric.
pub open spec fn score_names(kind: MetricKind, build: Build) -> Seq<Seq<char>> {
    kind.columns(build).map_values(|c: Seq<char>| "score_"@ + c)
}

/// The score columns of the metrics.
pub open spec fn score_columns(metrics: Seq<MetricKind>, build: Build) -> Seq<Seq<char>>
    decreases metrics.len(),
{
    if metrics.len() == 0 {
        Seq::<Seq<char>>::empty()
    } else {
        score_columns(metrics.drop_last(), build) + score_names(metrics.last(), build)
    }
}

/// The header of the output.
pub open spec fn header(metrics: Seq<MetricKind>, build: Build) -> Seq<Seq<char>> {
    lead_columns() + score_columns(metrics, build)
}

/// The header has one score column for each column of each metric.
pub proof fn lemma_header_len(metrics: Seq<MetricKind>, build: Build)
    ensures
        header(metrics, build).len() == 8 + column_total(metrics),
        score_columns(metrics, build).len() == column_total(metrics),
    decreases metrics.len(),
{
    if metrics.len() > 0 {
        lemma_header_len(metrics.drop_last(), build);
    }
}

/// Adds a text to a row.
fn add_cell(row: &mut Vec<String>, s: &str)
    ensures
        views(final(row)@) == views(old(row)@).push(s@),
{
    let c = copy(s);
    proof {
        lemma_views_push(row@, c);
    }
    row.push(c);
}

/// Adds empty cells for the columns of all the metrics.
fn add_blanks(row: &mut Vec<String>, metrics: &Vec<MetricKind>)
    ensures
        views(final(row)@) == views(old(row)@) + blanks(column_total(metrics@)),
{
    let ghost base = views(row@);
    let mut i: usize = 0;
    assert(base + blanks(0) =~= base);
    while i < metrics.len()
        invariant
            i <= metrics.len(),
            views(row@) == base + blanks(column_total(metrics@.take(i as int))),
        decreases metrics.len() - i,
    {
        let ghost t = metrics@.take(i + 1);
        assert(t.drop_last() =~= metrics@.take(i as int));
        add_metric_blanks(row, metrics[i]);
        assert(views(row@) =~= base + blanks(column_total(t)));
        i += 1;
    }
    assert(metrics@.take(i as int) =~= metrics@);
}

/// Adds empty cells for the columns of one metric.
fn add_metric_blanks(row: &mut Vec<String>, kind: MetricKind)
    ensures
        views(final(row)@) == views(old(row)@) + blanks(kind.width()),
{
    let ghost base = views(row@);
    let n: usize = kind.column_count();
    let mut i: usize = 0;
    assert(base + blanks(0) =~= base);
    while i < n
        invariant
            i <= n,
            views(row@) == base + blanks(i as nat),
        decreases n - i,
    {
        add_cell(row, "");
        proof {
            reveal_strlit("");
            assert(""@ =~= Seq::<char>::empty());
        }
        i += 1;
        assert(views(row@) =~= base + blanks(i as nat));
    }
}

/// The header of the output.
pub fn write_header(metrics: &Vec<MetricKind>, build: Build) -> (r: Vec<String>)
    ensures
        views(r@) == header(metrics@, build),
{
    let mut row: Vec<String> = Vec::new();
    assert(views(row@) =~= Seq::<Seq<char>>::empty());
    add_cell(&mut row, "image_path");
    add_cell(&mut row, "codec");
    add_cell(&mut row, "q");
    add_cell(&mut row, "knob_tuple_json");
    add_cell(&mut row, "encoded_bytes");
    add_cell(&mut row, "encode_ms");
    add_cell(&mut row, "encoded_filename");
    add_cell(&mut row, "decode_ms");
    assert(views(row@) =~= lead_columns());
    assert(lead_columns() + score_columns(metrics@.take(0), build) =~= lead_columns());
    let mut i: usize = 0;
    while i < metrics.len()
        invariant
            i <= metrics.len(),
            views(row@) == lead_columns() + score_columns(metrics@.take(i as int), build),
        decreases metrics.len() - i,
    {
        let ghost t = metrics@.take(i + 1);
        assert(t.drop_last() =~= metrics@.take(i as int));
        let ghost base = views(row@);
        let names = metrics[i].column_names(build);
        let ghost cols = metrics@[i as int].columns(build);
        assert(names@.len() == str_views(names@).len());
        let mut j: usize = 0;
        assert(base + score_names(metrics@[i as int], build).take(0) =~= base);
        while j < names.len()
            invariant
                i < metrics.len(),
                j <= names.len(),
                cols == metrics@[i as int].columns(build),
                str_views(names@) == cols,
                names@.len() == cols.len(),
                views(row@) == base + score_names(metrics@[i as int], build).take(j as int),
            decreases names.len() - j,
        {
            let mut c: String = copy("score_");
            assert(str_views(names@)[j as int] == names@[j as int]@);
            c.append(names[j]);
            add_cell(&mut row, c.as_str());
            j += 1;
            assert(views(row@) =~= base + score_names(metrics@[i as int], build).take(j as int));
        }
        assert(score_names(metrics@[i as int], build).take(j as int) =~= score_names(metrics@[i as int], build));
        assert(views(row@) =~= lead_columns() + score_columns(t, build));
        i += 1;
    }
    assert(metrics@.take(i as int) =~= metrics@);
    row
}

/// The header of the list of pairs.
pub open spec fn pairs_columns() -> Seq<Seq<char>> {
    seq!["image_path"@, "codec"@, "q"@, "knob_tuple_json"@, "ref_path"@, "dist_path"@]
}

/// The header of the list of pairs.
pub fn pairs_header() -> (r: Vec<String>)
    ensures
        views(r@) == pairs_columns(),
{
    let mut row: Vec<String> = Vec::new();
    assert(views(row@) =~= Seq::<Seq<char>>::empty());
    add_cell(&mut row, "image_path");
    add_cell(&mut row, "codec");
    add_cell(&mut row, "q");
    add_cell(&mut row, "knob_tuple_json");
    add_cell(&mut row, "ref_path");
    add_cell(&mut row, "dist_path");
    assert(views(row@) =~= pairs_columns());
    row
}

// ── One cell ───────────────────────────────────────────────────────────

/// The encoder's reply.
#[derive(Debug)]
pub struct Encoded {
    pub bytes: usize,
    /// The time it took, as text.
    pub ms: String,
}

/// The decoder's reply.
#[derive(Debug)]
pub struct Decoded {
    pub width: u32,
    pub height: u32,
    /// The time it took, as text.
    pub ms: String,
}

/// The features of a cell, in single precision as their bits.
#[derive(Debug)]
pub struct FeatureVector {
    pub score: u32,
    pub features: Vec<u32>,
}

/// A scorer's reply: its numbers as texts.
#[derive(Debug)]
pub enum Scored {
    Failed,
    Values(Vec<String>),
    /// The score of zensim as text, with its features.
    WithFeatures(String, FeatureVector),
}

/// Everything that has come back for a cell. Each reply is present once its
/// action was done.
#[derive(Debug)]
pub struct CellReplies {
    /// `Some(None)` where encoding failed.
    pub encoded: Option<Option<Encoded>>,
    /// The name of the kept file; `Some(None)` where it could not be written.
    pub saved: Option<Option<String>>,
    /// `Some(None)` where decoding failed.
    pub decoded: Option<Option<Decoded>>,
    /// One for each metric that was scored, in order.
    pub scores: Vec<Scored>,
    /// The path of the kept image; `Some(None)` where it could not be written.
    pub distorted: Option<Option<String>>,
}

/// How a metric of a cell is scored.
#[derive(Debug, Clone, Copy, PartialEq, Eq, Structural)]
pub enum ScoreRoute {
    /// Zensim on the CPU, with its features.
    CpuFeatures,
    /// Through the orchestrator.
    Orchestrator,
    /// Zensim on the GPU, with its features.
    GpuFeatures,
    /// Through the cache of metric instances.
    Cached,
}

/// What is known about the sweep when a cell is scored.
#[derive(Debug, Clone, Copy, PartialEq, Eq, Structural)]
pub struct ScoreContext {
    pub cpu_features: bool,
    pub gpu_features: bool,
    pub orchestrator: bool,
}

/// Features are wanted from the GPU where GPU zensim is among the metrics, else
/// from the CPU where CPU zensim is; and from neither when nobody asked for them.
pub open spec fn context_of(cfg: SweepConfig, orchestrator: bool) -> ScoreContext {
    let cpu = cfg.metrics@.contains(MetricKind::Zensim);
    let gpu = cfg.metrics@.contains(MetricKind::ZensimGpu);
    ScoreContext {
        cpu_features: cfg.feature_output is Some && cpu && !gpu,
        gpu_features: cfg.feature_output is Some && gpu,
        orchestrator,
    }
}

/// What is known about the sweep when a cell is scored.
pub fn score_context(cfg: &SweepConfig, orchestrator: bool) -> (r: ScoreContext)
    ensures
        r == context_of(*cfg, orchestrator),
{
    let cpu = has_metric(cfg.metrics.as_slice(), MetricKind::Zensim);
    let gpu = has_metric(cfg.metrics.as_slice(), MetricKind::ZensimGpu);
    let wanted = cfg.feature_output.is_some();
    ScoreContext { cpu_features: wanted && cpu && !gpu, gpu_features: wanted && gpu, orchestrator }
}

/// How a metric is scored. The orchestrator yields no features, so a metric whose
/// features are wanted does not go through it.
pub open spec fn route(kind: MetricKind, c: ScoreContext) -> ScoreRoute {
    if kind == MetricKind::Zensim && c.cpu_features {
        ScoreRoute::CpuFeatures
    } else if kind == MetricKind::ZensimGpu && c.gpu_features {
        ScoreRoute::GpuFeatures
    } else if c.orchestrator && eligible(kind) {
        ScoreRoute::Orchestrator
    } else {
        ScoreRoute::Cached
    }
}

/// How a metric is scored.
pub fn score_route(kind: MetricKind, c: ScoreContext) -> (r: ScoreRoute)
    ensures
        r == route(kind, c),
{
    if kind == MetricKind::Zensim && c.cpu_features {
        ScoreRoute::CpuFeatures
    } else if c.orchestrator && !(kind == MetricKind::ZensimGpu && c.gpu_features)
        && metric_orchestrator_eligible(kind) {
        ScoreRoute::Orchestrator
    } else if kind == MetricKind::ZensimGpu && c.gpu_features {
        ScoreRoute::GpuFeatures
    } else {
        ScoreRoute::Cached
    }
}

/// At most one of the two zensim metrics yields features.
pub proof fn law_one_feature_source(cfg: SweepConfig, orchestrator: bool, a: MetricKind, b: MetricKind)
    ensures
        !(route(a, context_of(cfg, orchestrator)) == ScoreRoute::CpuFeatures && route(
            b,
            context_of(cfg, orchestrator),
        ) == ScoreRoute::GpuFeatures),
{
}

/// What to do next for a cell.
#[derive(Debug)]
pub enum CellStep {
    Encode,
    SaveEncoded,
    DecodeBack,
    /// Score the metric with this index.
    Score(usize, ScoreRoute),
    SaveDistorted,
    Done(CellOutcome),
}

/// What came of a cell.
#[derive(Debug)]
pub enum CellOutcome {
    Complete {
        row: Vec<String>,
        /// The index of the metric whose reply holds the features of the cell.
        feature: Option<usize>,
        pair_row: Option<Vec<String>>,
        score_failed: bool,
    },
    EncodeFailed { row: Vec<String> },
    DecodeFailed { row: Vec<String> },
}

/// The text of an optional string, empty when there is none.
pub open spec fn or_blank(o: Option<Option<String>>) -> Seq<char> {
    match o {
        Some(Some(s)) => s@,
        _ => Seq::<char>::empty(),
    }
}

/// The cells of a row up to the name of the kept file.
pub open spec fn encoded_cells(
    id: Seq<Seq<char>>,
    e: Encoded,
    saved: Option<Option<String>>,
) -> Seq<Seq<char>> {
    id + seq![decimal(e.bytes as nat), e.ms@, or_blank(saved)]
}

/// The cells that a scorer's reply fills.
pub open spec fn score_cells(kind: MetricKind, s: Scored) -> Seq<Seq<char>> {
    match s {
        Scored::Failed => blanks(kind.width()),
        Scored::Values(v) => views(v@),
        Scored::WithFeatures(v, _) => seq![v@],
    }
}

/// The cells that the replies of the first metrics fill.
pub open spec fn all_score_cells(metrics: Seq<MetricKind>, scores: Seq<Scored>) -> Seq<Seq<char>>
    decreases scores.len(),
{
    if scores.len() == 0 {
        Seq::<Seq<char>>::empty()
    } else {
        all_score_cells(metrics, scores.drop_last()) + score_cells(
            metrics[scores.len() - 1],
            scores.last(),
        )
    }
}

/// The index of the last reply that holds wanted features.
pub open spec fn feature_index(
    metrics: Seq<MetricKind>,
    c: ScoreContext,
    scores: Seq<Scored>,
) -> Option<usize>
    decreases scores.len(),
{
    if scores.len() == 0 {
        None
    } else {
        let r = route(metrics[scores.len() - 1], c);
        if scores.last() is WithFeatures && (r == ScoreRoute::CpuFeatures || r
            == ScoreRoute::GpuFeatures) {
            Some((scores.len() - 1) as usize)
        } else {
            feature_index(metrics, c, scores.drop_last())
        }
    }
}

/// Did some metric fail?
pub open spec fn any_failed(scores: Seq<Scored>) -> bool {
    exists|i: int| 0 <= i < scores.len() && (#[trigger] scores[i]) is Failed
}

/// The row of the list of pairs.
pub open spec fn pair_cells(
    codec: CodecKind,
    src: Seq<char>,
    q: Seq<char>,
    knobs: Seq<char>,
    distorted: Option<Option<String>>,
) -> Seq<Seq<char>> {
    seq![src, codec.spec_name(), q, knobs, src, or_blank(distorted)]
}

/// Is this the next step for a cell, given the replies so far?
///
/// The cell is encoded; where encoded cells are kept it is saved; it is decoded
/// back; every metric is scored in turn; and where pairs are listed and decoded
/// images kept, the image is saved. A cell that cannot be encoded, cannot be
/// decoded or comes back in another size is done at that point, with blanks for
/// everything that is missing.
pub open spec fn step_for(
    step: CellStep,
    cfg: SweepConfig,
    orchestrator: bool,
    src: Seq<char>,
    width: u32,
    height: u32,
    q: Seq<char>,
    knobs: Seq<char>,
    r: CellReplies,
) -> bool {
    let id = identity_cells(cfg.codec, src, q, knobs);
    let none = blanks(column_total(cfg.metrics@));
    let c = context_of(cfg, orchestrator);
    match r.encoded {
        None => step is Encode,
        Some(None) => step matches CellStep::Done(CellOutcome::EncodeFailed { row }) && views(row@)
            == id + blanks(4) + none,
        Some(Some(e)) => if cfg.encoded_out_dir is Some && r.saved is None {
            step is SaveEncoded
        } else {
            let lead = encoded_cells(
                id,
                e,
                if cfg.encoded_out_dir is Some {
                    r.saved
                } else {
                    None
                },
            );
            match r.decoded {
                None => step is DecodeBack,
                Some(None) => step matches CellStep::Done(CellOutcome::DecodeFailed { row })
                    && views(row@) == lead + blanks(1) + none,
                Some(Some(d)) => if d.width != width || d.height != height {
                    step matches CellStep::Done(CellOutcome::DecodeFailed { row }) && views(row@)
                        == lead.push(d.ms@) + none
                } else if r.scores@.len() < cfg.metrics@.len() {
                    step matches CellStep::Score(i, how) && i == r.scores@.len() && how == route(
                        cfg.metrics@[i as int],
                        c,
                    )
                } else if cfg.distorted_out_dir is Some && r.distorted is None {
                    step is SaveDistorted
                } else {
                    step matches CellStep::Done(
                        CellOutcome::Complete { row, feature, pair_row, score_failed },
                    ) && {
                        &&& views(row@) == lead.push(d.ms@) + all_score_cells(
                            cfg.metrics@,
                            r.scores@,
                        )
                        &&& feature == feature_index(cfg.metrics@, c, r.scores@)
                        &&& score_failed == any_failed(r.scores@)
                        &&& pair_row is Some <==> cfg.pairs_tsv is Some
                        &&& pair_row matches Some(p) ==> views(p@) == pair_cells(
                            cfg.codec,
                            src,
                            q,
                            knobs,
                            if cfg.distorted_out_dir is Some {
                                r.distorted
                            } else {
                                None
                            },
                        )
                    }
                },
            }
        },
    }
}

/// The texts that lead every row.
fn identity_row(codec: CodecKind, src: &str, q: &str, knobs: &str) -> (r: Vec<String>)
    ensures
        views(r@) == identity_cells(codec, src@, q@, knobs@),
{
    let mut row: Vec<String> = Vec::new();
    assert(views(row@) =~= Seq::<Seq<char>>::empty());
    add_cell(&mut row, src);
    add_cell(&mut row, codec.name());
    add_cell(&mut row, q);
    add_cell(&mut row, knobs);
    assert(views(row@) =~= identity_cells(codec, src@, q@, knobs@));
    row
}

/// Adds `n` empty cells.
fn add_empty(row: &mut Vec<String>, n: usize)
    ensures
        views(final(row)@) == views(old(row)@) + blanks(n as nat),
{
    let ghost base = views(row@);
    let mut i: usize = 0;
    assert(base + blanks(0) =~= base);
    while i < n
        invariant
            i <= n,
            views(row@) == base + blanks(i as nat),
        decreases n - i,
    {
        add_cell(row, "");
        proof {
            reveal_strlit("");
            assert(""@ =~= Seq::<char>::empty());
        }
        i += 1;
        assert(views(row@) =~= base + blanks(i as nat));
    }
}

/// Adds the text of an optional string, an empty one when there is none.
fn add_or_blank(row: &mut Vec<String>, o: &Option<Option<String>>)
    ensures
        views(final(row)@) == views(old(row)@).push(or_blank(*o)),
{
    match o {
        Some(Some(s)) => add_cell(row, s.as_str()),
        _ => {
            add_cell(row, "");
            proof {
                reveal_strlit("");
                assert(""@ =~= Seq::<char>::empty());
            }
        },
    }
}

/// Adds the cells that the scorers' replies fill.
fn add_scores(row: &mut Vec<String>, metrics: &Vec<MetricKind>, scores: &Vec<Scored>)
    requires
        scores@.len() <= metrics@.len(),
    ensures
        views(final(row)@) == views(old(row)@) + all_score_cells(metrics@, scores@),
{
    let ghost base = views(row@);
    let mut i: usize = 0;
    assert(base + all_score_cells(metrics@, scores@.take(0)) =~= base);
    while i < scores.len()
        invariant
            i <= scores.len() <= metrics.len(),
            views(row@) == base + all_score_cells(metrics@, scores@.take(i as int)),
        decreases scores.len() - i,
    {
        let ghost t = scores@.take(i + 1);
        assert(t.drop_last() =~= scores@.take(i as int));
        let ghost before = views(row@);
        match &scores[i] {
            Scored::Failed => {
                add_metric_blanks(row, metrics[i]);
            },
            Scored::Values(v) => {
                let mut j: usize = 0;
                assert(before + views(v@).take(0) =~= before);
                while j < v.len()
                    invariant
                        j <= v.len(),
                        views(row@) == before + views(v@).take(j as int),
                    decreases v.len() - j,
                {
                    add_cell(row, v[j].as_str());
                    j += 1;
                    assert(views(row@) =~= before + views(v@).take(j as int));
                }
                assert(views(v@).take(j as int) =~= views(v@));
            },
            Scored::WithFeatures(s, _) => {
                add_cell(row, s.as_str());
                assert(views(row@) =~= before + seq![s@]);
            },
        }
        assert(views(row@) =~= base + all_score_cells(metrics@, t));
        i += 1;
    }
    assert(scores@.take(i as int) =~= scores@);
}

/// Did some metric fail?
fn some_failed(scores: &Vec<Scored>) -> (r: bool)
    ensures
        r == any_failed(scores@),
{
    let mut i: usize = 0;
    while i < scores.len()
        invariant
            i <= scores.len(),
            forall|j: int| 0 <= j < i ==> !((#[trigger] scores@[j]) is Failed),
        decreases scores.len() - i,
    {
        match &scores[i] {
            Scored::Failed => {
                assert(scores@[i as int] is Failed);
                return true;
            },
            _ => {},
        }
        i += 1;
    }
    false
}

/// The index of the last reply that holds wanted features.
fn find_features(metrics: &Vec<MetricKind>, c: ScoreContext, scores: &Vec<Scored>) -> (r: Option<
    usize,
>)
    requires
        scores@.len() <= metrics@.len(),
    ensures
        r == feature_index(metrics@, c, scores@),
{
    let mut i: usize = scores.len();
    assert(scores@.take(i as int) =~= scores@);
    while i > 0
        invariant
            i <= scores.len() <= metrics.len(),
            feature_index(metrics@, c, scores@) == feature_index(
                metrics@,
                c,
                scores@.take(i as int),
            ),
        decreases i,
    {
        let ghost t = scores@.take(i as int);
        assert(t.drop_last() =~= scores@.take(i - 1));
        assert(t.last() == scores@[i - 1]);
        let how = score_route(metrics[i - 1], c);
        match &scores[i - 1] {
            Scored::WithFeatures(_, _) => {
                if how == ScoreRoute::CpuFeatures || how == ScoreRoute::GpuFeatures {
                    return Some(i - 1);
                }
            },
            _ => {},
        }
        i -= 1;
    }
    assert(scores@.take(0).len() == 0);
    None
}

/// The next step for a cell of the source image `src`, which is `width` by
/// `height`, given the replies so far.
pub fn compute_cell(
    cfg: &SweepConfig,
    orchestrator: bool,
    src: &str,
    width: u32,
    height: u32,
    unit: &SweepUnit,
    replies: &CellReplies,
) -> (step: CellStep)
    requires
        replies.scores@.len() <= cfg.metrics@.len(),
    ensures
        step_for(
            step,
            *cfg,
            orchestrator,
            src@,
            width,
            height,
            unit.spec_q(),
            unit.spec_knobs(),
            *replies,
        ),
{
    let encoded = match &replies.encoded {
        None => {
            return CellStep::Encode;
        },
        Some(e) => e,
    };
    let knobs = unit.knob_json();
    let q = unit.q();
    let mut row = identity_row(cfg.codec, src, q, knobs.as_str());
    let ghost id = views(row@);
    let e = match encoded {
        None => {
            add_empty(&mut row, 4);
            add_blanks(&mut row, &cfg.metrics);
            return CellStep::Done(CellOutcome::EncodeFailed { row });
        },
        Some(e) => e,
    };
    if cfg.encoded_out_dir.is_some() && replies.saved.is_none() {
        return CellStep::SaveEncoded;
    }
    let size = show_usize(e.bytes);
    add_cell(&mut row, size.as_str());
    add_cell(&mut row, e.ms.as_str());
    let nothing: Option<Option<String>> = None;
    if cfg.encoded_out_dir.is_some() {
        add_or_blank(&mut row, &replies.saved);
        assert(views(row@) =~= encoded_cells(id, *e, replies.saved));
    } else {
        add_or_blank(&mut row, &nothing);
        assert(views(row@) =~= encoded_cells(id, *e, None));
    }
    let decoded = match &replies.decoded {
        None => {
            return CellStep::DecodeBack;
        },
        Some(d) => d,
    };
    let d = match decoded {
        None => {
            add_empty(&mut row, 1);
            add_blanks(&mut row, &cfg.metrics);
            return CellStep::Done(CellOutcome::DecodeFailed { row });
        },
        Some(d) => d,
    };
    add_cell(&mut row, d.ms.as_str());
    if d.width != width || d.height != height {
        add_blanks(&mut row, &cfg.metrics);
        return CellStep::Done(CellOutcome::DecodeFailed { row });
    }
    let c = score_context(cfg, orchestrator);
    if replies.scores.len() < cfg.metrics.len() {
        let i: usize = replies.scores.len();
        return CellStep::Score(i, score_route(cfg.metrics[i], c));
    }
    if cfg.distorted_out_dir.is_some() && replies.distorted.is_none() {
        return CellStep::SaveDistorted;
    }
    add_scores(&mut row, &cfg.metrics, &replies.scores);
    let pair_row: Option<Vec<String>> = if cfg.pairs_tsv.is_some() {
        let mut pair = identity_row(cfg.codec, src, q, knobs.as_str());
        add_cell(&mut pair, src);
        if cfg.distorted_out_dir.is_some() {
            add_or_blank(&mut pair, &replies.distorted);
            assert(views(pair@) =~= pair_cells(
                cfg.codec,
                src@,
                unit.spec_q(),
                unit.spec_knobs(),
                replies.distorted,
            ));
        } else {
            add_or_blank(&mut pair, &nothing);
            assert(views(pair@) =~= pair_cells(
                cfg.codec,
                src@,
                unit.spec_q(),
                unit.spec_knobs(),
                None,
            ));
        }
        Some(pair)
    } else {
        None
    };
    let feature = find_features(&cfg.metrics, c, &replies.scores);
    let score_failed = some_failed(&replies.scores);
    CellStep::Done(CellOutcome::Complete { row, feature, pair_row, score_failed })
}

/// A cell whose work was broken off without a reply still gets a row, with
/// blanks in every column after the knobs.
pub fn broken_cell(cfg: &SweepConfig, src: &str, unit: &SweepUnit) -> (r: CellOutcome)
    ensures
        r matches CellOutcome::DecodeFailed { row } && views(row@) == identity_cells(
            cfg.codec,
            src@,
            unit.spec_q(),
            unit.spec_knobs(),
        ) + blanks(4) + blanks(column_total(cfg.metrics@)),
{
    let knobs = unit.knob_json();
    let mut row = identity_row(cfg.codec, src, unit.q(), knobs.as_str());
    add_empty(&mut row, 4);
    add_blanks(&mut row, &cfg.metrics);
    CellOutcome::DecodeFailed { row }
}

// ── Laws of a cell ─────────────────────────────────────────────────────

/// Does every reply have as many numbers as its metric has columns?
pub open spec fn scores_fit(metrics: Seq<MetricKind>, scores: Seq<Scored>) -> bool {
    &&& scores.len() <= metrics.len()
    &&& forall|i: int|
        0 <= i < scores.len() ==> match #[trigger] scores[i] {
            Scored::Failed => true,
            Scored::Values(v) => v@.len() == metrics[i].width(),
            Scored::WithFeatures(_, _) => metrics[i].width() == 1,
        }
}

proof fn lemma_score_cells_len(metrics: Seq<MetricKind>, scores: Seq<Scored>)
    requires
        scores_fit(metrics, scores),
    ensures
        all_score_cells(metrics, scores).len() == column_total(
            metrics.take(scores.len() as int),
        ),
    decreases scores.len(),
{
    if scores.len() > 0 {
        let s = scores.drop_last();
        assert forall|i: int| 0 <= i < s.len() implies match #[trigger] s[i] {
            Scored::Failed => true,
            Scored::Values(v) => v@.len() == metrics[i].width(),
            Scored::WithFeatures(_, _) => metrics[i].width() == 1,
        } by {
            assert(s[i] == scores[i]);
        }
        lemma_score_cells_len(metrics, s);
        let t = metrics.take(scores.len() as int);
        assert(t.drop_last() =~= metrics.take(s.len() as int));
        assert(t.last() == metrics[scores.len() - 1]);
        assert(scores.last() == scores[scores.len() - 1]);
    }
}

/// The row of a cell's outcome.
pub open spec fn row_of(o: CellOutcome) -> Seq<Seq<char>> {
    match o {
        CellOutcome::Complete { row, .. } => views(row@),
        CellOutcome::EncodeFailed { row } => views(row@),
        CellOutcome::DecodeFailed { row } => views(row@),
    }
}

/// Every row that a cell ends in has exactly one cell for each column of the
/// header, whatever failed on the way, and begins with the cell's identity.
pub proof fn law_row_matches_header(
    build: Build,
    step: CellStep,
    cfg: SweepConfig,
    orchestrator: bool,
    src: Seq<char>,
    width: u32,
    height: u32,
    q: Seq<char>,
    knobs: Seq<char>,
    r: CellReplies,
)
    requires
        step_for(step, cfg, orchestrator, src, width, height, q, knobs, r),
        scores_fit(cfg.metrics@, r.scores@),
    ensures
        step matches CellStep::Done(o) ==> row_of(o).len() == header(cfg.metrics@, build).len()
            && row_of(o).take(4) == identity_cells(cfg.codec, src, q, knobs),
{
    lemma_header_len(cfg.metrics@, build);
    lemma_score_cells_len(cfg.metrics@, r.scores@);
    if let CellStep::Done(o) = step {
        if r.scores@.len() == cfg.metrics@.len() {
            assert(cfg.metrics@.take(r.scores@.len() as int) =~= cfg.metrics@);
        }
        assert(row_of(o).take(4) =~= identity_cells(cfg.codec, src, q, knobs));
    }
}

/// A cell that is complete has had its decoded image written wherever a place for it
/// was given, and its encoded file too.
pub proof fn law_complete_cell_is_kept(
    step: CellStep,
    cfg: SweepConfig,
    orchestrator: bool,
    src: Seq<char>,
    width: u32,
    height: u32,
    q: Seq<char>,
    knobs: Seq<char>,
    r: CellReplies,
)
    requires
        step_for(step, cfg, orchestrator, src, width, height, q, knobs, r),
        step matches CellStep::Done(o) && o is Complete,
    ensures
        cfg.distorted_out_dir is Some ==> r.distorted is Some,
        cfg.encoded_out_dir is Some ==> r.saved is Some,
{
}

/// A step that is not the last asks for a reply that is still missing; so a cell is
/// done after each of its replies was asked for once.
pub proof fn law_cell_step_asks_for_missing(
    step: CellStep,
    cfg: SweepConfig,
    orchestrator: bool,
    src: Seq<char>,
    width: u32,
    height: u32,
    q: Seq<char>,
    knobs: Seq<char>,
    r: CellReplies,
)
    requires
        step_for(step, cfg, orchestrator, src, width, height, q, knobs, r),
    ensures
        match step {
            CellStep::Encode => r.encoded is None,
            CellStep::SaveEncoded => r.saved is None && cfg.encoded_out_dir is Some,
            CellStep::DecodeBack => r.decoded is None,
            CellStep::Score(i, _) => i == r.scores@.len() && i < cfg.metrics@.len(),
            CellStep::SaveDistorted => r.distorted is None && cfg.distorted_out_dir is Some,
            CellStep::Done(_) => r.encoded is Some,
        },
{
}

// ── Kept files ─────────────────────────────────────────────────────────

/// The name of a kept file without its extension.
pub open spec fn variant_stem(
    stem: Seq<char>,
    src_hash: u64,
    codec: CodecKind,
    q: Seq<char>,
    knob_hash: u64,
) -> Seq<char> {
    stem + "_"@ + hex16(src_hash as nat) + "_"@ + codec.spec_name() + "_q"@ + q + "_"@ + hex16(
        knob_hash as nat,
    )
}

/// The name of a kept file: it depends on the source, the codec, the quality and
/// the knobs alone, so a second run writes the same files.
pub open spec fn variant_name(
    stem: Seq<char>,
    src_hash: u64,
    codec: CodecKind,
    q: Seq<char>,
    knob_hash: u64,
    ext: Seq<char>,
) -> Seq<char> {
    variant_stem(stem, src_hash, codec, q, knob_hash) + "."@ + ext
}

/// The name of a kept file. A source without a usable file name is called
/// `source`.
pub fn variant_filename(
    stem: Option<&str>,
    src_hash: u64,
    codec: CodecKind,
    q: &str,
    knob_hash: u64,
    ext: &str,
) -> (r: String)
    ensures
        r@ == variant_name(
            match stem {
                Some(s) => s@,
                None => "source"@,
            },
            src_hash,
            codec,
            q@,
            knob_hash,
            ext@,
        ),
{
    let mut s: String = match stem {
        Some(t) => copy(t),
        None => copy("source"),
    };
    s.append("_");
    let a = show_hex(src_hash, 16);
    s.append(a.as_str());
    s.append("_");
    s.append(codec.name());
    s.append("_q");
    s.append(q);
    s.append("_");
    let b = show_hex(knob_hash, 16);
    s.append(b.as_str());
    s.append(".");
    s.append(ext);
    s
}

/// The hash of a text.
pub uninterp spec fn text_hash_of(value: Seq<char>) -> u64;

/// `finish` of std's `DefaultHasher`, which was made by `new` and was given the
/// text. All hashers that `new` makes are alike, so the number depends on the text
/// alone. The algorithm is not specified and may be another one in another release of
/// std, so nothing more is said of the number.
#[verifier::external_body]
fn text_hash(value: &str) -> (r: u64)
    ensures
        r == text_hash_of(value@),
{
    let mut hasher = DefaultHasher::new();
    value.hash(&mut hasher);
    hasher.finish()
}

/// The part of a file name that tells texts apart: the text's hash in sixteen digits.
pub fn hex_hash16(value: &str) -> (r: String)
    ensures
        r@ == hex16(text_hash_of(value@) as nat),
{
    show_hex(text_hash(value), 16)
}

/// The name of a kept file of a cell, with the hashes of the source's path and of the
/// knobs.
pub open spec fn kept_name(
    stem: Option<Seq<char>>,
    src: Seq<char>,
    codec: CodecKind,
    q: Seq<char>,
    knob_json: Seq<char>,
    ext: Seq<char>,
) -> Seq<char> {
    variant_name(
        match stem {
            Some(s) => s,
            None => "source"@,
        },
        text_hash_of(src),
        codec,
        q,
        text_hash_of(knob_json),
        ext,
    )
}

/// The name of the kept encoded file of a cell.
pub fn save_encoded_variant(
    stem: Option<&str>,
    src: &str,
    codec: CodecKind,
    q: &str,
    knob_json: &str,
) -> (r: String)
    ensures
        r@ == kept_name(opt_text(stem), src@, codec, q@, knob_json@, codec.spec_extension()),
{
    variant_filename(stem, text_hash(src), codec, q, text_hash(knob_json), codec.extension())
}

/// The name of the kept decoded image of a cell.
pub fn save_distorted_png(
    stem: Option<&str>,
    src: &str,
    codec: CodecKind,
    q: &str,
    knob_json: &str,
) -> (r: String)
    ensures
        r@ == kept_name(opt_text(stem), src@, codec, q@, knob_json@, "png"@),
{
    variant_filename(stem, text_hash(src), codec, q, text_hash(knob_json), "png")
}

/// The two kept files of a cell have one name but for their extensions, whichever file
/// was written first and on whichever run.
pub proof fn law_kept_files_share_a_name(
    stem: Option<Seq<char>>,
    src: Seq<char>,
    codec: CodecKind,
    q: Seq<char>,
    knob_json: Seq<char>,
)
    ensures
        ({
            let encoded = kept_name(stem, src, codec, q, knob_json, codec.spec_extension());
            let decoded = kept_name(stem, src, codec, q, knob_json, "png"@);
            encoded.take(encoded.len() - codec.spec_extension().len()) == decoded.take(
                decoded.len() - "png"@.len(),
            )
        }),
{
    let encoded = kept_name(stem, src, codec, q, knob_json, codec.spec_extension());
    let decoded = kept_name(stem, src, codec, q, knob_json, "png"@);
    let common = variant_stem(
        match stem {
            Some(s) => s,
            None => "source"@,
        },
        text_hash_of(src),
        codec,
        q,
        text_hash_of(knob_json),
    ) + "."@;
    assert(encoded.take(encoded.len() - codec.spec_extension().len()) =~= common);
    assert(decoded.take(decoded.len() - "png"@.len()) =~= common);
}

/// Decodes an encoded cell.
pub fn decode_encoded_bytes(bytes: &[u8], codec: CodecKind) -> (r: Result<Rgb8Image, String>)
    ensures
        decodes_to(format_of(bytes@, Some(codec.spec_extension())), bytes@, outcome(r)),
        full(r),
{
    decode_image_to_rgb8(bytes, Some(codec.extension()))
}

// ── The run ────────────────────────────────────────────────────────────

/// Is a switch in the environment on?
pub fn switch_on(value: &str) -> (r: bool)
    ensures
        r == (trimmed(value@) == "1"@ || trimmed(value@) == "true"@ || trimmed(value@) == "yes"@
            || trimmed(value@) == "on"@),
{
    let t = trim(value);
    same(t.as_str(), "1") || same(t.as_str(), "true") || same(t.as_str(), "yes") || same(
        t.as_str(),
        "on",
    )
}

/// Is the cache of metric instances emptied before this source? Never before the
/// first, and never when the orchestrator scores.
pub fn clean_before(source: usize, requested: bool, orchestrator: bool) -> (r: bool)
    ensures
        r == (source > 0 && requested && !orchestrator),
{
    source > 0 && requested && !orchestrator
}

/// What a sweep counts.
#[derive(Debug, Clone, Copy, PartialEq, Eq, Structural)]
pub struct SweepStats {
    pub cells_total: usize,
    pub cells_emitted: usize,
    pub cells_failed_encode: usize,
    pub cells_failed_decode: usize,
    pub cells_failed_score: usize,
}

impl Default for SweepStats {
    fn default() -> (r: SweepStats)
        ensures
            r == stats_of(0),
    {
        SweepStats {
            cells_total: 0,
            cells_emitted: 0,
            cells_failed_encode: 0,
            cells_failed_decode: 0,
            cells_failed_score: 0,
        }
    }
}

/// What is counted of one cell.
#[derive(Debug, Clone, Copy, PartialEq, Eq, Structural)]
pub enum CellReport {
    /// A cell that came out, whether its row could be written, and whether some
    /// metric failed.
    Complete { written: bool, score_failed: bool },
    EncodeFailed,
    DecodeFailed,
}

/// What is counted of one source image.
#[derive(Debug)]
pub enum SourceReport {
    /// The image could not be decoded, so none of its cells ran.
    Unreadable,
    Cells(Vec<CellReport>),
}

/// What is counted before anything ran.
pub open spec fn stats_of(total: usize) -> SweepStats {
    SweepStats {
        cells_total: total,
        cells_emitted: 0,
        cells_failed_encode: 0,
        cells_failed_decode: 0,
        cells_failed_score: 0,
    }
}

/// The number of reports that `f` holds of.
pub open spec fn tally(cells: Seq<CellReport>, f: spec_fn(CellReport) -> bool) -> nat
    decreases cells.len(),
{
    if cells.len() == 0 {
        0
    } else {
        tally(cells.drop_last(), f) + (if f(cells.last()) {
            1nat
        } else {
            0nat
        })
    }
}

/// Was the row of the cell written?
pub open spec fn is_emitted() -> spec_fn(CellReport) -> bool {
    |c: CellReport| c matches CellReport::Complete { written, .. } && written
}

/// Could the cell not be encoded?
pub open spec fn is_encode_failure() -> spec_fn(CellReport) -> bool {
    |c: CellReport| c == CellReport::EncodeFailed
}

/// Could the cell not be decoded?
pub open spec fn is_decode_failure() -> spec_fn(CellReport) -> bool {
    |c: CellReport| c == CellReport::DecodeFailed
}

/// Did some metric of the cell fail?
pub open spec fn is_score_failure() -> spec_fn(CellReport) -> bool {
    |c: CellReport| c matches CellReport::Complete { score_failed, .. } && score_failed
}

/// The number of cells of a source that `f` holds of. An image that could not be
/// decoded counts `unreadable` cells.
pub open spec fn source_tally(
    s: SourceReport,
    f: spec_fn(CellReport) -> bool,
    unreadable: nat,
) -> nat {
    match s {
        SourceReport::Unreadable => unreadable,
        SourceReport::Cells(c) => tally(c@, f),
    }
}

/// The number of cells of all sources that `f` holds of.
pub open spec fn run_tally(
    reports: Seq<SourceReport>,
    f: spec_fn(CellReport) -> bool,
    unreadable: nat,
) -> nat
    decreases reports.len(),
{
    if reports.len() == 0 {
        0
    } else {
        run_tally(reports.drop_last(), f, unreadable) + source_tally(
            reports.last(),
            f,
            unreadable,
        )
    }
}

/// The number of cells that each source has.
pub open spec fn cells_per_image(cfg: SweepConfig, planned: Option<nat>) -> nat {
    match planned {
        Some(n) => n,
        None => cfg.q_grid@.len() * product(cfg.knob_grid@),
    }
}

/// A source has as many cells as the sweep visits of it.
pub proof fn law_counted_cells_are_visited(cfg: SweepConfig, qs: Seq<Seq<char>>)
    requires
        qs.len() == cfg.q_grid@.len(),
    ensures
        grid_units(qs, tuples(cfg.knob_grid@)).len() == cells_per_image(cfg, None),
{
    lemma_grid_units_len(qs, tuples(cfg.knob_grid@));
    law_tuple_count(cfg.knob_grid@);
}

/// No source reports more cells than it has.
pub open spec fn reports_fit(reports: Seq<SourceReport>, per_image: nat) -> bool {
    forall|i: int|
        0 <= i < reports.len() ==> (#[trigger] reports[i] matches SourceReport::Cells(c)
            ==> c@.len() <= per_image)
}

proof fn lemma_tally_bound(cells: Seq<CellReport>, f: spec_fn(CellReport) -> bool)
    ensures
        tally(cells, f) <= cells.len(),
    decreases cells.len(),
{
    if cells.len() > 0 {
        lemma_tally_bound(cells.drop_last(), f);
    }
}

proof fn lemma_run_tally_bound(
    reports: Seq<SourceReport>,
    f: spec_fn(CellReport) -> bool,
    unreadable: nat,
    per_image: nat,
)
    requires
        reports_fit(reports, per_image),
        unreadable <= per_image,
    ensures
        run_tally(reports, f, unreadable) <= reports.len() * per_image,
    decreases reports.len(),
{
    if reports.len() > 0 {
        let b = reports.drop_last();
        assert forall|i: int| 0 <= i < b.len() implies (#[trigger] b[i] matches SourceReport::Cells(
            c,
        ) ==> c@.len() <= per_image) by {
            assert(b[i] == reports[i]);
        }
        lemma_run_tally_bound(b, f, unreadable, per_image);
        assert(reports.last() == reports[reports.len() - 1]);
        if let SourceReport::Cells(c) = reports.last() {
            lemma_tally_bound(c@, f);
        }
        assert((reports.len() - 1) * per_image + per_image == reports.len() * per_image)
            by (nonlinear_arith);
    }
}

proof fn lemma_run_tally_grows(
    reports: Seq<SourceReport>,
    n: int,
    f: spec_fn(CellReport) -> bool,
    unreadable: nat,
)
    requires
        0 <= n <= reports.len(),
    ensures
        run_tally(reports.take(n), f, unreadable) <= run_tally(reports, f, unreadable),
    decreases reports.len() - n,
{
    if n < reports.len() {
        assert(reports.take(n + 1).drop_last() =~= reports.take(n));
        lemma_run_tally_grows(reports, n + 1, f, unreadable);
    } else {
        assert(reports.take(n) =~= reports);
    }
}

/// The number of reports of each kind: emitted, not encoded, not decoded, and
/// with a metric that failed.
fn count_cells(cells: &Vec<CellReport>) -> (r: (usize, usize, usize, usize))
    ensures
        r.0 == tally(cells@, is_emitted()),
        r.1 == tally(cells@, is_encode_failure()),
        r.2 == tally(cells@, is_decode_failure()),
        r.3 == tally(cells@, is_score_failure()),
{
    let mut emitted: usize = 0;
    let mut enc: usize = 0;
    let mut dec: usize = 0;
    let mut score: usize = 0;
    let mut i: usize = 0;
    while i < cells.len()
        invariant
            i <= cells.len(),
            emitted == tally(cells@.take(i as int), is_emitted()) <= i,
            enc == tally(cells@.take(i as int), is_encode_failure()) <= i,
            dec == tally(cells@.take(i as int), is_decode_failure()) <= i,
            score == tally(cells@.take(i as int), is_score_failure()) <= i,
        decreases cells.len() - i,
    {
        assert(cells@.take(i + 1).drop_last() =~= cells@.take(i as int));
        assert(cells@.take(i + 1).last() == cells@[i as int]);
        match cells[i] {
            CellReport::Complete { written, score_failed } => {
                if written {
                    emitted += 1;
                }
                if score_failed {
                    score += 1;
                }
            },
            CellReport::EncodeFailed => {
                enc += 1;
            },
            CellReport::DecodeFailed => {
                dec += 1;
            },
        }
        i += 1;
    }
    assert(cells@.take(i as int) =~= cells@);
    (emitted, enc, dec, score)
}

/// The number of cells that each source has.
pub fn count_per_image(cfg: &SweepConfig, planned: Option<usize>) -> (r: usize)
    requires
        countable(cfg.knob_grid@),
        cells_per_image(*cfg, None) <= usize::MAX,
    ensures
        r == cells_per_image(
            *cfg,
            match planned {
                Some(n) => Some(n as nat),
                None => None,
            },
        ),
{
    match planned {
        Some(n) => n,
        None => cfg.q_grid.len() * cfg.knob_grid.cell_count(),
    }
}

/// A plan takes the place of the knob grid, so both together are an error.
pub fn check_plan(cfg: &SweepConfig) -> (r: Result<(), String>)
    ensures
        match r {
            Ok(_) => cfg.plan is None || cfg.knob_grid@.len() == 0,
            Err(e) => cfg.plan is Some && cfg.knob_grid@.len() > 0 && e@
                == "--plan and --knob-grid are mutually exclusive"@,
        },
{
    assert(cfg.knob_grid@.len() == cfg.knob_grid.axes@.len());
    if cfg.plan.is_some() && cfg.knob_grid.axes.len() > 0 {
        Err(copy("--plan and --knob-grid are mutually exclusive"))
    } else {
        Ok(())
    }
}

/// The cells that run for each source: those of the plan where there is one, else
/// those of the grid.
pub fn sweep_units(cfg: &SweepConfig, planned: Option<&Vec<PlannedCell>>) -> (r: Vec<SweepUnit>)
    ensures
        match planned {
            Some(p) => r@.len() == p@.len() && forall|i: int|
                0 <= i < r@.len() ==> (#[trigger] r@[i]).spec_q() == p@[i].q@ && r@[i].spec_knobs()
                    == p@[i].knob_json@ && r@[i] is Planned,
            None => is_grid(r@, grid_units(views(cfg.q_grid@), tuples(cfg.knob_grid@))),
        },
{
    match planned {
        None => tuple_units(cfg),
        Some(p) => {
            let mut out: Vec<SweepUnit> = Vec::new();
            let mut i: usize = 0;
            while i < p.len()
                invariant
                    i <= p.len(),
                    out@.len() == i,
                    forall|j: int|
                        0 <= j < i ==> (#[trigger] out@[j]).spec_q() == p@[j].q@
                            && out@[j].spec_knobs() == p@[j].knob_json@ && out@[j] is Planned,
                decreases p.len() - i,
            {
                let cell = PlannedCell {
                    q: copy(p[i].q.as_str()),
                    knob_json: copy(p[i].knob_json.as_str()),
                };
                out.push(SweepUnit::Planned(cell));
                i += 1;
            }
            out
        },
    }
}

/// What a finished sweep counts: the cells that were to run, the rows that were
/// written, and the failures of each kind. All cells of an image that could not
/// be decoded count as not decoded.
pub fn run_sweep(cfg: &SweepConfig, planned: Option<usize>, reports: &Vec<SourceReport>) -> (r: Result<
    SweepStats,
    String,
>)
    requires
        countable(cfg.knob_grid@),
        cells_per_image(*cfg, None) <= usize::MAX,
        reports@.len() <= cfg.sources@.len(),
        ({
            let per = cells_per_image(
                *cfg,
                match planned {
                    Some(n) => Some(n as nat),
                    None => None,
                },
            );
            reports_fit(reports@, per) && cfg.sources@.len() * per <= usize::MAX
        }),
    ensures
        ({
            let per = cells_per_image(
                *cfg,
                match planned {
                    Some(n) => Some(n as nat),
                    None => None,
                },
            );
            match r {
                Ok(s) => {
                    &&& cfg.plan is None || cfg.knob_grid@.len() == 0
                    &&& s.cells_total == cfg.sources@.len() * per
                    &&& s.cells_emitted == run_tally(reports@, is_emitted(), 0)
                    &&& s.cells_failed_encode == run_tally(reports@, is_encode_failure(), 0)
                    &&& s.cells_failed_decode == run_tally(reports@, is_decode_failure(), per)
                    &&& s.cells_failed_score == run_tally(reports@, is_score_failure(), 0)
                },
                Err(e) => cfg.plan is Some && cfg.knob_grid@.len() > 0 && e@
                    == "--plan and --knob-grid are mutually exclusive"@,
            }
        }),
{
    match check_plan(cfg) {
        Ok(_) => {},
        Err(e) => {
            return Err(e);
        },
    }
    let per: usize = count_per_image(cfg, planned);
    let n: usize = cfg.sources.len();
    proof {
        let m = reports@.len();
        assert(m * per <= n * per) by (nonlinear_arith)
            requires
                m <= n,
        ;
        lemma_run_tally_bound(reports@, is_emitted(), 0, per as nat);
        lemma_run_tally_bound(reports@, is_encode_failure(), 0, per as nat);
        lemma_run_tally_bound(reports@, is_decode_failure(), per as nat, per as nat);
        lemma_run_tally_bound(reports@, is_score_failure(), 0, per as nat);
    }
    let mut s = SweepStats {
        cells_total: n * per,
        cells_emitted: 0,
        cells_failed_encode: 0,
        cells_failed_decode: 0,
        cells_failed_score: 0,
    };
    let mut i: usize = 0;
    while i < reports.len()
        invariant
            i <= reports.len(),
            s.cells_total == n * per,
            run_tally(reports@, is_emitted(), 0) <= usize::MAX,
            run_tally(reports@, is_encode_failure(), 0) <= usize::MAX,
            run_tally(reports@, is_decode_failure(), per as nat) <= usize::MAX,
            run_tally(reports@, is_score_failure(), 0) <= usize::MAX,
            s.cells_emitted == run_tally(reports@.take(i as int), is_emitted(), 0),
            s.cells_failed_encode == run_tally(reports@.take(i as int), is_encode_failure(), 0),
            s.cells_failed_decode == run_tally(
                reports@.take(i as int),
                is_decode_failure(),
                per as nat,
            ),
            s.cells_failed_score == run_tally(reports@.take(i as int), is_score_failure(), 0),
        decreases reports.len() - i,
    {
        assert(reports@.take(i + 1).drop_last() =~= reports@.take(i as int));
        assert(reports@.take(i + 1).last() == reports@[i as int]);
        proof {
            lemma_run_tally_grows(reports@, i + 1, is_emitted(), 0);
            lemma_run_tally_grows(reports@, i + 1, is_encode_failure(), 0);
            lemma_run_tally_grows(reports@, i + 1, is_decode_failure(), per as nat);
            lemma_run_tally_grows(reports@, i + 1, is_score_failure(), 0);
        }
        match &reports[i] {
            SourceReport::Unreadable => {
                s.cells_failed_decode += per;
            },
            SourceReport::Cells(c) => {
                let (emitted, enc, dec, score) = count_cells(c);
                s.cells_emitted += emitted;
                s.cells_failed_encode += enc;
                s.cells_failed_decode += dec;
                s.cells_failed_score += score;
            },
        }
        i += 1;
    }
    assert(reports@.take(i as int) =~= reports@);
    Ok(s)
}

/// Did the cell come out without its row being written?
pub open spec fn is_lost() -> spec_fn(CellReport) -> bool {
    |c: CellReport| c matches CellReport::Complete { written, .. } && !written
}

proof fn lemma_tally_partition(cells: Seq<CellReport>)
    ensures
        tally(cells, is_emitted()) + tally(cells, is_lost()) + tally(cells, is_encode_failure())
            + tally(cells, is_decode_failure()) == cells.len(),
    decreases cells.len(),
{
    if cells.len() > 0 {
        lemma_tally_partition(cells.drop_last());
    }
}

/// Every cell is counted once: when each source either could not be decoded or
/// reported all of its cells, then the rows written, the rows that could not be
/// written, and the cells not encoded or not decoded add up to all cells.
pub proof fn law_every_cell_counted(reports: Seq<SourceReport>, per_image: nat)
    requires
        forall|i: int|
            0 <= i < reports.len() ==> (#[trigger] reports[i] matches SourceReport::Cells(c)
                ==> c@.len() == per_image),
    ensures
        run_tally(reports, is_emitted(), 0) + run_tally(reports, is_lost(), 0) + run_tally(
            reports,
            is_encode_failure(),
            0,
        ) + run_tally(reports, is_decode_failure(), per_image) == reports.len() * per_image,
    decreases reports.len(),
{
    if reports.len() > 0 {
        let b = reports.drop_last();
        assert forall|i: int| 0 <= i < b.len() implies (#[trigger] b[i] matches SourceReport::Cells(
            c,
        ) ==> c@.len() == per_image) by {
            assert(b[i] == reports[i]);
        }
        law_every_cell_counted(b, per_image);
        assert(reports.last() == reports[reports.len() - 1]);
        if let SourceReport::Cells(c) = reports.last() {
            lemma_tally_partition(c@);
        }
        assert((reports.len() - 1) * per_image + per_image == reports.len() * per_image)
            by (nonlinear_arith);
    }
}

/// A report falls into exactly one of four classes, and a failed metric leaves the cell
/// complete.
pub proof fn law_cell_classes(c: CellReport)
    ensures
        is_emitted()(c) || is_lost()(c) || is_encode_failure()(c) || is_decode_failure()(c),
        !(is_emitted()(c) && is_lost()(c)),
        is_encode_failure()(c) <==> c is EncodeFailed,
        is_decode_failure()(c) <==> c is DecodeFailed,
        c is Complete <==> is_emitted()(c) || is_lost()(c),
        is_score_failure()(c) ==> c is Complete,
        c matches CellReport::Complete { written, score_failed } ==> is_emitted()(c) == written
            && is_score_failure()(c) == score_failed,
{
}

/// Each further cell is counted exactly when it is of the class, and each further source
/// with all its cells.
pub proof fn law_cells_counted_one_by_one(
    cells: Seq<CellReport>,
    c: CellReport,
    reports: Seq<SourceReport>,
    s: SourceReport,
    f: spec_fn(CellReport) -> bool,
    unreadable: nat,
)
    ensures
        tally(cells.push(c), f) == tally(cells, f) + (if f(c) {
            1int
        } else {
            0
        }),
        tally(Seq::<CellReport>::empty(), f) == 0,
        run_tally(reports.push(s), f, unreadable) == run_tally(reports, f, unreadable) + (match s {
            SourceReport::Unreadable => unreadable,
            SourceReport::Cells(v) => tally(v@, f),
        }),
        run_tally(Seq::<SourceReport>::empty(), f, unreadable) == 0,
{
    assert(cells.push(c).drop_last() =~= cells);
    assert(reports.push(s).drop_last() =~= reports);
}

} // verus!
