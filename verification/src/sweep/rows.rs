//! What stands where in the rows of a sweep: every value under the
//! column that names it.

use crate::metrics::dispatch::Build;
use crate::metrics::kind::MetricKind;
use crate::sweep::encode::CodecKind;
use crate::sweep::plan::law_fingerprint_text_injective;
use crate::sweep::run::{
    all_score_cells, column_total, context_of, feature_index, header, lead_columns, or_blank,
    pairs_columns, route, row_of, score_cells, score_columns, score_names, scores_fit, step_for,
    variant_name, CellOutcome, CellReplies, CellStep, ScoreContext, Scored, SweepConfig,
};
use crate::text::{decimal, hex16, hex_tail, views};
use vstd::prelude::*;

verus! {

/// How many columns the metrics before this one fill.
pub open spec fn columns_before(metrics: Seq<MetricKind>, i: int) -> int {
    column_total(metrics.take(i)) as int
}

proof fn lemma_columns_before(metrics: Seq<MetricKind>, i: int)
    requires
        0 <= i < metrics.len(),
    ensures
        columns_before(metrics, i + 1) == columns_before(metrics, i) + metrics[i].width(),
        columns_before(metrics, i) >= 0,
{
    assert(metrics.take(i + 1).drop_last() =~= metrics.take(i));
    assert(metrics.take(i + 1).last() == metrics[i]);
}

proof fn lemma_columns_before_grows(metrics: Seq<MetricKind>, i: int, n: int)
    requires
        0 <= i < n <= metrics.len(),
    ensures
        columns_before(metrics, i) + metrics[i].width() <= columns_before(metrics, n),
    decreases n,
{
    lemma_columns_before(metrics, i);
    if i + 1 < n {
        lemma_columns_before_grows(metrics, i, n - 1);
        lemma_columns_before(metrics, n - 1);
    }
}

proof fn lemma_score_column(metrics: Seq<MetricKind>, build: Build, i: int, j: int)
    requires
        0 <= i < metrics.len(),
        0 <= j < metrics[i].width(),
    ensures
        score_columns(metrics, build).len() == columns_before(metrics, metrics.len() as int),
        0 <= columns_before(metrics, i) + j < score_columns(metrics, build).len(),
        score_columns(metrics, build)[columns_before(metrics, i) + j] == "score_"@
            + metrics[i].columns(build)[j],
    decreases metrics.len(),
{
    let n = metrics.len() as int;
    let front = metrics.drop_last();
    lemma_columns_before(metrics, n - 1);
    lemma_columns_before(metrics, i);
    lemma_score_columns_len(front, build);
    assert(front.take(n - 1) =~= front);
    assert(metrics.take(n - 1) =~= front);
    assert(metrics.take(n) =~= metrics);
    let last = score_names(metrics.last(), build);
    assert(last.len() == metrics.last().width());
    if i < n - 1 {
        lemma_score_column(front, build, i, j);
        assert(front.take(i) =~= metrics.take(i));
        lemma_columns_before_grows(metrics, i, n - 1);
    }
}

proof fn lemma_score_columns_len(metrics: Seq<MetricKind>, build: Build)
    ensures
        score_columns(metrics, build).len() == column_total(metrics),
    decreases metrics.len(),
{
    if metrics.len() > 0 {
        lemma_score_columns_len(metrics.drop_last(), build);
        assert(score_names(metrics.last(), build).len() == metrics.last().width());
    }
}

proof fn lemma_score_cells_len(metrics: Seq<MetricKind>, scores: Seq<Scored>, i: int)
    requires
        scores_fit(metrics, scores),
        0 <= i < scores.len(),
    ensures
        score_cells(metrics[i], scores[i]).len() == metrics[i].width(),
{
    let s = scores[i];
}

proof fn lemma_score_cell(metrics: Seq<MetricKind>, scores: Seq<Scored>, i: int, j: int)
    requires
        scores_fit(metrics, scores),
        0 <= i < scores.len(),
        0 <= j < metrics[i].width(),
    ensures
        all_score_cells(metrics, scores).len() == columns_before(metrics, scores.len() as int),
        0 <= columns_before(metrics, i) + j < all_score_cells(metrics, scores).len(),
        all_score_cells(metrics, scores)[columns_before(metrics, i) + j] == score_cells(
            metrics[i],
            scores[i],
        )[j],
    decreases scores.len(),
{
    let n = scores.len() as int;
    let front = scores.drop_last();
    lemma_columns_before(metrics, n - 1);
    lemma_columns_before(metrics, i);
    assert(scores_fit(metrics, front)) by {
        assert forall|k: int| 0 <= k < front.len() implies match #[trigger] front[k] {
            Scored::Failed => true,
            Scored::Values(v) => v@.len() == metrics[k].width(),
            Scored::WithFeatures(_, _) => metrics[k].width() == 1,
        } by {
            assert(front[k] == scores[k]);
        }
    }
    lemma_all_score_cells_len(metrics, front);
    lemma_score_cells_len(metrics, scores, n - 1);
    if i < n - 1 {
        lemma_score_cell(metrics, front, i, j);
        assert(front[i] == scores[i]);
        lemma_columns_before_grows(metrics, i, n - 1);
    }
}

proof fn lemma_all_score_cells_len(metrics: Seq<MetricKind>, scores: Seq<Scored>)
    requires
        scores_fit(metrics, scores),
    ensures
        all_score_cells(metrics, scores).len() == columns_before(metrics, scores.len() as int),
    decreases scores.len(),
{
    let n = scores.len() as int;
    if n == 0 {
        assert(metrics.take(0) =~= Seq::<MetricKind>::empty());
    } else {
        let front = scores.drop_last();
        assert(scores_fit(metrics, front)) by {
            assert forall|k: int| 0 <= k < front.len() implies match #[trigger] front[k] {
                Scored::Failed => true,
                Scored::Values(v) => v@.len() == metrics[k].width(),
                Scored::WithFeatures(_, _) => metrics[k].width() == 1,
            } by {
                assert(front[k] == scores[k]);
            }
        }
        lemma_all_score_cells_len(metrics, front);
        lemma_columns_before(metrics, n - 1);
        lemma_score_cells_len(metrics, scores, n - 1);
    }
}

/// Is this the text that the scoring of a metric gives for one of its columns? A failed
/// metric gives nothing, and a metric with features gives its score.
pub open spec fn scored_text(s: Scored, j: int, t: Seq<char>) -> bool {
    match s {
        Scored::Failed => t.len() == 0,
        Scored::Values(v) => t == v@[j]@,
        Scored::WithFeatures(v, _) => t == v@,
    }
}

/// In the row of a complete cell each score stands under the column of its own metric.
pub proof fn law_score_under_its_column(
    build: Build,
    step: CellStep,
    cfg: SweepConfig,
    orchestrator: bool,
    src: Seq<char>,
    width: u32,
    height: u32,
    q: Seq<char>,
    knobs: Seq<char>,
    r: CellReplies,
    i: int,
    j: int,
)
    requires
        step_for(step, cfg, orchestrator, src, width, height, q, knobs, r),
        scores_fit(cfg.metrics@, r.scores@),
        step matches CellStep::Done(o) && o is Complete,
        0 <= i < cfg.metrics@.len(),
        0 <= j < cfg.metrics@[i].width(),
    ensures
        exists|c: int|
            0 <= c < header(cfg.metrics@, build).len() && #[trigger] header(cfg.metrics@, build)[c]
                == "score_"@ + cfg.metrics@[i].columns(build)[j] && c == lead_columns().len()
                + columns_before(cfg.metrics@, i) + j && scored_text(
                r.scores@[i],
                j,
                row_of(step->Done_0)[c],
            ),
{
    let metrics = cfg.metrics@;
    lemma_score_column(metrics, build, i, j);
    assert(r.scores@.len() == metrics.len());
    lemma_score_cell(metrics, r.scores@, i, j);
    let c = lead_columns().len() + columns_before(metrics, i) + j;
    assert(lead_columns().len() == 8);
    assert(header(metrics, build)[c] == score_columns(metrics, build)[c - 8]);
    let row = row_of(step->Done_0);
    let tail = all_score_cells(metrics, r.scores@);
    assert(row.len() == 8 + tail.len());
    assert(row[c] == tail[c - 8]);
    let s = r.scores@[i];
    assert(row[c] == score_cells(metrics[i], s)[j]);
}

/// The row of a cell that was encoded gives the size and the times of encoding and
/// decoding, and the name of the kept file, each under its own column.
pub proof fn law_measures_under_their_columns(
    build: Build,
    step: CellStep,
    cfg: SweepConfig,
    orchestrator: bool,
    src: Seq<char>,
    width: u32,
    height: u32,
    q: Seq<char>,
    knobs: Seq<char>,
    r: CellReplies,
    c: int,
)
    requires
        step_for(step, cfg, orchestrator, src, width, height, q, knobs, r),
        scores_fit(cfg.metrics@, r.scores@),
        step matches CellStep::Done(o) && !(o is EncodeFailed),
        0 <= c < lead_columns().len(),
    ensures
        header(cfg.metrics@, build)[c] == "image_path"@ ==> row_of(step->Done_0)[c] == src,
        header(cfg.metrics@, build)[c] == "codec"@ ==> row_of(step->Done_0)[c]
            == cfg.codec.spec_name(),
        header(cfg.metrics@, build)[c] == "q"@ ==> row_of(step->Done_0)[c] == q,
        header(cfg.metrics@, build)[c] == "knob_tuple_json"@ ==> row_of(step->Done_0)[c] == knobs,
        header(cfg.metrics@, build)[c] == "encoded_bytes"@ ==> (r.encoded matches Some(Some(e))
            && row_of(step->Done_0)[c] == decimal(e.bytes as nat)),
        header(cfg.metrics@, build)[c] == "encode_ms"@ ==> (r.encoded matches Some(Some(e))
            && row_of(step->Done_0)[c] == e.ms@),
        header(cfg.metrics@, build)[c] == "encoded_filename"@ ==> match r.saved {
            Some(Some(name)) => cfg.encoded_out_dir is Some ==> row_of(step->Done_0)[c] == name@,
            _ => row_of(step->Done_0)[c].len() == 0,
        },
        header(cfg.metrics@, build)[c] == "decode_ms"@ ==> match r.decoded {
            Some(Some(d)) => row_of(step->Done_0)[c] == d.ms@,
            _ => row_of(step->Done_0)[c].len() == 0,
        },
{
    lemma_lead_names();
    let row = row_of(step->Done_0);
    let lead = lead_columns();
    assert(lead.len() == 8);
    assert(header(cfg.metrics@, build)[c] == lead[c]);
    assert(lead[0] == "image_path"@ && lead[1] == "codec"@ && lead[2] == "q"@ && lead[3]
        == "knob_tuple_json"@ && lead[4] == "encoded_bytes"@ && lead[5] == "encode_ms"@ && lead[6]
        == "encoded_filename"@ && lead[7] == "decode_ms"@);
    assert(row.len() >= 8);
    assert(row[0] == src && row[1] == cfg.codec.spec_name() && row[2] == q && row[3] == knobs);
    assert(r.encoded is Some && r.encoded->Some_0 is Some);
    let e = r.encoded->Some_0->Some_0;
    assert(row[4] == decimal(e.bytes as nat) && row[5] == e.ms@);
    assert(row[6] == or_blank(
        if cfg.encoded_out_dir is Some {
            r.saved
        } else {
            None
        },
    ));
}

proof fn lemma_lead_names()
    ensures
        ({
            let n = lead_columns();
            forall|i: int, j: int| 0 <= i < j < n.len() ==> #[trigger] n[i] != #[trigger] n[j]
        }),
{
    reveal_strlit("image_path");
    reveal_strlit("codec");
    reveal_strlit("q");
    reveal_strlit("knob_tuple_json");
    reveal_strlit("encoded_bytes");
    reveal_strlit("encode_ms");
    reveal_strlit("encoded_filename");
    reveal_strlit("decode_ms");
    let n = lead_columns();
    assert(n[0].len() == 10 && n[1].len() == 5 && n[2].len() == 1 && n[3].len() == 15);
    assert(n[4].len() == 13 && n[5].len() == 9 && n[6].len() == 16 && n[7].len() == 9);
    assert(n[5][0] == 'e' && n[7][0] == 'd');
}

/// A cell that failed has a row all the same: nothing stands under the scores, and where
/// encoding failed nothing stands behind the identity.
pub proof fn law_failed_cell_has_blank_scores(
    step: CellStep,
    cfg: SweepConfig,
    orchestrator: bool,
    src: Seq<char>,
    width: u32,
    height: u32,
    q: Seq<char>,
    knobs: Seq<char>,
    r: CellReplies,
    c: int,
)
    requires
        step_for(step, cfg, orchestrator, src, width, height, q, knobs, r),
        step matches CellStep::Done(o) && !(o is Complete),
        0 <= c < row_of(step->Done_0).len(),
    ensures
        c >= 8 ==> row_of(step->Done_0)[c].len() == 0,
        step->Done_0 is EncodeFailed && c >= 4 ==> row_of(step->Done_0)[c].len() == 0,
{
}

/// A complete cell was decoded to the size of its source and has a reply for every
/// metric; a decoded image of another size fails the cell.
pub proof fn law_complete_cell_has_source_size(
    step: CellStep,
    cfg: SweepConfig,
    orchestrator: bool,
    src: Seq<char>,
    width: u32,
    height: u32,
    q: Seq<char>,
    knobs: Seq<char>,
    r: CellReplies,
)
    requires
        step_for(step, cfg, orchestrator, src, width, height, q, knobs, r),
    ensures
        step matches CellStep::Done(CellOutcome::Complete { score_failed, .. }) ==> {
            &&& r.decoded matches Some(Some(d)) && d.width == width && d.height == height
            &&& r.scores@.len() >= cfg.metrics@.len()
            &&& score_failed <==> exists|i: int|
                0 <= i < r.scores@.len() && (#[trigger] r.scores@[i]) is Failed
        },
        step matches CellStep::Done(CellOutcome::DecodeFailed { .. }) ==> match r.decoded {
            Some(Some(d)) => d.width != width || d.height != height,
            _ => true,
        },
        step matches CellStep::Done(CellOutcome::EncodeFailed { .. }) ==> r.encoded
            == Some(None::<crate::sweep::run::Encoded>),
{
}

/// The line of a cell in the list of pairs has the identity of the cell's row, so the
/// two can be joined; the reference is the source, and the distorted image is the kept
/// one.
pub proof fn law_pair_line_joins_its_row(
    step: CellStep,
    cfg: SweepConfig,
    orchestrator: bool,
    src: Seq<char>,
    width: u32,
    height: u32,
    q: Seq<char>,
    knobs: Seq<char>,
    r: CellReplies,
)
    requires
        step_for(step, cfg, orchestrator, src, width, height, q, knobs, r),
    ensures
        step matches CellStep::Done(CellOutcome::Complete { row, pair_row, .. }) ==> {
            &&& pair_row is Some <==> cfg.pairs_tsv is Some
            &&& pair_row matches Some(p) ==> {
                &&& p@.len() == pairs_columns().len()
                &&& pairs_columns().take(4) == lead_columns().take(4)
                &&& views(p@).take(4) == views(row@).take(4)
                &&& pairs_columns()[4] == "ref_path"@ && views(p@)[4] == src
                &&& pairs_columns()[5] == "dist_path"@ && match r.distorted {
                    Some(Some(path)) => cfg.distorted_out_dir is Some ==> views(p@)[5] == path@,
                    _ => views(p@)[5].len() == 0,
                }
            }
        },
{
    assert(pairs_columns().take(4) =~= lead_columns().take(4));
    match step {
        CellStep::Done(CellOutcome::Complete { row, pair_row: Some(p), .. }) => {
            assert(views(p@).len() == 6);
            assert(views(p@).take(4) =~= views(row@).take(4));
        },
        _ => {},
    }
}

/// The features of a cell come from the last metric that was scored together with its
/// features; there are none exactly when no metric was.
pub proof fn law_features_of_last_featured_metric(
    metrics: Seq<MetricKind>,
    c: ScoreContext,
    scores: Seq<Scored>,
    i: int,
)
    requires
        scores.len() <= usize::MAX,
        0 <= i < scores.len(),
    ensures
        feature_index(metrics, c, scores) matches Some(k) ==> {
            &&& k < scores.len()
            &&& scores[k as int] is WithFeatures
            &&& route(metrics[k as int], c) is CpuFeatures || route(metrics[k as int], c)
                is GpuFeatures
        },
        scores[i] is WithFeatures && (route(metrics[i], c) is CpuFeatures || route(metrics[i], c)
            is GpuFeatures) ==> (feature_index(metrics, c, scores) matches Some(k) && k >= i),
    decreases scores.len(),
{
    if scores.len() > 1 {
        let front = scores.drop_last();
        if i < front.len() {
            assert(front[i] == scores[i]);
            law_features_of_last_featured_metric(metrics, c, front, i);
        } else {
            law_features_of_last_featured_metric(metrics, c, front, 0);
        }
        if feature_index(metrics, c, front) is Some {
            let k = feature_index(metrics, c, front)->Some_0;
            assert(front[k as int] == scores[k as int]);
        }
    } else {
        assert(scores.drop_last() =~= Seq::<Scored>::empty());
        reveal_with_fuel(feature_index, 2);
    }
}

/// A metric is scored with its features only where a file for them is wanted: zensim of
/// the GPU where it is among the metrics, else zensim of the processor. Every other
/// metric goes where its score alone is computed.
pub proof fn law_features_where_wanted(cfg: SweepConfig, orchestrator: bool, kind: MetricKind)
    requires
        cfg.metrics@.contains(kind),
    ensures
        route(kind, context_of(cfg, orchestrator)) is GpuFeatures <==> kind.spec_name()
            == "zensim-gpu"@ && cfg.feature_output is Some,
        route(kind, context_of(cfg, orchestrator)) is CpuFeatures <==> kind.spec_name()
            == "zensim"@ && cfg.feature_output is Some && !cfg.metrics@.contains(
            MetricKind::ZensimGpu,
        ),
        route(kind, context_of(cfg, orchestrator)) is Orchestrator ==> orchestrator,
{
    crate::metrics::kind::law_metric_name_round_trip(kind);
    crate::metrics::kind::law_metric_name_round_trip(MetricKind::Zensim);
    crate::metrics::kind::law_metric_name_round_trip(MetricKind::ZensimGpu);
}

proof fn lemma_hex_len(n: nat, w: nat)
    ensures
        hex_tail(n, w).len() == w,
    decreases w,
{
    if w > 0 {
        lemma_hex_len(n / 16, (w - 1) as nat);
    }
}

/// Two cells of one source and codec are kept under one name only where they agree in
/// the quality and in the hashes of source and knobs.
pub proof fn law_kept_names_tell_cells_apart(
    stem: Seq<char>,
    codec: CodecKind,
    ext: Seq<char>,
    sa: u64,
    qa: Seq<char>,
    ka: u64,
    sb: u64,
    qb: Seq<char>,
    kb: u64,
)
    requires
        variant_name(stem, sa, codec, qa, ka, ext) == variant_name(stem, sb, codec, qb, kb, ext),
    ensures
        sa == sb,
        qa == qb,
        ka == kb,
{
    lemma_hex_len(sa as nat, 16);
    lemma_hex_len(sb as nat, 16);
    lemma_hex_len(ka as nat, 16);
    lemma_hex_len(kb as nat, 16);
    reveal_strlit("_");
    reveal_strlit("_q");
    reveal_strlit(".");
    let a = variant_name(stem, sa, codec, qa, ka, ext);
    let b = variant_name(stem, sb, codec, qb, kb, ext);
    let name = codec.spec_name();
    let p = stem.len() as int + 1;
    let q = p + 16 + 1 + name.len() + 2;
    let n = qa.len() as int;
    assert(hex16(sa as nat).len() == 16 && hex16(sb as nat).len() == 16);
    assert(hex16(ka as nat).len() == 16 && hex16(kb as nat).len() == 16);
    assert("_"@.len() == 1 && "_q"@.len() == 2 && "."@.len() == 1);
    assert(a.len() == q + n + 17 + 1 + ext.len());
    assert(b.len() == q + qb.len() + 17 + 1 + ext.len());
    assert(qb.len() == n);
    assert(a.subrange(p, p + 16) =~= hex16(sa as nat));
    assert(b.subrange(p, p + 16) =~= hex16(sb as nat));
    law_fingerprint_text_injective(sa, sb);
    assert(a.subrange(q, q + n) =~= qa);
    assert(b.subrange(q, q + n) =~= qb);
    assert(a.subrange(q + n + 1, q + n + 17) =~= hex16(ka as nat));
    assert(b.subrange(q + n + 1, q + n + 17) =~= hex16(kb as nat));
    law_fingerprint_text_injective(ka, kb);
}

} // verus!
