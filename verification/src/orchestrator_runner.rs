//! What the command line asks of the scoring orchestrator, and how the columns
//! that come back are named.
//!
//! The orchestrator names its columns after the GPU metrics. Output files keep
//! one name per metric, whichever way it was scored, so the columns are renamed
//! here.

use crate::json::{opt_str, opt_view};
use crate::metrics::dispatch::Build;
use crate::metrics::kind::{str_views, MetricKind};
use crate::text::{
    copy, lemma_views_push, lowered, same, split, split_at_each, to_lower, trim, trimmed, views,
};
use vstd::prelude::*;

verus! {

/// One scored column.
#[derive(Debug)]
pub struct OrchestratorScoreRow<T> {
    pub column: String,
    pub value: T,
}

/// Can the orchestrator score this metric the way the output files expect? It
/// scores Butteraugli at one resolution only.
pub open spec fn eligible(kind: MetricKind) -> bool {
    kind != MetricKind::Butteraugli && kind != MetricKind::ButteraugliGpu
}

/// Can the orchestrator score this metric?
pub fn metric_orchestrator_eligible(kind: MetricKind) -> (r: bool)
    ensures
        r == eligible(kind),
{
    match kind {
        MetricKind::Butteraugli | MetricKind::ButteraugliGpu => false,
        _ => true,
    }
}

/// The column of a score for which the orchestrator names none. It names no
/// implementation, since it is not known which one it was.
pub open spec fn fallback_column(kind: MetricKind) -> Seq<char> {
    match kind {
        MetricKind::Ssim2 => "ssim2"@,
        MetricKind::Ssim2Gpu => "ssim2_gpu"@,
        MetricKind::Dssim => "dssim"@,
        MetricKind::DssimGpu => "dssim_gpu"@,
        MetricKind::IwssimGpu => "iwssim_gpu"@,
        MetricKind::Zensim => "zensim"@,
        MetricKind::ZensimGpu => "zensim_gpu"@,
        MetricKind::Iwssim => "iwssim"@,
        MetricKind::Cvvdp => "cvvdp"@,
        MetricKind::Butteraugli => "butteraugli_max"@,
        MetricKind::ButteraugliGpu => "butteraugli_max_gpu"@,
    }
}

/// The column of a score for which the orchestrator names none.
pub fn cli_metric_to_column_name(kind: MetricKind) -> (r: &'static str)
    ensures
        r@ == fallback_column(kind),
{
    match kind {
        MetricKind::Ssim2 => "ssim2",
        MetricKind::Ssim2Gpu => "ssim2_gpu",
        MetricKind::Dssim => "dssim",
        MetricKind::DssimGpu => "dssim_gpu",
        MetricKind::IwssimGpu => "iwssim_gpu",
        MetricKind::Zensim => "zensim",
        MetricKind::ZensimGpu => "zensim_gpu",
        MetricKind::Iwssim => "iwssim",
        MetricKind::Cvvdp => "cvvdp",
        MetricKind::Butteraugli => "butteraugli_max",
        MetricKind::ButteraugliGpu => "butteraugli_max_gpu",
    }
}

/// The name of a column in the output files. The CPU metrics drop the `_gpu` of
/// the orchestrator's names, and `iwssim-gpu` drops the version of
/// information-weighted SSIM; every other name stays.
pub open spec fn renamed(kind: MetricKind, iwssim_versioned: Seq<char>, k: Seq<char>) -> Seq<char> {
    match kind {
        MetricKind::Ssim2 => if k == "ssim2_gpu"@ {
            "ssim2"@
        } else {
            k
        },
        MetricKind::Dssim => if k == "dssim_gpu"@ {
            "dssim"@
        } else {
            k
        },
        MetricKind::Zensim => if k == "zensim_gpu"@ {
            "zensim"@
        } else {
            k
        },
        MetricKind::Butteraugli => if k == "butteraugli_max_gpu"@ {
            "butteraugli_max"@
        } else if k == "butteraugli_pnorm3_gpu"@ {
            "butteraugli_pnorm3"@
        } else {
            k
        },
        MetricKind::IwssimGpu => if k == iwssim_versioned {
            "iwssim_gpu"@
        } else {
            k
        },
        _ => k,
    }
}

/// The name of a column in the output files.
fn rename_column(kind: MetricKind, iwssim_versioned: &str, k: &str) -> (r: String)
    ensures
        r@ == renamed(kind, iwssim_versioned@, k@),
{
    match kind {
        MetricKind::Ssim2 => if same(k, "ssim2_gpu") {
            copy("ssim2")
        } else {
            copy(k)
        },
        MetricKind::Dssim => if same(k, "dssim_gpu") {
            copy("dssim")
        } else {
            copy(k)
        },
        MetricKind::Zensim => if same(k, "zensim_gpu") {
            copy("zensim")
        } else {
            copy(k)
        },
        MetricKind::Butteraugli => if same(k, "butteraugli_max_gpu") {
            copy("butteraugli_max")
        } else if same(k, "butteraugli_pnorm3_gpu") {
            copy("butteraugli_pnorm3")
        } else {
            copy(k)
        },
        MetricKind::IwssimGpu => if same(k, iwssim_versioned) {
            copy("iwssim_gpu")
        } else {
            copy(k)
        },
        _ => copy(k),
    }
}

/// The columns under their names in the output files, in the order given.
pub fn rekey_orchestrator_columns<T: Copy>(
    kind: MetricKind,
    iwssim_versioned: &str,
    columns: &Vec<(String, T)>,
) -> (r: Vec<(String, T)>)
    ensures
        r@.len() == columns@.len(),
        forall|i: int|
            0 <= i < r@.len() ==> (#[trigger] r@[i]).0@ == renamed(
                kind,
                iwssim_versioned@,
                columns@[i].0@,
            ) && r@[i].1 == columns@[i].1,
{
    let mut out: Vec<(String, T)> = Vec::new();
    let mut i: usize = 0;
    while i < columns.len()
        invariant
            i <= columns.len(),
            out@.len() == i,
            forall|j: int|
                0 <= j < i ==> (#[trigger] out@[j]).0@ == renamed(
                    kind,
                    iwssim_versioned@,
                    columns@[j].0@,
                ) && out@[j].1 == columns@[j].1,
        decreases columns.len() - i,
    {
        out.push((rename_column(kind, iwssim_versioned, columns[i].0.as_str()), columns[i].1));
        i += 1;
    }
    out
}

/// What the orchestrator's reply to one pair of images is worth: its score under
/// the metric's own name when it names no column, else every column it names, or
/// its error with the backends that were tried.
pub fn orchestrator_score_one<T: Copy>(
    kind: MetricKind,
    iwssim_versioned: &str,
    reply: Result<(T, Vec<(String, T)>), String>,
    backends_tried: &str,
) -> (r: Result<Vec<OrchestratorScoreRow<T>>, String>)
    ensures
        match (r, reply) {
            (Ok(rows), Ok((score, columns))) => if columns@.len() == 0 {
                rows@.len() == 1 && rows@[0].column@ == fallback_column(kind) && rows@[0].value
                    == score
            } else {
                rows@.len() == columns@.len() && forall|i: int|
                    0 <= i < rows@.len() ==> (#[trigger] rows@[i]).column@ == renamed(
                        kind,
                        iwssim_versioned@,
                        columns@[i].0@,
                    ) && rows@[i].value == columns@[i].1
            },
            (Err(e), Err(f)) => e@ == "orchestrator: "@ + f@ + " (backends tried: "@
                + backends_tried@ + ")"@,
            _ => false,
        },
{
    match reply {
        Err(f) => {
            let mut e: String = copy("orchestrator: ");
            e.append(f.as_str());
            e.append(" (backends tried: ");
            e.append(backends_tried);
            e.append(")");
            Err(e)
        },
        Ok((score, columns)) => {
            let mut rows: Vec<OrchestratorScoreRow<T>> = Vec::new();
            if columns.len() == 0 {
                rows.push(
                    OrchestratorScoreRow {
                        column: copy(cli_metric_to_column_name(kind)),
                        value: score,
                    },
                );
                return Ok(rows);
            }
            let mut i: usize = 0;
            while i < columns.len()
                invariant
                    i <= columns.len(),
                    rows@.len() == i,
                    forall|j: int|
                        0 <= j < i ==> (#[trigger] rows@[j]).column@ == renamed(
                            kind,
                            iwssim_versioned@,
                            columns@[j].0@,
                        ) && rows@[j].value == columns@[j].1,
                decreases columns.len() - i,
            {
                rows.push(
                    OrchestratorScoreRow {
                        column: rename_column(kind, iwssim_versioned, columns[i].0.as_str()),
                        value: columns[i].1,
                    },
                );
                i += 1;
            }
            Ok(rows)
        },
    }
}

/// Scoring one metric of a sweep cell through the orchestrator: an error names
/// the metric and the backends that were attempted.
pub fn orchestrator_cell_error(kind: MetricKind, error: &str, attempted: &str) -> (r: String)
    ensures
        r@ == "orchestrator: "@ + kind.spec_name() + " ("@ + error@ + "; backends_attempted="@
            + attempted@ + ")"@,
{
    let mut e: String = copy("orchestrator: ");
    e.append(kind.name());
    e.append(" (");
    e.append(error);
    e.append("; backends_attempted=");
    e.append(attempted);
    e.append(")");
    e
}

/// The columns that the orchestrator gives for a metric: those of the metric on the
/// GPU, named after the implementation where there are several.
pub open spec fn orchestrator_columns(kind: MetricKind, build: Build) -> Seq<Seq<char>> {
    match kind {
        MetricKind::Ssim2 | MetricKind::Ssim2Gpu => seq!["ssim2_gpu"@],
        MetricKind::Dssim | MetricKind::DssimGpu => seq!["dssim_gpu"@],
        MetricKind::Zensim | MetricKind::ZensimGpu => seq!["zensim_gpu"@],
        MetricKind::Butteraugli | MetricKind::ButteraugliGpu => seq![
            "butteraugli_max_gpu"@,
            "butteraugli_pnorm3_gpu"@,
        ],
        MetricKind::Iwssim | MetricKind::IwssimGpu => seq![build.iwssim_tag@],
        MetricKind::Cvvdp => seq![build.cvvdp_tag@],
    }
}

/// Renamed, the columns that the orchestrator gives for a metric are those under which
/// the metric is written when it is run without the orchestrator.
pub proof fn law_renamed_columns_match_metric(kind: MetricKind, build: Build, i: int)
    requires
        kind == MetricKind::Cvvdp ==> build.gpu_cvvdp,
        kind == MetricKind::Iwssim ==> build.gpu_iwssim,
        0 <= i < kind.width(),
    ensures
        orchestrator_columns(kind, build).len() == kind.width(),
        renamed(kind, build.iwssim_tag@, orchestrator_columns(kind, build)[i]) == kind.columns(
            build,
        )[i],
{
    reveal_strlit("butteraugli_max_gpu");
    reveal_strlit("butteraugli_pnorm3_gpu");
    assert("butteraugli_max_gpu"@.len() != "butteraugli_pnorm3_gpu"@.len());
}

// ── Options ────────────────────────────────────────────────────────────

/// The metric tag that a token of `--cpu-features` stands for.
pub open spec fn cpu_feature(token: Seq<char>) -> Option<Seq<char>> {
    let t = lowered(trimmed(token));
    if t == "all"@ || t == "cvvdp"@ || t == "ssim2"@ || t == "dssim"@ || t == "zensim"@ {
        Some(t)
    } else if t == "butter"@ || t == "butteraugli"@ {
        Some("butter"@)
    } else {
        None
    }
}

/// The tags of a list of tokens, or the message of the first unknown one.
pub open spec fn cpu_feature_list(tokens: Seq<Seq<char>>) -> Result<Seq<Seq<char>>, Seq<char>>
    decreases tokens.len(),
{
    if tokens.len() == 0 {
        Ok(Seq::<Seq<char>>::empty())
    } else {
        match cpu_feature_list(tokens.drop_last()) {
            Err(e) => Err(e),
            Ok(v) => match cpu_feature(tokens.last()) {
                Some(t) => Ok(v.push(t)),
                None => Err(
                    "unknown --cpu-features token '"@ + lowered(trimmed(tokens.last()))
                        + "'; valid: cvvdp,ssim2,dssim,butter,zensim,all"@,
                ),
            },
        }
    }
}

/// What `--cpu-features` means.
pub open spec fn cpu_features(raw: Seq<char>) -> Result<Seq<Seq<char>>, Seq<char>> {
    if trimmed(raw).len() == 0 {
        Ok(Seq::<Seq<char>>::empty())
    } else {
        cpu_feature_list(split_at_each(trimmed(raw), ','))
    }
}

proof fn lemma_features_fault_stays(tokens: Seq<Seq<char>>, n: int)
    requires
        0 <= n <= tokens.len(),
        cpu_feature_list(tokens.take(n)) is Err,
    ensures
        cpu_feature_list(tokens) == cpu_feature_list(tokens.take(n)),
    decreases tokens.len() - n,
{
    if n < tokens.len() {
        assert(tokens.take(n + 1).drop_last() =~= tokens.take(n));
        lemma_features_fault_stays(tokens, n + 1);
    } else {
        assert(tokens.take(n) =~= tokens);
    }
}

/// The metric tag that a token in lower case stands for.
fn feature_tag(t: &str) -> (r: Option<&'static str>)
    ensures
        opt_str(r) == (if t@ == "all"@ || t@ == "cvvdp"@ || t@ == "ssim2"@ || t@ == "dssim"@ || t@
            == "zensim"@ {
            Some(t@)
        } else if t@ == "butter"@ || t@ == "butteraugli"@ {
            Some("butter"@)
        } else {
            None
        }),
{
    if same(t, "all") {
        Some("all")
    } else if same(t, "cvvdp") {
        Some("cvvdp")
    } else if same(t, "ssim2") {
        Some("ssim2")
    } else if same(t, "dssim") {
        Some("dssim")
    } else if same(t, "zensim") {
        Some("zensim")
    } else if same(t, "butter") || same(t, "butteraugli") {
        Some("butter")
    } else {
        None
    }
}

/// Reads `--cpu-features`: metric tags between commas, in any case and with white
/// space around them; nothing for a blank text.
pub fn parse_cpu_features(raw: &str) -> (r: Result<Vec<&'static str>, String>)
    ensures
        match r {
            Ok(v) => cpu_features(raw@) == Ok::<Seq<Seq<char>>, Seq<char>>(str_views(v@)),
            Err(e) => cpu_features(raw@) == Err::<Seq<Seq<char>>, Seq<char>>(e@),
        },
{
    let t = trim(raw);
    let mut out: Vec<&'static str> = Vec::new();
    if t.as_str().is_empty() {
        assert(str_views(out@) =~= Seq::<Seq<char>>::empty());
        return Ok(out);
    }
    let tokens = split(t.as_str(), ',');
    let ghost all = views(tokens@);
    let mut i: usize = 0;
    assert(str_views(out@) =~= Seq::<Seq<char>>::empty());
    while i < tokens.len()
        invariant
            i <= tokens.len(),
            all == views(tokens@),
            all == split_at_each(trimmed(raw@), ','),
            trimmed(raw@).len() > 0,
            cpu_feature_list(all.take(i as int)) == Ok::<Seq<Seq<char>>, Seq<char>>(
                str_views(out@),
            ),
        decreases tokens.len() - i,
    {
        let ghost u = all.take(i + 1);
        assert(u.drop_last() =~= all.take(i as int));
        assert(u.last() == tokens@[i as int]@);
        let a = trim(tokens[i].as_str());
        let tok = to_lower(a.as_str());
        match feature_tag(tok.as_str()) {
            Some(tag) => {
                let ghost before = str_views(out@);
                out.push(tag);
                assert(str_views(out@) =~= before.push(tag@));
            },
            None => {
                proof {
                    lemma_features_fault_stays(all, i + 1);
                }
                let mut e: String = copy("unknown --cpu-features token '");
                e.append(tok.as_str());
                e.append("'; valid: cvvdp,ssim2,dssim,butter,zensim,all");
                return Err(e);
            },
        }
        i += 1;
    }
    assert(all.take(i as int) =~= all);
    Ok(out)
}

/// Whether the machine is measured when the orchestrator starts.
#[derive(Debug, Clone, Copy, PartialEq, Eq, Structural)]
pub enum BenchOnStart {
    /// Only when what is known of it is out of date.
    Auto,
    /// Always.
    Yes,
    /// Never.
    No,
}

/// What `--bench-on-start` means.
pub open spec fn bench_choice(flag: Option<Seq<char>>) -> Result<BenchOnStart, Seq<char>> {
    match flag {
        None => Ok(BenchOnStart::Auto),
        Some(v) => {
            let t = lowered(trimmed(v));
            if t == "auto"@ || t == ""@ {
                Ok(BenchOnStart::Auto)
            } else if t == "yes"@ || t == "true"@ || t == "on"@ || t == "1"@ {
                Ok(BenchOnStart::Yes)
            } else if t == "no"@ || t == "false"@ || t == "off"@ || t == "0"@ {
                Ok(BenchOnStart::No)
            } else {
                Err("--bench-on-start expects auto|yes|no, got '"@ + t + "'"@)
            }
        },
    }
}

/// Reads `--bench-on-start`.
pub fn bench_on_start_from_flag(flag: Option<&str>) -> (r: Result<BenchOnStart, String>)
    ensures
        match r {
            Ok(b) => bench_choice(opt_str(flag)) == Ok::<BenchOnStart, Seq<char>>(b),
            Err(e) => bench_choice(opt_str(flag)) == Err::<BenchOnStart, Seq<char>>(e@),
        },
{
    match flag {
        None => Ok(BenchOnStart::Auto),
        Some(v) => {
            let a = trim(v);
            let t = to_lower(a.as_str());
            let s = t.as_str();
            if same(s, "auto") || same(s, "") {
                Ok(BenchOnStart::Auto)
            } else if same(s, "yes") || same(s, "true") || same(s, "on") || same(s, "1") {
                Ok(BenchOnStart::Yes)
            } else if same(s, "no") || same(s, "false") || same(s, "off") || same(s, "0") {
                Ok(BenchOnStart::No)
            } else {
                let mut e: String = copy("--bench-on-start expects auto|yes|no, got '");
                e.append(s);
                e.append("'");
                Err(e)
            }
        },
    }
}

/// How the orchestrator is started.
#[derive(Debug)]
pub struct OrchestratorRuntimeOpts {
    pub cache_dir: Option<String>,
    pub bench_on_start: Option<bool>,
    pub cpu_features: Vec<String>,
}

/// The options that the command line asks for.
pub fn runtime_opts_from_cli(
    cache_dir: Option<String>,
    bench_on_start: BenchOnStart,
    cpu_features_raw: &str,
) -> (r: Result<OrchestratorRuntimeOpts, String>)
    ensures
        match r {
            Ok(o) => {
                &&& cpu_features(cpu_features_raw@) == Ok::<Seq<Seq<char>>, Seq<char>>(
                    views(o.cpu_features@),
                )
                &&& opt_view(o.cache_dir) == opt_view(cache_dir)
                &&& o.bench_on_start == (match bench_on_start {
                    BenchOnStart::Auto => None,
                    BenchOnStart::Yes => Some(true),
                    BenchOnStart::No => Some(false),
                })
            },
            Err(e) => cpu_features(cpu_features_raw@) == Err::<Seq<Seq<char>>, Seq<char>>(e@),
        },
{
    let tags = match parse_cpu_features(cpu_features_raw) {
        Ok(v) => v,
        Err(e) => {
            return Err(e);
        },
    };
    let mut cpu_features: Vec<String> = Vec::new();
    let mut i: usize = 0;
    while i < tags.len()
        invariant
            i <= tags.len(),
            views(cpu_features@) == str_views(tags@).take(i as int),
        decreases tags.len() - i,
    {
        let c = copy(tags[i]);
        proof {
            lemma_views_push(cpu_features@, c);
        }
        cpu_features.push(c);
        i += 1;
        assert(str_views(tags@).take(i as int) =~= str_views(tags@).take(i - 1).push(tags@[i - 1]@));
    }
    assert(str_views(tags@).take(i as int) =~= str_views(tags@));
    let bench: Option<bool> = match bench_on_start {
        BenchOnStart::Auto => None,
        BenchOnStart::Yes => Some(true),
        BenchOnStart::No => Some(false),
    };
    Ok(OrchestratorRuntimeOpts { cache_dir, bench_on_start: bench, cpu_features })
}

/// The metrics that go through the orchestrator are those with a single score.
pub proof fn law_eligible_has_one_score(kind: MetricKind, build: Build)
    ensures
        eligible(kind) <==> kind.columns(build).len() == 1,
{
}

/// The column that is used where the orchestrator gives none is the metric's own first
/// column, in a build without versioned names.
pub proof fn law_fallback_column_is_own(kind: MetricKind, build: Build)
    requires
        !build.gpu_cvvdp,
        !build.gpu_iwssim,
    ensures
        fallback_column(kind) == kind.columns(build)[0],
{
}

/// Does the word, in lower case, stand for the processor feature?
pub open spec fn word_for_feature(word: Seq<char>, feature: Seq<char>) -> bool {
    if feature == "butter"@ {
        word == "butter"@ || word == "butteraugli"@
    } else {
        word == feature && (word == "all"@ || word == "cvvdp"@ || word == "ssim2"@ || word
            == "dssim"@ || word == "zensim"@)
    }
}

/// A word gives the feature that it stands for, whatever its case and the white space
/// around it, and any other word is refused.
pub proof fn law_cpu_feature_words(token: Seq<char>, feature: Seq<char>)
    ensures
        cpu_feature(token) matches Some(t) ==> word_for_feature(lowered(trimmed(token)), t),
        word_for_feature(lowered(trimmed(token)), feature) ==> cpu_feature(token) is Some,
{
    reveal_strlit("butter");
    reveal_strlit("all");
    reveal_strlit("cvvdp");
    reveal_strlit("ssim2");
    reveal_strlit("dssim");
    reveal_strlit("zensim");
    assert("butter"@[0] == 'b' && "all"@[0] == 'a' && "cvvdp"@[0] == 'c' && "ssim2"@[0] == 's'
        && "dssim"@[0] == 'd' && "zensim"@[0] == 'z');
}

/// A list of features has one for each of its words, in their order.
pub proof fn law_cpu_features_in_order(tokens: Seq<Seq<char>>, i: int)
    requires
        0 <= i < tokens.len(),
    ensures
        cpu_feature_list(tokens) matches Ok(v) ==> v.len() == tokens.len() && cpu_feature(tokens[i])
            == Some(v[i]),
        cpu_feature(tokens[i]) is None ==> cpu_feature_list(tokens) is Err,
    decreases tokens.len(),
{
    let front = tokens.drop_last();
    if i < front.len() {
        law_cpu_features_in_order(front, i);
        assert(front[i] == tokens[i]);
    } else if front.len() > 0 {
        law_cpu_features_in_order(front, 0);
    } else {
        reveal_with_fuel(cpu_feature_list, 2);
    }
}

/// Does the word, in lower case, stand for the choice?
pub open spec fn word_for_bench(word: Seq<char>, choice: BenchOnStart) -> bool {
    match choice {
        BenchOnStart::Auto => word == "auto"@ || word == ""@,
        BenchOnStart::Yes => word == "yes"@ || word == "true"@ || word == "on"@ || word == "1"@,
        BenchOnStart::No => word == "no"@ || word == "false"@ || word == "off"@ || word == "0"@,
    }
}

/// A word gives the choice that it stands for; without one the choice is automatic.
pub proof fn law_bench_words(flag: Seq<char>, choice: BenchOnStart)
    ensures
        bench_choice(None) == Ok::<BenchOnStart, Seq<char>>(BenchOnStart::Auto),
        bench_choice(Some(flag)) matches Ok(c) ==> word_for_bench(lowered(trimmed(flag)), c),
        word_for_bench(lowered(trimmed(flag)), choice) ==> bench_choice(Some(flag)) is Ok,
{
}

} // verus!
