//! From a metric to the code that computes it, and from the numbers that come
//! back to named columns.
//!
//! Scores are real numbers that this module only passes on, so their type is a
//! parameter.

use crate::metrics::kind::{
    auto_order, auto_runtimes, runtime_label, runtime_name, str_views, GpuRuntime, MetricKind,
    Runtimes, ZensimFeatureRegime,
};
use crate::text::{copy, decimal, join, joined, lemma_views_push, show, show_usize, views};
use vstd::prelude::*;

verus! {

/// Which metric backends this build has, and the implementations of CVVDP and of
/// information-weighted SSIM, as columns name them.
#[derive(Debug, Clone, Copy, PartialEq, Eq)]
pub struct Build {
    pub cpu_metrics: bool,
    pub gpu_ssim2: bool,
    pub gpu_butteraugli: bool,
    pub gpu_dssim: bool,
    pub gpu_iwssim: bool,
    pub gpu_zensim: bool,
    pub gpu_cvvdp: bool,
    pub cvvdp_tag: &'static str,
    pub iwssim_tag: &'static str,
}

/// A metric of the common GPU interface.
#[derive(Debug, Clone, Copy, PartialEq, Eq, Structural)]
pub enum GpuMetric {
    Ssim2,
    Dssim,
    Iwssim,
    Zensim,
    Cvvdp,
}

/// The code that computes a metric.
#[derive(Debug, Clone, Copy, PartialEq, Eq, Structural)]
pub enum Scorer {
    CpuSsim2,
    CpuButteraugli,
    CpuDssim,
    CpuZensim,
    /// Butteraugli on the GPU has an interface of its own, because it yields two
    /// numbers.
    GpuButteraugli,
    /// One number through the common GPU interface.
    Gpu(GpuMetric),
}

/// The build feature that a metric needs.
pub open spec fn feature_of(kind: MetricKind) -> Seq<char> {
    match kind {
        MetricKind::Ssim2
        | MetricKind::Butteraugli
        | MetricKind::Dssim
        | MetricKind::Zensim => "cpu-metrics"@,
        MetricKind::Ssim2Gpu => "gpu-ssim2"@,
        MetricKind::ButteraugliGpu => "gpu-butteraugli"@,
        MetricKind::DssimGpu => "gpu-dssim"@,
        MetricKind::IwssimGpu | MetricKind::Iwssim => "gpu-iwssim"@,
        MetricKind::ZensimGpu => "gpu-zensim"@,
        MetricKind::Cvvdp => "gpu-cvvdp"@,
    }
}

/// Does this build have the metric?
pub open spec fn enabled(kind: MetricKind, build: Build) -> bool {
    match kind {
        MetricKind::Ssim2
        | MetricKind::Butteraugli
        | MetricKind::Dssim
        | MetricKind::Zensim => build.cpu_metrics,
        MetricKind::Ssim2Gpu => build.gpu_ssim2,
        MetricKind::ButteraugliGpu => build.gpu_butteraugli,
        MetricKind::DssimGpu => build.gpu_dssim,
        MetricKind::IwssimGpu | MetricKind::Iwssim => build.gpu_iwssim,
        MetricKind::ZensimGpu => build.gpu_zensim,
        MetricKind::Cvvdp => build.gpu_cvvdp,
    }
}

/// The code that computes the metric where the build has it.
pub open spec fn scorer_of(kind: MetricKind) -> Scorer {
    match kind {
        MetricKind::Ssim2 => Scorer::CpuSsim2,
        MetricKind::Butteraugli => Scorer::CpuButteraugli,
        MetricKind::Dssim => Scorer::CpuDssim,
        MetricKind::Zensim => Scorer::CpuZensim,
        MetricKind::ButteraugliGpu => Scorer::GpuButteraugli,
        MetricKind::Ssim2Gpu => Scorer::Gpu(GpuMetric::Ssim2),
        MetricKind::DssimGpu => Scorer::Gpu(GpuMetric::Dssim),
        MetricKind::IwssimGpu | MetricKind::Iwssim => Scorer::Gpu(GpuMetric::Iwssim),
        MetricKind::ZensimGpu => Scorer::Gpu(GpuMetric::Zensim),
        MetricKind::Cvvdp => Scorer::Gpu(GpuMetric::Cvvdp),
    }
}

/// The message for a metric that this build does not have.
pub open spec fn disabled_text(metric: Seq<char>, feature: Seq<char>) -> Seq<char> {
    "metric '"@ + metric + "' is disabled (rebuild with `--features "@ + feature + "`)"@
}

/// The message for a metric that this build does not have.
pub fn disabled_msg(metric: &str, feature: &str) -> (r: String)
    ensures
        r@ == disabled_text(metric@, feature@),
{
    let mut s: String = copy("metric '");
    s.append(metric);
    s.append("' is disabled (rebuild with `--features ");
    s.append(feature);
    s.append("`)");
    s
}

/// The build feature that a metric needs.
fn needed_feature(kind: MetricKind) -> (r: &'static str)
    ensures
        r@ == feature_of(kind),
{
    match kind {
        MetricKind::Ssim2
        | MetricKind::Butteraugli
        | MetricKind::Dssim
        | MetricKind::Zensim => "cpu-metrics",
        MetricKind::Ssim2Gpu => "gpu-ssim2",
        MetricKind::ButteraugliGpu => "gpu-butteraugli",
        MetricKind::DssimGpu => "gpu-dssim",
        MetricKind::IwssimGpu | MetricKind::Iwssim => "gpu-iwssim",
        MetricKind::ZensimGpu => "gpu-zensim",
        MetricKind::Cvvdp => "gpu-cvvdp",
    }
}

/// The code that computes a metric, or the message when this build lacks it.
pub fn metric_scorer(kind: MetricKind, build: Build) -> (r: Result<Scorer, String>)
    ensures
        match r {
            Ok(s) => enabled(kind, build) && s == scorer_of(kind),
            Err(e) => !enabled(kind, build) && e@ == disabled_text(
                kind.spec_name(),
                feature_of(kind),
            ),
        },
{
    let on: bool = match kind {
        MetricKind::Ssim2
        | MetricKind::Butteraugli
        | MetricKind::Dssim
        | MetricKind::Zensim => build.cpu_metrics,
        MetricKind::Ssim2Gpu => build.gpu_ssim2,
        MetricKind::ButteraugliGpu => build.gpu_butteraugli,
        MetricKind::DssimGpu => build.gpu_dssim,
        MetricKind::IwssimGpu | MetricKind::Iwssim => build.gpu_iwssim,
        MetricKind::ZensimGpu => build.gpu_zensim,
        MetricKind::Cvvdp => build.gpu_cvvdp,
    };
    if !on {
        return Err(disabled_msg(kind.name(), needed_feature(kind)));
    }
    Ok(
        match kind {
            MetricKind::Ssim2 => Scorer::CpuSsim2,
            MetricKind::Butteraugli => Scorer::CpuButteraugli,
            MetricKind::Dssim => Scorer::CpuDssim,
            MetricKind::Zensim => Scorer::CpuZensim,
            MetricKind::ButteraugliGpu => Scorer::GpuButteraugli,
            MetricKind::Ssim2Gpu => Scorer::Gpu(GpuMetric::Ssim2),
            MetricKind::DssimGpu => Scorer::Gpu(GpuMetric::Dssim),
            MetricKind::IwssimGpu | MetricKind::Iwssim => Scorer::Gpu(GpuMetric::Iwssim),
            MetricKind::ZensimGpu => Scorer::Gpu(GpuMetric::Zensim),
            MetricKind::Cvvdp => Scorer::Gpu(GpuMetric::Cvvdp),
        },
    )
}

/// The numbers that a scorer yields: one, or two for Butteraugli.
#[derive(Debug)]
pub enum Scores<T> {
    One(T),
    /// The largest block and the 3-norm.
    Two(T, T),
}

/// Are these as many numbers as the metric has columns?
pub open spec fn fits<T>(kind: MetricKind, s: Scores<T>) -> bool {
    s is Two <==> (kind == MetricKind::Butteraugli || kind == MetricKind::ButteraugliGpu)
}

/// The numbers in order.
pub open spec fn numbers<T>(s: Scores<T>) -> Seq<T> {
    match s {
        Scores::One(a) => seq![a],
        Scores::Two(a, b) => seq![a, b],
    }
}

/// Runs a metric, given what its scorer replied: each number under the name of
/// its column, the scorer's own error, or the message that the build lacks the
/// metric, whatever was replied.
pub fn run_metric<T>(kind: MetricKind, build: Build, reply: Result<Scores<T>, String>) -> (r: Result<
    Vec<(&'static str, T)>,
    String,
>)
    requires
        reply matches Ok(s) ==> fits(kind, s),
    ensures
        match r {
            Ok(v) => {
                &&& enabled(kind, build)
                &&& reply matches Ok(s) && v@.len() == numbers(s).len() && v@.len()
                    == kind.width() && forall|i: int|
                    0 <= i < v@.len() ==> (#[trigger] v@[i]).0@ == kind.columns(build)[i] && v@[i].1
                        == numbers(s)[i]
            },
            Err(e) => if enabled(kind, build) {
                reply matches Err(f) && e@ == f@
            } else {
                e@ == disabled_text(kind.spec_name(), feature_of(kind))
            },
        },
{
    match metric_scorer(kind, build) {
        Err(e) => Err(e),
        Ok(_) => match reply {
            Err(e) => Err(e),
            Ok(s) => {
                let names = kind.column_names(build);
                assert(names@.len() == str_views(names@).len());
                assert forall|i: int| 0 <= i < names@.len() implies names@[i]@
                    == kind.columns(build)[i] by {
                    assert(str_views(names@)[i] == names@[i]@);
                }
                let out: Vec<(&'static str, T)> = match s {
                    Scores::One(a) => vec![(names[0], a)],
                    Scores::Two(a, b) => vec![(names[0], a), (names[1], b)],
                };
                Ok(out)
            },
        },
    }
}

/// The message for a pair of images of different sizes.
pub open spec fn size_text(tag: Seq<char>, rw: u32, rh: u32, dw: u32, dh: u32) -> Seq<char> {
    tag + ": reference ("@ + decimal(rw as nat) + "×"@ + decimal(rh as nat)
        + ") and distorted ("@ + decimal(dw as nat) + "×"@ + decimal(dh as nat)
        + ") differ in size"@
}

/// Two images can be compared when they have the same size.
pub fn check_same_size(tag: &str, rw: u32, rh: u32, dw: u32, dh: u32) -> (r: Result<(), String>)
    ensures
        match r {
            Ok(_) => rw == dw && rh == dh,
            Err(e) => (rw != dw || rh != dh) && e@ == size_text(tag@, rw, rh, dw, dh),
        },
{
    if rw == dw && rh == dh {
        return Ok(());
    }
    let mut s: String = copy(tag);
    s.append(": reference (");
    let a = show(rw as u64);
    s.append(a.as_str());
    s.append("×");
    let b = show(rh as u64);
    s.append(b.as_str());
    s.append(") and distorted (");
    let c = show(dw as u64);
    s.append(c.as_str());
    s.append("×");
    let d = show(dh as u64);
    s.append(d.as_str());
    s.append(") differ in size");
    Err(s)
}

// ── Trying the runtimes ────────────────────────────────────────────────

/// The runtimes that a choice stands for in a build, in the order they are tried.
pub open spec fn candidates(rt: GpuRuntime, have: Runtimes) -> Seq<GpuRuntime> {
    if rt == GpuRuntime::Auto {
        auto_runtimes(have)
    } else {
        seq![rt]
    }
}

/// What came of one runtime.
#[derive(Debug)]
pub enum Attempt<T> {
    /// The runtime, its parameters, the metric or its run failed, with a message.
    Failed(String),
    /// The score is no finite number; its text.
    NotFinite(String),
    /// The wrong number of features came back.
    WrongCount { expected: usize, got: usize },
    /// A finite score.
    Scored(T),
}

/// How a failed attempt is reported, without the runtime's name.
pub open spec fn failure_text<T>(a: Attempt<T>) -> Seq<char> {
    match a {
        Attempt::Failed(e) => e@,
        Attempt::NotFinite(t) => "non-finite score "@ + t@,
        Attempt::WrongCount { expected, got } => "expected "@ + decimal(expected as nat)
            + " features, got "@ + decimal(got as nat),
        Attempt::Scored(_) => Seq::<char>::empty(),
    }
}

/// A walk over the runtimes of a choice: those that were tried failed, and their
/// failures are kept in order.
#[derive(Debug)]
pub struct RuntimeWalk {
    tag: String,
    runtime: GpuRuntime,
    have: Runtimes,
    failures: Vec<String>,
}

impl RuntimeWalk {
    /// What is being scored.
    pub closed spec fn tag(&self) -> Seq<char> {
        self.tag@
    }

    /// The choice that is being walked.
    pub closed spec fn runtime(&self) -> GpuRuntime {
        self.runtime
    }

    /// The runtimes that the build has.
    pub closed spec fn have(&self) -> Runtimes {
        self.have
    }

    /// The failures so far.
    pub closed spec fn failures(&self) -> Seq<Seq<char>> {
        views(self.failures@)
    }

    /// No more failures than there are runtimes.
    pub open spec fn wf(&self) -> bool {
        self.failures().len() <= candidates(self.runtime(), self.have()).len()
    }

    /// The runtime to try next; none when all have failed.
    pub open spec fn next(&self) -> Option<GpuRuntime> {
        if self.failures().len() < candidates(self.runtime(), self.have()).len() {
            Some(candidates(self.runtime(), self.have())[self.failures().len() as int])
        } else {
            None
        }
    }

    /// A walk that has tried nothing yet.
    pub fn start(tag: &str, runtime: GpuRuntime, have: Runtimes) -> (r: RuntimeWalk)
        ensures
            r.wf(),
            r.tag() == tag@,
            r.runtime() == runtime,
            r.have() == have,
            r.failures() == Seq::<Seq<char>>::empty(),
    {
        let r = RuntimeWalk { tag: copy(tag), runtime, have, failures: Vec::new() };
        assert(r.failures() =~= Seq::<Seq<char>>::empty());
        r
    }

    /// The runtime to try next; none when all have failed.
    pub fn current(&self) -> (r: Option<GpuRuntime>)
        requires
            self.wf(),
        ensures
            r == self.next(),
    {
        let order: Vec<GpuRuntime> = match self.runtime {
            GpuRuntime::Auto => auto_order(self.have),
            other => {
                let one: Vec<GpuRuntime> = vec![other];
                assert(one@ =~= candidates(self.runtime, self.have));
                one
            },
        };
        assert(self.failures().len() == self.failures@.len());
        if self.failures.len() < order.len() {
            Some(order[self.failures.len()])
        } else {
            None
        }
    }

    /// Takes what came of the current runtime: a finite score ends the walk, any
    /// other outcome is kept as that runtime's failure.
    pub fn report<T>(&mut self, a: Attempt<T>) -> (r: Option<T>)
        requires
            old(self).wf(),
            old(self).next() is Some,
        ensures
            final(self).wf(),
            final(self).tag() == old(self).tag(),
            final(self).runtime() == old(self).runtime(),
            final(self).have() == old(self).have(),
            match a {
                Attempt::Scored(v) => r == Some(v) && final(self).failures() == old(
                    self,
                ).failures(),
                _ => r is None && final(self).failures() == old(self).failures().push(
                    runtime_name(old(self).next()->0) + ": "@ + failure_text(a),
                ),
            },
    {
        let rt: GpuRuntime = match self.current() {
            Some(rt) => rt,
            None => GpuRuntime::Auto,
        };
        let mut line: String = copy(runtime_label(rt));
        line.append(": ");
        let ghost head = line@;
        match a {
            Attempt::Scored(v) => {
                return Some(v);
            },
            Attempt::Failed(e) => {
                line.append(e.as_str());
            },
            Attempt::NotFinite(t) => {
                let mut s: String = copy("non-finite score ");
                s.append(t.as_str());
                line.append(s.as_str());
            },
            Attempt::WrongCount { expected, got } => {
                let mut s: String = copy("expected ");
                let x = show_usize(expected);
                s.append(x.as_str());
                s.append(" features, got ");
                let y = show_usize(got);
                s.append(y.as_str());
                line.append(s.as_str());
            },
        }
        proof {
            lemma_views_push(self.failures@, line);
        }
        self.failures.push(line);
        None
    }

    /// The message when every runtime failed: all failures, in order.
    pub open spec fn exhausted_text(&self) -> Seq<char> {
        self.tag() + ": no runtime succeeded; tried ["@ + (if self.failures().len() == 0 {
            "none"@
        } else {
            joined(self.failures(), "; "@)
        }) + "]"@
    }

    /// The message when every runtime failed: all failures, in order.
    pub fn exhausted(&self) -> (r: String)
        ensures
            r@ == self.exhausted_text(),
    {
        let mut s: String = copy(self.tag.as_str());
        s.append(": no runtime succeeded; tried [");
        assert(self.failures().len() == self.failures@.len());
        if self.failures.len() == 0 {
            s.append("none");
        } else {
            let all = join(self.failures.as_slice(), "; ");
            s.append(all.as_str());
        }
        s.append("]");
        s
    }

    /// The message of a scorer that reports only its last failure.
    pub open spec fn last_text(&self) -> Seq<char> {
        self.tag() + ": no runtime succeeded; last error: "@ + (if self.failures().len() == 0 {
            "none"@
        } else {
            self.failures().last()
        })
    }

    /// The message of a scorer that reports only its last failure.
    pub fn last_failure(&self) -> (r: String)
        ensures
            r@ == self.last_text(),
    {
        let mut s: String = copy(self.tag.as_str());
        s.append(": no runtime succeeded; last error: ");
        assert(self.failures().len() == self.failures@.len());
        if self.failures.len() == 0 {
            s.append("none");
        } else {
            s.append(self.failures[self.failures.len() - 1].as_str());
        }
        s
    }
}

/// A walk over `Auto` reaches the runtimes of the build one after another: with `n`
/// failures it stands at the runtime after the first `n`, and it stops exactly when
/// every one of them has failed once.
pub proof fn law_walk_order(w: RuntimeWalk)
    requires
        w.wf(),
        w.runtime() == GpuRuntime::Auto,
    ensures
        w.failures().len() < auto_runtimes(w.have()).len() ==> w.next() == Some(
            auto_runtimes(w.have())[w.failures().len() as int],
        ),
        w.next() is None <==> w.failures().len() == auto_runtimes(w.have()).len(),
{
}

// ── Process-wide choices ───────────────────────────────────────────────

/// Choices that hold for every metric of a run.
#[derive(Debug, Clone, Copy, PartialEq, Eq, Structural)]
pub struct MetricFlags {
    pub allow_small_images: bool,
}

impl Default for MetricFlags {
    fn default() -> (r: MetricFlags)
        ensures
            !r.allow_small_images,
    {
        MetricFlags { allow_small_images: false }
    }
}

/// Lets information-weighted SSIM take images below its usual minimum.
pub fn set_allow_small_images(flags: &mut MetricFlags)
    ensures
        final(flags).allow_small_images,
{
    flags.allow_small_images = true;
}

/// May information-weighted SSIM take images below its usual minimum?
pub fn allow_small_images(flags: &MetricFlags) -> (r: bool)
    ensures
        r == flags.allow_small_images,
{
    flags.allow_small_images
}

/// How a metric of the common GPU interface is set up.
#[derive(Debug, Clone, Copy, PartialEq, Eq, Structural)]
pub enum GpuParams {
    /// The metric's own defaults.
    Default,
    /// Information-weighted SSIM with padding for small images.
    SmallImages,
    /// Zensim with a choice of features.
    Features(ZensimFeatureRegime),
}

/// How a metric is set up when nothing more is asked of it.
pub open spec fn default_params(metric: GpuMetric, flags: MetricFlags) -> GpuParams {
    if metric == GpuMetric::Iwssim && flags.allow_small_images {
        GpuParams::SmallImages
    } else {
        GpuParams::Default
    }
}

/// How a metric is set up when nothing more is asked of it.
pub fn resolve_default_params(metric: GpuMetric, flags: &MetricFlags) -> (r: GpuParams)
    ensures
        r == default_params(metric, *flags),
{
    if metric == GpuMetric::Iwssim && allow_small_images(flags) {
        GpuParams::SmallImages
    } else {
        GpuParams::Default
    }
}

/// How a metric is set up for a choice of zensim features.
pub open spec fn params_for(
    metric: GpuMetric,
    regime: Option<ZensimFeatureRegime>,
    flags: MetricFlags,
) -> GpuParams {
    match (metric, regime) {
        (GpuMetric::Zensim, Some(g)) => GpuParams::Features(g),
        _ => default_params(metric, flags),
    }
}

/// How a metric is set up for a choice of zensim features.
pub fn build_params(
    metric: GpuMetric,
    regime: Option<ZensimFeatureRegime>,
    flags: &MetricFlags,
) -> (r: GpuParams)
    ensures
        r == params_for(metric, regime, *flags),
{
    if metric == GpuMetric::Zensim {
        match regime {
            Some(g) => {
                return GpuParams::Features(g);
            },
            None => {},
        }
    }
    resolve_default_params(metric, flags)
}

/// A runtime that is named is the only one that is tried.
pub proof fn law_named_runtime_alone(rt: GpuRuntime, have: Runtimes, other: GpuRuntime)
    requires
        rt != GpuRuntime::Auto,
    ensures
        candidates(rt, have).contains(other) <==> other == rt,
        candidates(rt, have).len() == 1,
{
    assert(candidates(rt, have)[0] == rt);
}

/// The scores that fit a metric are as many as its columns.
pub proof fn law_scores_fit_columns<T>(kind: MetricKind, build: Build, s: Scores<T>)
    ensures
        fits(kind, s) <==> numbers(s).len() == kind.columns(build).len(),
{
}

} // verus!
