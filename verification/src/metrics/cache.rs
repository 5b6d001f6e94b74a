//! Metric instances that are kept from one cell to the next.
//!
//! There is one slot for each metric. An instance serves images of one size and
//! one choice of features; any other request drops it before a new one is made.

use crate::metrics::dispatch::{
    build_params, candidates, check_same_size, enabled, failure_text, metric_scorer, params_for,
    scorer_of, size_text, Attempt, Build, GpuMetric, GpuParams, MetricFlags, RuntimeWalk, Scorer,
};
use crate::metrics::kind::{
    law_auto_tries_what_is_built, runtime_name, GpuRuntime, MetricKind, ZensimFeatureRegime,
};
use crate::text::{copy, decimal, show, show_usize};
use vstd::prelude::*;

verus! {

// ── Backends ───────────────────────────────────────────────────────────

/// What the kernels run on.
#[derive(Debug, Clone, Copy, PartialEq, Eq, Structural)]
pub enum Backend {
    Cuda,
    Wgpu,
    Hip,
    /// The kernels on the processor.
    CubeclCpu,
}

/// The backend of a runtime. `Auto` is no single one.
pub fn gpu_runtime_to_backend(rt: GpuRuntime) -> (r: Result<Backend, String>)
    ensures
        match rt {
            GpuRuntime::Auto => r matches Err(e) && e@ == "Auto is expanded by the caller"@,
            GpuRuntime::Cuda => r == Ok::<Backend, String>(Backend::Cuda),
            GpuRuntime::Wgpu => r == Ok::<Backend, String>(Backend::Wgpu),
            GpuRuntime::Hip => r == Ok::<Backend, String>(Backend::Hip),
            GpuRuntime::Cpu => r == Ok::<Backend, String>(Backend::CubeclCpu),
        },
        r matches Ok(b) ==> backend_text(b) == runtime_name(rt),
{
    match rt {
        GpuRuntime::Auto => Err(copy("Auto is expanded by the caller")),
        GpuRuntime::Cuda => Ok(Backend::Cuda),
        GpuRuntime::Wgpu => Ok(Backend::Wgpu),
        GpuRuntime::Hip => Ok(Backend::Hip),
        GpuRuntime::Cpu => Ok(Backend::CubeclCpu),
    }
}

/// The name of a backend.
pub open spec fn backend_text(b: Backend) -> Seq<char> {
    match b {
        Backend::Cuda => "cuda"@,
        Backend::Wgpu => "wgpu"@,
        Backend::Hip => "hip"@,
        Backend::CubeclCpu => "cpu"@,
    }
}

/// The name of a backend.
pub fn backend_label(b: Backend) -> (r: &'static str)
    ensures
        r@ == backend_text(b),
{
    match b {
        Backend::Cuda => "cuda",
        Backend::Wgpu => "wgpu",
        Backend::Hip => "hip",
        Backend::CubeclCpu => "cpu",
    }
}

/// The message for a runtime that this build does not have.
pub fn runtime_missing(rt: GpuRuntime) -> (r: String)
    ensures
        r@ == crate::metrics::kind::runtime_name(rt)
            + " runtime not compiled in (rebuild with `--features gpu-"@
            + crate::metrics::kind::runtime_name(rt) + "`)"@,
{
    let mut s: String = copy(crate::metrics::kind::runtime_label(rt));
    s.append(" runtime not compiled in (rebuild with `--features gpu-");
    s.append(crate::metrics::kind::runtime_label(rt));
    s.append("`)");
    s
}

// ── Which instance a metric uses ───────────────────────────────────────

/// Where a metric of a cell is computed.
#[derive(Debug, Clone, Copy, PartialEq, Eq, Structural)]
pub enum CacheRoute {
    /// By the kept instance of a metric, with this choice of features.
    Kept(GpuMetric, Option<ZensimFeatureRegime>),
    /// By the kept instance of Butteraugli.
    Butter,
    /// Without the cache.
    Uncached,
}

/// Where a metric of a cell is computed. A score alone needs only the cheapest
/// features of zensim. Metrics of the processor, and those that the build lacks,
/// have nothing to keep.
pub open spec fn route_of(kind: MetricKind, build: Build) -> CacheRoute {
    if !enabled(kind, build) {
        CacheRoute::Uncached
    } else {
        match scorer_of(kind) {
            Scorer::Gpu(GpuMetric::Zensim) => CacheRoute::Kept(
                GpuMetric::Zensim,
                Some(ZensimFeatureRegime::Basic),
            ),
            Scorer::Gpu(m) => CacheRoute::Kept(m, None),
            Scorer::GpuButteraugli => CacheRoute::Butter,
            _ => CacheRoute::Uncached,
        }
    }
}

/// Where a metric of a cell is computed.
pub fn run_metric_cached(kind: MetricKind, build: Build) -> (r: CacheRoute)
    ensures
        r == route_of(kind, build),
{
    match metric_scorer(kind, build) {
        Err(_) => CacheRoute::Uncached,
        Ok(s) => match s {
            Scorer::Gpu(m) => if m == GpuMetric::Zensim {
                CacheRoute::Kept(m, Some(ZensimFeatureRegime::Basic))
            } else {
                CacheRoute::Kept(m, None)
            },
            Scorer::GpuButteraugli => CacheRoute::Butter,
            _ => CacheRoute::Uncached,
        },
    }
}

// ── The slots ──────────────────────────────────────────────────────────

/// What an instance was made for, and what it runs on.
#[derive(Debug, Clone, Copy, PartialEq, Eq)]
pub struct Slot {
    pub width: u32,
    pub height: u32,
    pub regime: Option<ZensimFeatureRegime>,
    pub backend: Backend,
}

/// The instances that are kept, one for each metric. Butteraugli has an interface of
/// its own: once a runtime has been chosen for it, `butter` holds its instance.
#[derive(Debug)]
pub struct MetricCache {
    pub runtime: GpuRuntime,
    pub slots: Vec<Option<Slot>>,
    pub butter: Option<BatchSlot>,
}

/// The place of a metric's slot.
pub open spec fn slot_place(m: GpuMetric) -> int {
    match m {
        GpuMetric::Ssim2 => 0,
        GpuMetric::Dssim => 1,
        GpuMetric::Iwssim => 2,
        GpuMetric::Zensim => 3,
        GpuMetric::Cvvdp => 4,
    }
}

/// The place of a metric's slot.
fn place_of(m: GpuMetric) -> (r: usize)
    ensures
        r == slot_place(m),
        r < 5,
{
    match m {
        GpuMetric::Ssim2 => 0,
        GpuMetric::Dssim => 1,
        GpuMetric::Iwssim => 2,
        GpuMetric::Zensim => 3,
        GpuMetric::Cvvdp => 4,
    }
}

/// Are the choices of features the same?
fn same_regime(a: Option<ZensimFeatureRegime>, b: Option<ZensimFeatureRegime>) -> (r: bool)
    ensures
        r == (a == b),
{
    match (a, b) {
        (None, None) => true,
        (Some(x), Some(y)) => x == y,
        _ => false,
    }
}

impl MetricCache {
    /// There is a place for each metric.
    pub open spec fn wf(&self) -> bool {
        self.slots@.len() == 5
    }

    /// The slot of a metric.
    pub open spec fn slot(&self, m: GpuMetric) -> Option<Slot> {
        self.slots@[slot_place(m)]
    }

    /// Does the kept instance serve the request?
    pub open spec fn serves(
        &self,
        m: GpuMetric,
        width: u32,
        height: u32,
        regime: Option<ZensimFeatureRegime>,
    ) -> bool {
        self.slot(m) matches Some(s) && s.width == width && s.height == height && s.regime
            == regime
    }

    /// A cache without instances.
    pub fn new(runtime: GpuRuntime) -> (r: MetricCache)
        ensures
            r.wf(),
            r.runtime == runtime,
            r.butter is None,
            forall|m: GpuMetric| (#[trigger] r.slot(m)) is None,
    {
        let slots: Vec<Option<Slot>> = vec![None, None, None, None, None];
        MetricCache { runtime, slots, butter: None }
    }

    /// Gets a metric ready for a request: the backend of the kept instance where it
    /// serves, else nothing, and an instance that does not serve is dropped before a
    /// new one is made.
    pub fn get_or_build_umbrella(
        &mut self,
        m: GpuMetric,
        width: u32,
        height: u32,
        regime: Option<ZensimFeatureRegime>,
    ) -> (r: Option<Backend>)
        requires
            old(self).wf(),
        ensures
            final(self).wf(),
            final(self).runtime == old(self).runtime,
            final(self).butter == old(self).butter,
            forall|o: GpuMetric| o != m ==> #[trigger] final(self).slot(o) == old(self).slot(o),
            if old(self).serves(m, width, height, regime) {
                r == Some(old(self).slot(m)->Some_0.backend) && final(self).slot(m) == old(
                    self,
                ).slot(m)
            } else {
                r is None && final(self).slot(m) is None
            },
    {
        let i: usize = place_of(m);
        match self.slots[i] {
            Some(s) => {
                if s.width == width && s.height == height && same_regime(s.regime, regime) {
                    return Some(s.backend);
                }
            },
            None => {},
        }
        self.slots.set(i, None);
        None
    }

    /// Keeps a new instance.
    pub fn install(&mut self, m: GpuMetric, slot: Slot)
        requires
            old(self).wf(),
        ensures
            final(self).wf(),
            final(self).runtime == old(self).runtime,
            final(self).butter == old(self).butter,
            final(self).slot(m) == Some(slot),
            forall|o: GpuMetric| o != m ==> #[trigger] final(self).slot(o) == old(self).slot(o),
    {
        let i: usize = place_of(m);
        self.slots.set(i, Some(slot));
    }

    /// Takes a pair of images for a metric. A pair of different sizes is refused and
    /// the cache is left as it is. For any other, the metric is made ready: the
    /// backend of the kept instance where it serves, else nothing, and an instance is
    /// to be made.
    pub fn compute_umbrella(
        &mut self,
        m: GpuMetric,
        tag: &str,
        reference: (u32, u32),
        distorted: (u32, u32),
        regime: Option<ZensimFeatureRegime>,
    ) -> (r: Result<Option<Backend>, String>)
        requires
            old(self).wf(),
        ensures
            final(self).wf(),
            final(self).runtime == old(self).runtime,
            final(self).butter == old(self).butter,
            forall|o: GpuMetric| o != m ==> #[trigger] final(self).slot(o) == old(self).slot(o),
            reference != distorted ==> final(self).slot(m) == old(self).slot(m) && (r matches Err(e)
                && e@ == size_text(
                tag@,
                reference.0,
                reference.1,
                distorted.0,
                distorted.1,
            )),
            reference == distorted ==> if old(self).serves(m, reference.0, reference.1, regime) {
                r == Ok::<Option<Backend>, String>(Some(old(self).slot(m)->Some_0.backend))
                    && final(self).slot(m) == old(self).slot(m)
            } else {
                r == Ok::<Option<Backend>, String>(None) && final(self).slot(m) is None
            },
    {
        match check_same_size(tag, reference.0, reference.1, distorted.0, distorted.1) {
            Err(e) => Err(e),
            Ok(_) => Ok(self.get_or_build_umbrella(m, reference.0, reference.1, regime)),
        }
    }

    /// Takes what came of making an instance on the runtime where the walk stands. A
    /// new instance is kept and ends the walk; a failure is noted for that runtime
    /// and leaves the cache as it is. True when the instance is kept.
    pub fn constructed(
        &mut self,
        walk: &mut RuntimeWalk,
        m: GpuMetric,
        slot: Slot,
        failure: Option<String>,
    ) -> (r: bool)
        requires
            old(self).wf(),
            old(walk).wf(),
            old(walk).next() is Some,
        ensures
            final(self).wf(),
            final(self).runtime == old(self).runtime,
            final(self).butter == old(self).butter,
            forall|o: GpuMetric| o != m ==> #[trigger] final(self).slot(o) == old(self).slot(o),
            final(walk).wf(),
            final(walk).tag() == old(walk).tag(),
            final(walk).runtime() == old(walk).runtime(),
            final(walk).have() == old(walk).have(),
            r == (failure is None),
            match failure {
                None => final(self).slot(m) == Some(slot) && final(walk).failures() == old(
                    walk,
                ).failures(),
                Some(e) => final(self).slot(m) == old(self).slot(m) && final(walk).failures()
                    == old(walk).failures().push(
                    crate::metrics::kind::runtime_name(old(walk).next()->0) + ": "@ + e@,
                ),
            },
    {
        match failure {
            None => {
                self.install(m, slot);
                true
            },
            Some(e) => {
                let _ = walk.report::<()>(Attempt::Failed(e));
                false
            },
        }
    }

    /// Takes a pair of images for Butteraugli. A pair of different sizes is refused
    /// before anything is made. For any other: whether a runtime has to be chosen, an
    /// instance made or the pair can be scored, and an instance for another size is
    /// dropped before a new one is made.
    pub fn compute_butter(&mut self, reference: (u32, u32), distorted: (u32, u32)) -> (r: Result<
        ButterAction,
        String,
    >)
        ensures
            final(self).slots == old(self).slots,
            final(self).runtime == old(self).runtime,
            reference != distorted ==> final(self).butter == old(self).butter && (r matches Err(e)
                && e@ == size_text(
                "butteraugli-gpu"@,
                reference.0,
                reference.1,
                distorted.0,
                distorted.1,
            )),
            reference == distorted ==> match old(self).butter {
                None => r == Ok::<ButterAction, String>(ButterAction::ChooseRuntime)
                    && final(self).butter is None,
                Some(b) => if b.size == Some(reference) {
                    r == Ok::<ButterAction, String>(ButterAction::Score) && final(self).butter
                        == Some(b)
                } else {
                    r == Ok::<ButterAction, String>(ButterAction::Make) && final(self).butter
                        == Some(BatchSlot { size: None })
                },
            },
    {
        match check_same_size(
            "butteraugli-gpu",
            reference.0,
            reference.1,
            distorted.0,
            distorted.1,
        ) {
            Err(e) => Err(e),
            Ok(_) => match self.butter {
                None => Ok(ButterAction::ChooseRuntime),
                Some(b) => {
                    let mut slot: BatchSlot = b;
                    if slot.prepare(reference.0, reference.1) {
                        Ok(ButterAction::Score)
                    } else {
                        self.butter = Some(slot);
                        Ok(ButterAction::Make)
                    }
                },
            },
        }
    }
}

/// The next step of Butteraugli.
#[derive(Debug, Clone, Copy, PartialEq, Eq, Structural)]
pub enum ButterAction {
    /// No runtime has been chosen yet.
    ChooseRuntime,
    /// An instance for this size is to be made.
    Make,
    /// The kept instance scores the pair.
    Score,
}

/// The backend of a runtime that is not `Auto`.
pub open spec fn backend_of(rt: GpuRuntime) -> Backend {
    match rt {
        GpuRuntime::Cuda => Backend::Cuda,
        GpuRuntime::Wgpu => Backend::Wgpu,
        GpuRuntime::Hip => Backend::Hip,
        _ => Backend::CubeclCpu,
    }
}

/// The instance to make next: the backend of the runtime where the walk stands, and
/// how the metric is set up. When every runtime has failed, the message with all
/// failures.
pub fn construct_umbrella(
    walk: &RuntimeWalk,
    m: GpuMetric,
    regime: Option<ZensimFeatureRegime>,
    flags: &MetricFlags,
) -> (r: Result<(Backend, GpuParams), String>)
    requires
        walk.wf(),
    ensures
        match walk.next() {
            Some(rt) => r == Ok::<(Backend, GpuParams), String>(
                (backend_of(rt), params_for(m, regime, *flags)),
            ),
            None => r matches Err(e) && e@ == walk.exhausted_text(),
        },
{
    match walk.current() {
        None => Err(walk.exhausted()),
        Some(rt) => {
            assert(candidates(walk.runtime(), walk.have()).contains(rt));
            proof {
                law_auto_tries_what_is_built(walk.have(), rt, 0, 0);
            }
            match gpu_runtime_to_backend(rt) {
                Err(e) => Err(e),
                Ok(b) => Ok((b, build_params(m, regime, flags))),
            }
        },
    }
}

/// An instance is made once and then serves every request of its size and choice of
/// features; one for another metric does not get in its way.
pub proof fn law_kept_instance_serves(
    before: MetricCache,
    after: MetricCache,
    m: GpuMetric,
    slot: Slot,
    o: GpuMetric,
    width: u32,
    height: u32,
    regime: Option<ZensimFeatureRegime>,
)
    requires
        before.wf(),
        after.wf(),
        after.slot(m) == Some(slot),
        forall|k: GpuMetric| k != m ==> #[trigger] after.slot(k) == before.slot(k),
    ensures
        after.serves(m, slot.width, slot.height, slot.regime),
        o != m ==> after.serves(o, width, height, regime) == before.serves(
            o,
            width,
            height,
            regime,
        ),
{
}

/// The score of a kept instance, or the message with the metric and the backend.
pub fn judge_reply<T>(tag: &str, backend: Backend, a: Attempt<T>) -> (r: Result<T, String>)
    ensures
        match a {
            Attempt::Scored(v) => r matches Ok(x) && x == v,
            _ => r matches Err(e) && e@ == tag@ + " ("@ + backend_text(backend) + "): "@
                + failure_text(a),
        },
{
    let mut m: String = copy(tag);
    m.append(" (");
    m.append(backend_label(backend));
    m.append("): ");
    match a {
        Attempt::Scored(v) => {
            return Ok(v);
        },
        Attempt::Failed(e) => {
            m.append(e.as_str());
        },
        Attempt::NotFinite(t) => {
            let mut s: String = copy("non-finite score ");
            s.append(t.as_str());
            m.append(s.as_str());
        },
        Attempt::WrongCount { expected, got } => {
            let mut s: String = copy("expected ");
            let x = show_usize(expected);
            s.append(x.as_str());
            s.append(" features, got ");
            let y = show_usize(got);
            s.append(y.as_str());
            m.append(s.as_str());
        },
    }
    Err(m)
}

/// What an instance gave for a score with features: a score that is no number comes
/// before a wrong number of features.
pub open spec fn features_attempt<T>(
    regime: ZensimFeatureRegime,
    score: T,
    not_finite: Option<Seq<char>>,
    features: nat,
    a: Attempt<T>,
) -> bool {
    match not_finite {
        Some(t) => a matches Attempt::NotFinite(s) && s@ == t,
        None => if features != regime.count() {
            a matches Attempt::WrongCount { expected, got } && expected == regime.count() && got
                == features
        } else {
            a == Attempt::Scored(score)
        },
    }
}

/// Looks at a score with features. `not_finite` is the text of a score that is no
/// number.
pub fn compute_zensim_features<T>(
    regime: ZensimFeatureRegime,
    score: T,
    not_finite: Option<String>,
    features: usize,
) -> (r: Attempt<T>)
    ensures
        features_attempt(
            regime,
            score,
            (match not_finite {
                Some(t) => Some(t@),
                None => None,
            }),
            features as nat,
            r,
        ),
{
    match not_finite {
        Some(t) => Attempt::NotFinite(t),
        None => {
            let expected: usize = regime.total_features();
            if features != expected {
                Attempt::WrongCount { expected, got: features }
            } else {
                Attempt::Scored(score)
            }
        },
    }
}

// ── Instances known by their size alone ────────────────────────────────

/// The size that an instance was made for, where there is one.
#[derive(Debug, Clone, Copy, PartialEq, Eq)]
pub struct BatchSlot {
    pub size: Option<(u32, u32)>,
}

impl BatchSlot {
    /// No instance.
    pub fn new() -> (r: BatchSlot)
        ensures
            r.size is None,
    {
        BatchSlot { size: None }
    }

    /// Does the instance serve images of this size? One that does not is dropped
    /// before a new one is made.
    pub fn prepare(&mut self, width: u32, height: u32) -> (r: bool)
        ensures
            r == (old(self).size == Some((width, height))),
            final(self).size == (if r {
                old(self).size
            } else {
                None
            }),
    {
        match self.size {
            Some(s) => {
                if s.0 == width && s.1 == height {
                    return true;
                }
            },
            None => {},
        }
        self.size = None;
        false
    }

    /// Keeps a new instance.
    pub fn keep(&mut self, width: u32, height: u32)
        ensures
            final(self).size == Some((width, height)),
    {
        self.size = Some((width, height));
    }
}

/// The message for a pair of different sizes.
pub open spec fn pair_text(rw: u32, rh: u32, dw: u32, dh: u32) -> Seq<char> {
    "dimension mismatch: ref "@ + decimal(rw as nat) + "x"@ + decimal(rh as nat) + " vs dist "@
        + decimal(dw as nat) + "x"@ + decimal(dh as nat)
}

/// May the pair be scored by an instance for the reference's size?
pub fn check_batch_pair(rw: u32, rh: u32, dw: u32, dh: u32) -> (r: Result<(), String>)
    ensures
        match r {
            Ok(_) => rw == dw && rh == dh,
            Err(e) => (rw != dw || rh != dh) && e@ == pair_text(rw, rh, dw, dh),
        },
{
    if rw == dw && rh == dh {
        return Ok(());
    }
    let mut s: String = copy("dimension mismatch: ref ");
    let a = show(rw as u64);
    s.append(a.as_str());
    s.append("x");
    let b = show(rh as u64);
    s.append(b.as_str());
    s.append(" vs dist ");
    let c = show(dw as u64);
    s.append(c.as_str());
    s.append("x");
    let d = show(dh as u64);
    s.append(d.as_str());
    Err(s)
}

/// What Butteraugli gave: its own message, or two numbers, each with its text where
/// it is not finite.
#[derive(Debug)]
pub enum ButterReply<T> {
    Failed(String),
    Scored { max: T, pnorm3: T, bad_max: Option<String>, bad_pnorm3: Option<String> },
}

/// The two scores of Butteraugli, or its message. A largest block that is no number
/// comes before a 3-norm that is none.
pub fn judge_butter<T>(reply: ButterReply<T>) -> (r: Result<(T, T), String>)
    ensures
        match reply {
            ButterReply::Failed(f) => r matches Err(e) && e@ == "butteraugli-gpu: "@ + f@,
            ButterReply::Scored { max, pnorm3, bad_max, bad_pnorm3 } => match (
                bad_max,
                bad_pnorm3,
            ) {
                (Some(t), _) => r matches Err(e) && e@
                    == "butteraugli-gpu produced non-finite max-norm: "@ + t@,
                (None, Some(t)) => r matches Err(e) && e@
                    == "butteraugli-gpu produced non-finite pnorm_3: "@ + t@,
                (None, None) => r matches Ok(p) && p.0 == max && p.1 == pnorm3,
            },
        },
{
    match reply {
        ButterReply::Failed(f) => {
            let mut m: String = copy("butteraugli-gpu: ");
            m.append(f.as_str());
            Err(m)
        },
        ButterReply::Scored { max, pnorm3, bad_max, bad_pnorm3 } => match bad_max {
            Some(t) => {
                let mut m: String = copy("butteraugli-gpu produced non-finite max-norm: ");
                m.append(t.as_str());
                Err(m)
            },
            None => match bad_pnorm3 {
                Some(t) => {
                    let mut m: String = copy("butteraugli-gpu produced non-finite pnorm_3: ");
                    m.append(t.as_str());
                    Err(m)
                },
                None => Ok((max, pnorm3)),
            },
        },
    }
}

/// A score with features is taken only where it is a number and has as many features as
/// were asked for.
pub proof fn law_features_taken_only_complete<T>(
    regime: ZensimFeatureRegime,
    score: T,
    not_finite: Option<Seq<char>>,
    features: nat,
    a: Attempt<T>,
)
    requires
        features_attempt(regime, score, not_finite, features, a),
    ensures
        a is Scored <==> not_finite is None && features == regime.count(),
        a matches Attempt::Scored(s) ==> s == score,
{
}

} // verus!
