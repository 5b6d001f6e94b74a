//! Which perceptual measure a metric, a piece of scoring code, a column and a build
//! feature belong to. All four agree.

use crate::metrics::cache::{backend_of, backend_text, route_of, slot_place, CacheRoute};
use crate::metrics::dispatch::{
    enabled, feature_of, params_for, scorer_of, Build, GpuMetric, GpuParams, MetricFlags, Scorer,
};
use crate::metrics::kind::{runtime_name, GpuRuntime, MetricKind, ZensimFeatureRegime};
use vstd::prelude::*;

verus! {

/// A perceptual measure, wherever it is computed.
pub enum Family {
    Ssim2,
    Butteraugli,
    Dssim,
    Iwssim,
    Zensim,
    Cvvdp,
}

/// The word for a measure in the names of metrics.
pub open spec fn family_word(f: Family) -> Seq<char> {
    match f {
        Family::Ssim2 => "ssim2"@,
        Family::Butteraugli => "butteraugli"@,
        Family::Dssim => "dssim"@,
        Family::Iwssim => "iwssim"@,
        Family::Zensim => "zensim"@,
        Family::Cvvdp => "cvvdp"@,
    }
}

/// Is the metric of this measure, by its name: the measure's word, alone or marked as
/// running on a GPU?
pub open spec fn of_family(kind: MetricKind, f: Family) -> bool {
    kind.spec_name() == family_word(f) || kind.spec_name() == family_word(f) + "-gpu"@
}

/// The measure that a piece of scoring code computes.
pub open spec fn scored_family(s: Scorer) -> Family {
    match s {
        Scorer::CpuSsim2 => Family::Ssim2,
        Scorer::CpuButteraugli => Family::Butteraugli,
        Scorer::CpuDssim => Family::Dssim,
        Scorer::CpuZensim => Family::Zensim,
        Scorer::GpuButteraugli => Family::Butteraugli,
        Scorer::Gpu(m) => gpu_family(m),
    }
}

/// The measure of a metric of the common GPU interface.
pub open spec fn gpu_family(m: GpuMetric) -> Family {
    match m {
        GpuMetric::Ssim2 => Family::Ssim2,
        GpuMetric::Dssim => Family::Dssim,
        GpuMetric::Iwssim => Family::Iwssim,
        GpuMetric::Zensim => Family::Zensim,
        GpuMetric::Cvvdp => Family::Cvvdp,
    }
}

/// Does the scoring code run on a GPU?
pub open spec fn scores_on_gpu(s: Scorer) -> bool {
    s is GpuButteraugli || s is Gpu
}

/// Has the build the GPU code of a measure?
pub open spec fn gpu_built(build: Build, f: Family) -> bool {
    match f {
        Family::Ssim2 => build.gpu_ssim2,
        Family::Butteraugli => build.gpu_butteraugli,
        Family::Dssim => build.gpu_dssim,
        Family::Iwssim => build.gpu_iwssim,
        Family::Zensim => build.gpu_zensim,
        Family::Cvvdp => build.gpu_cvvdp,
    }
}

proof fn lemma_marked_words()
    ensures
        "ssim2-gpu"@ == "ssim2"@ + "-gpu"@,
        "butteraugli-gpu"@ == "butteraugli"@ + "-gpu"@,
        "dssim-gpu"@ == "dssim"@ + "-gpu"@,
        "iwssim-gpu"@ == "iwssim"@ + "-gpu"@,
        "zensim-gpu"@ == "zensim"@ + "-gpu"@,
{
    reveal_strlit("-gpu");
    reveal_strlit("ssim2");
    reveal_strlit("ssim2-gpu");
    reveal_strlit("butteraugli");
    reveal_strlit("butteraugli-gpu");
    reveal_strlit("dssim");
    reveal_strlit("dssim-gpu");
    reveal_strlit("iwssim");
    reveal_strlit("iwssim-gpu");
    reveal_strlit("zensim");
    reveal_strlit("zensim-gpu");
    assert("ssim2-gpu"@ =~= "ssim2"@ + "-gpu"@);
    assert("butteraugli-gpu"@ =~= "butteraugli"@ + "-gpu"@);
    assert("dssim-gpu"@ =~= "dssim"@ + "-gpu"@);
    assert("iwssim-gpu"@ =~= "iwssim"@ + "-gpu"@);
    assert("zensim-gpu"@ =~= "zensim"@ + "-gpu"@);
}

/// The words of the measures, alone or marked, are all different.
pub proof fn lemma_words_differ(f: Family, g: Family)
    requires
        f != g,
    ensures
        family_word(f) != family_word(g),
        family_word(f) != family_word(g) + "-gpu"@,
        family_word(f) + "-gpu"@ != family_word(g) + "-gpu"@,
{
    reveal_strlit("-gpu");
    reveal_strlit("ssim2");
    reveal_strlit("butteraugli");
    reveal_strlit("dssim");
    reveal_strlit("iwssim");
    reveal_strlit("zensim");
    reveal_strlit("cvvdp");
    assert("ssim2"@.len() == 5 && "ssim2"@[0] == 's' && "ssim2"@[1] == 's');
    assert("butteraugli"@.len() == 11 && "butteraugli"@[0] == 'b' && "butteraugli"@[1] == 'u');
    assert("dssim"@.len() == 5 && "dssim"@[0] == 'd' && "dssim"@[1] == 's');
    assert("iwssim"@.len() == 6 && "iwssim"@[0] == 'i' && "iwssim"@[1] == 'w');
    assert("zensim"@.len() == 6 && "zensim"@[0] == 'z' && "zensim"@[1] == 'e');
    assert("cvvdp"@.len() == 5 && "cvvdp"@[0] == 'c' && "cvvdp"@[1] == 'v');
    let a = family_word(f);
    let b = family_word(g);
    assert(a[0] != b[0] || a[1] != b[1]);
    assert((a + "-gpu"@)[0] == a[0] && (a + "-gpu"@)[1] == a[1]);
    assert((b + "-gpu"@)[0] == b[0] && (b + "-gpu"@)[1] == b[1]);
}

/// The code that is chosen for a metric computes that metric's own measure, and runs on
/// a GPU exactly when the metric does.
pub proof fn law_scorer_computes_its_metric(kind: MetricKind)
    ensures
        of_family(kind, scored_family(scorer_of(kind))),
        scores_on_gpu(scorer_of(kind)) == kind.on_gpu(),
{
    lemma_marked_words();
}

/// Metrics of different measures never share scoring code.
pub proof fn law_measures_share_no_scorer(a: MetricKind, b: MetricKind, f: Family, g: Family)
    requires
        of_family(a, f),
        of_family(b, g),
        f != g,
    ensures
        scorer_of(a) != scorer_of(b),
{
    law_scorer_computes_its_metric(a);
    law_scorer_computes_its_metric(b);
    let h = scored_family(scorer_of(a));
    if h != f {
        lemma_words_differ(h, f);
        lemma_words_differ(f, h);
    }
    if h != g {
        lemma_words_differ(h, g);
        lemma_words_differ(g, h);
    }
}

/// A metric runs on a GPU exactly when its name is marked so, or when it is one of the
/// two that exist nowhere else.
pub proof fn law_gpu_metrics_by_name(kind: MetricKind)
    ensures
        kind.on_gpu() <==> {
            ||| kind.spec_name() == "cvvdp"@
            ||| kind.spec_name() == "iwssim"@
            ||| exists|w: Seq<char>| kind.spec_name() == #[trigger] (w + "-gpu"@)
        },
{
    lemma_marked_words();
    reveal_strlit("-gpu");
    reveal_strlit("ssim2");
    reveal_strlit("butteraugli");
    reveal_strlit("dssim");
    reveal_strlit("iwssim");
    reveal_strlit("zensim");
    reveal_strlit("cvvdp");
    assert("ssim2"@.last() == '2' && "butteraugli"@.last() == 'i' && "dssim"@.last() == 'm'
        && "zensim"@.last() == 'm');
    assert("dssim"@[0] == 'd' && "zensim"@[0] == 'z' && "iwssim"@[0] == 'i' && "cvvdp"@[0] == 'c');
    assert("ssim2"@[0] == 's' && "butteraugli"@[0] == 'b');
    assert forall|w: Seq<char>| (#[trigger] (w + "-gpu"@)).last() == 'u' by {
        assert((w + "-gpu"@).last() == "-gpu"@[3]);
    }
    if kind.on_gpu() {
        assert(kind.spec_name() == "cvvdp"@ || kind.spec_name() == "iwssim"@ || kind.spec_name()
            == "ssim2"@ + "-gpu"@ || kind.spec_name() == "butteraugli"@ + "-gpu"@
            || kind.spec_name() == "dssim"@ + "-gpu"@ || kind.spec_name() == "iwssim"@ + "-gpu"@
            || kind.spec_name() == "zensim"@ + "-gpu"@);
    }
}

/// A build has a metric exactly when it has the code for its measure where the metric
/// runs, and the message names that feature.
pub proof fn law_metric_needs_its_own_feature(kind: MetricKind, build: Build, f: Family)
    requires
        of_family(kind, f),
    ensures
        kind.on_gpu() ==> enabled(kind, build) == gpu_built(build, f) && feature_of(kind)
            == "gpu-"@ + family_word(f),
        !kind.on_gpu() ==> enabled(kind, build) == build.cpu_metrics && feature_of(kind)
            == "cpu-metrics"@,
{
    law_scorer_computes_its_metric(kind);
    let h = scored_family(scorer_of(kind));
    if h != f {
        lemma_words_differ(h, f);
        lemma_words_differ(f, h);
    }
    reveal_strlit("gpu-");
    reveal_strlit("ssim2");
    reveal_strlit("gpu-ssim2");
    assert("gpu-ssim2"@ =~= "gpu-"@ + "ssim2"@);
    reveal_strlit("butteraugli");
    reveal_strlit("gpu-butteraugli");
    assert("gpu-butteraugli"@ =~= "gpu-"@ + "butteraugli"@);
    reveal_strlit("dssim");
    reveal_strlit("gpu-dssim");
    assert("gpu-dssim"@ =~= "gpu-"@ + "dssim"@);
    reveal_strlit("iwssim");
    reveal_strlit("gpu-iwssim");
    assert("gpu-iwssim"@ =~= "gpu-"@ + "iwssim"@);
    reveal_strlit("zensim");
    reveal_strlit("gpu-zensim");
    assert("gpu-zensim"@ =~= "gpu-"@ + "zensim"@);
    reveal_strlit("cvvdp");
    reveal_strlit("gpu-cvvdp");
    assert("gpu-cvvdp"@ =~= "gpu-"@ + "cvvdp"@);
}

/// The end of the names of the columns of a metric.
pub open spec fn column_mark(kind: MetricKind) -> Seq<char> {
    if kind.on_gpu() {
        "_gpu"@
    } else {
        Seq::<char>::empty()
    }
}

/// A metric fills one column, named after its measure, or two for butteraugli, and those
/// of the GPU are marked. The two metrics that exist only on a GPU have no mark: a build
/// that has one of them names its column after the implementation.
pub proof fn law_columns_named_after_measure(kind: MetricKind, build: Build, f: Family)
    requires
        of_family(kind, f),
    ensures
        kind.columns(build).len() == kind.width(),
        kind.width() == (if f is Butteraugli {
            2nat
        } else {
            1nat
        }),
        f is Butteraugli ==> kind.columns(build)[0] == "butteraugli_max"@ + column_mark(kind)
            && kind.columns(build)[1] == "butteraugli_pnorm3"@ + column_mark(kind),
        !(f is Butteraugli) && kind.spec_name() != "cvvdp"@ && kind.spec_name() != "iwssim"@
            ==> kind.columns(build)[0] == family_word(f) + column_mark(kind),
        kind.spec_name() == "cvvdp"@ ==> kind.columns(build)[0] == (if build.gpu_cvvdp {
            build.cvvdp_tag@
        } else {
            "cvvdp"@
        }),
        kind.spec_name() == "iwssim"@ ==> kind.columns(build)[0] == (if build.gpu_iwssim {
            build.iwssim_tag@
        } else {
            "iwssim"@
        }),
{
    law_scorer_computes_its_metric(kind);
    let h = scored_family(scorer_of(kind));
    if h != f {
        lemma_words_differ(h, f);
        lemma_words_differ(f, h);
    }
    lemma_marked_words();
    let none = Seq::<char>::empty();
    reveal_strlit("_gpu");
    reveal_strlit("-gpu");
    reveal_strlit("ssim2");
    reveal_strlit("ssim2_gpu");
    assert("ssim2_gpu"@ =~= "ssim2"@ + "_gpu"@);
    assert("ssim2"@ =~= "ssim2"@ + none);
    reveal_strlit("dssim");
    reveal_strlit("dssim_gpu");
    assert("dssim_gpu"@ =~= "dssim"@ + "_gpu"@);
    assert("dssim"@ =~= "dssim"@ + none);
    reveal_strlit("iwssim");
    reveal_strlit("iwssim_gpu");
    assert("iwssim_gpu"@ =~= "iwssim"@ + "_gpu"@);
    assert("iwssim"@ =~= "iwssim"@ + none);
    reveal_strlit("zensim");
    reveal_strlit("zensim_gpu");
    assert("zensim_gpu"@ =~= "zensim"@ + "_gpu"@);
    assert("zensim"@ =~= "zensim"@ + none);
    reveal_strlit("butteraugli_max");
    reveal_strlit("butteraugli_max_gpu");
    assert("butteraugli_max_gpu"@ =~= "butteraugli_max"@ + "_gpu"@);
    assert("butteraugli_max"@ =~= "butteraugli_max"@ + none);
    reveal_strlit("butteraugli_pnorm3");
    reveal_strlit("butteraugli_pnorm3_gpu");
    assert("butteraugli_pnorm3_gpu"@ =~= "butteraugli_pnorm3"@ + "_gpu"@);
    assert("butteraugli_pnorm3"@ =~= "butteraugli_pnorm3"@ + none);
    reveal_strlit("cvvdp");
    reveal_strlit("butteraugli");
    assert("cvvdp"@.len() == 5 && "cvvdp"@[0] == 'c');
    assert("iwssim"@.len() == 6 && "iwssim"@[0] == 'i');
    assert("ssim2"@[0] == 's' && "dssim"@[0] == 'd' && "zensim"@[0] == 'z' && "butteraugli"@[0]
        == 'b');
    assert(("ssim2"@ + "-gpu"@)[0] == 's' && ("dssim"@ + "-gpu"@)[0] == 'd' && ("zensim"@
        + "-gpu"@)[0] == 'z' && ("butteraugli"@ + "-gpu"@)[0] == 'b');
    assert(("iwssim"@ + "-gpu"@).len() == 10 && ("iwssim"@ + "-gpu"@)[0] == 'i');
}

/// What is kept between cells for a metric is of the metric's own measure; nothing is
/// kept for a metric of the processor or one that the build lacks.
pub proof fn law_kept_scorer_is_of_its_measure(kind: MetricKind, build: Build, f: Family)
    requires
        of_family(kind, f),
    ensures
        route_of(kind, build) is Uncached <==> !kind.on_gpu() || !enabled(kind, build),
        route_of(kind, build) is Butter ==> f is Butteraugli,
        route_of(kind, build) matches CacheRoute::Kept(m, regime) ==> gpu_family(m) == f && regime
            == (if f is Zensim {
            Some(ZensimFeatureRegime::Basic)
        } else {
            None
        }),
{
    law_scorer_computes_its_metric(kind);
    let h = scored_family(scorer_of(kind));
    if h != f {
        lemma_words_differ(h, f);
        lemma_words_differ(f, h);
    }
}

/// Each metric has a slot of its own.
pub proof fn law_slots_apart(a: GpuMetric, b: GpuMetric)
    ensures
        0 <= slot_place(a) < 5,
        slot_place(a) == slot_place(b) <==> a == b,
{
}

/// A runtime and its backend have the same name.
pub proof fn law_backend_named_like_runtime(rt: GpuRuntime)
    requires
        rt != GpuRuntime::Auto,
    ensures
        backend_text(backend_of(rt)) == runtime_name(rt),
{
}

/// A metric is set up otherwise than by its defaults in two cases only: zensim with the
/// features that are asked for, and information-weighted SSIM where small images are
/// allowed.
pub proof fn law_setup_departs_only_when_asked(
    m: GpuMetric,
    regime: Option<ZensimFeatureRegime>,
    flags: MetricFlags,
)
    ensures
        match params_for(m, regime, flags) {
            GpuParams::Features(g) => gpu_family(m) is Zensim && regime == Some(g),
            GpuParams::SmallImages => gpu_family(m) is Iwssim && flags.allow_small_images,
            GpuParams::Default => !(gpu_family(m) is Zensim && regime is Some) && !(gpu_family(
                m,
            ) is Iwssim && flags.allow_small_images),
        },
{
}

} // verus!
