//! The metrics and the runtimes that the GPU ones run on.

use crate::text::same;
use crate::metrics::dispatch::Build;
use vstd::prelude::*;

verus! {

/// A metric, as the user asks for it.
#[derive(Debug, Clone, Copy, PartialEq, Eq, Structural)]
pub enum MetricKind {
    /// SSIMULACRA2 on the CPU.
    Ssim2,
    /// SSIMULACRA2 on the GPU.
    Ssim2Gpu,
    /// Butteraugli on the CPU: the largest block and the 3-norm.
    Butteraugli,
    /// Butteraugli on the GPU: the largest block and the 3-norm.
    ButteraugliGpu,
    /// DSSIM on the CPU; 0 is identical.
    Dssim,
    /// DSSIM on the GPU; 0 is identical.
    DssimGpu,
    /// Information-weighted SSIM on the GPU; 1 is identical.
    IwssimGpu,
    /// Zensim on the CPU.
    Zensim,
    /// Zensim on the GPU.
    ZensimGpu,
    /// ColorVideoVDP for still images, 0 to 10.
    Cvvdp,
    /// Information-weighted SSIM under its plain name.
    Iwssim,
}

/// Texts as sequences of characters.
pub open spec fn str_views(v: Seq<&'static str>) -> Seq<Seq<char>> {
    v.map_values(|s: &'static str| s@)
}

impl MetricKind {
    /// Every metric, in the order they are listed to the user.
    pub open spec fn spec_all() -> Seq<MetricKind> {
        seq![
            MetricKind::Ssim2,
            MetricKind::Ssim2Gpu,
            MetricKind::Butteraugli,
            MetricKind::ButteraugliGpu,
            MetricKind::Dssim,
            MetricKind::DssimGpu,
            MetricKind::IwssimGpu,
            MetricKind::Zensim,
            MetricKind::ZensimGpu,
            MetricKind::Cvvdp,
            MetricKind::Iwssim,
        ]
    }

    /// Every metric, in the order they are listed to the user.
    pub fn all() -> (r: Vec<MetricKind>)
        ensures
            r@ == Self::spec_all(),
    {
        let r: Vec<MetricKind> = vec![
            MetricKind::Ssim2,
            MetricKind::Ssim2Gpu,
            MetricKind::Butteraugli,
            MetricKind::ButteraugliGpu,
            MetricKind::Dssim,
            MetricKind::DssimGpu,
            MetricKind::IwssimGpu,
            MetricKind::Zensim,
            MetricKind::ZensimGpu,
            MetricKind::Cvvdp,
            MetricKind::Iwssim,
        ];
        assert(r@ =~= Self::spec_all());
        r
    }

    /// The name that the user writes.
    pub open spec fn spec_name(self) -> Seq<char> {
        match self {
            MetricKind::Ssim2 => "ssim2"@,
            MetricKind::Ssim2Gpu => "ssim2-gpu"@,
            MetricKind::Butteraugli => "butteraugli"@,
            MetricKind::ButteraugliGpu => "butteraugli-gpu"@,
            MetricKind::Dssim => "dssim"@,
            MetricKind::DssimGpu => "dssim-gpu"@,
            MetricKind::IwssimGpu => "iwssim-gpu"@,
            MetricKind::Zensim => "zensim"@,
            MetricKind::ZensimGpu => "zensim-gpu"@,
            MetricKind::Cvvdp => "cvvdp"@,
            MetricKind::Iwssim => "iwssim"@,
        }
    }

    /// The name that the user writes.
    pub fn name(self) -> (r: &'static str)
        ensures
            r@ == self.spec_name(),
    {
        match self {
            MetricKind::Ssim2 => "ssim2",
            MetricKind::Ssim2Gpu => "ssim2-gpu",
            MetricKind::Butteraugli => "butteraugli",
            MetricKind::ButteraugliGpu => "butteraugli-gpu",
            MetricKind::Dssim => "dssim",
            MetricKind::DssimGpu => "dssim-gpu",
            MetricKind::IwssimGpu => "iwssim-gpu",
            MetricKind::Zensim => "zensim",
            MetricKind::ZensimGpu => "zensim-gpu",
            MetricKind::Cvvdp => "cvvdp",
            MetricKind::Iwssim => "iwssim",
        }
    }

    /// Does the metric run on a GPU?
    pub open spec fn on_gpu(self) -> bool {
        match self {
            MetricKind::Ssim2
            | MetricKind::Butteraugli
            | MetricKind::Dssim
            | MetricKind::Zensim => false,
            _ => true,
        }
    }

    /// Where the metric runs: `GPU` or `CPU`.
    pub fn backend(self) -> (r: &'static str)
        ensures
            r@ == (if self.on_gpu() { "GPU"@ } else { "CPU"@ }),
    {
        match self {
            MetricKind::Ssim2Gpu
            | MetricKind::ButteraugliGpu
            | MetricKind::DssimGpu
            | MetricKind::IwssimGpu
            | MetricKind::ZensimGpu
            | MetricKind::Cvvdp
            | MetricKind::Iwssim => "GPU",
            _ => "CPU",
        }
    }

    /// Does the metric run on a GPU?
    pub fn requires_gpu(self) -> (r: bool)
        ensures
            r == self.on_gpu(),
    {
        match self {
            MetricKind::Ssim2Gpu
            | MetricKind::ButteraugliGpu
            | MetricKind::DssimGpu
            | MetricKind::IwssimGpu
            | MetricKind::ZensimGpu
            | MetricKind::Cvvdp
            | MetricKind::Iwssim => true,
            _ => false,
        }
    }

    /// How many columns the metric fills.
    pub open spec fn width(self) -> nat {
        match self {
            MetricKind::Butteraugli | MetricKind::ButteraugliGpu => 2,
            _ => 1,
        }
    }

    /// How many columns the metric fills.
    pub fn column_count(self) -> (r: usize)
        ensures
            r == self.width(),
    {
        match self {
            MetricKind::Butteraugli | MetricKind::ButteraugliGpu => 2,
            _ => 1,
        }
    }

    /// The columns that the metric fills, in order. Scores of CVVDP and of
    /// information-weighted SSIM come from several implementations, whose columns must
    /// not collide in joined tables: a build that has one of them names its column
    /// after the implementation.
    pub open spec fn columns(self, build: Build) -> Seq<Seq<char>> {
        match self {
            MetricKind::Ssim2 => seq!["ssim2"@],
            MetricKind::Ssim2Gpu => seq!["ssim2_gpu"@],
            MetricKind::Butteraugli => seq!["butteraugli_max"@, "butteraugli_pnorm3"@],
            MetricKind::ButteraugliGpu => seq!["butteraugli_max_gpu"@, "butteraugli_pnorm3_gpu"@],
            MetricKind::Dssim => seq!["dssim"@],
            MetricKind::DssimGpu => seq!["dssim_gpu"@],
            MetricKind::IwssimGpu => seq!["iwssim_gpu"@],
            MetricKind::Zensim => seq!["zensim"@],
            MetricKind::ZensimGpu => seq!["zensim_gpu"@],
            MetricKind::Cvvdp => if build.gpu_cvvdp {
                seq![build.cvvdp_tag@]
            } else {
                seq!["cvvdp"@]
            },
            MetricKind::Iwssim => if build.gpu_iwssim {
                seq![build.iwssim_tag@]
            } else {
                seq!["iwssim"@]
            },
        }
    }

    /// The columns that the metric fills, in order.
    pub fn column_names(self, build: Build) -> (r: Vec<&'static str>)
        ensures
            str_views(r@) == self.columns(build),
            r@.len() == self.width(),
    {
        let r: Vec<&'static str> = match self {
            MetricKind::Ssim2 => vec!["ssim2"],
            MetricKind::Ssim2Gpu => vec!["ssim2_gpu"],
            MetricKind::Butteraugli => vec!["butteraugli_max", "butteraugli_pnorm3"],
            MetricKind::ButteraugliGpu => vec!["butteraugli_max_gpu", "butteraugli_pnorm3_gpu"],
            MetricKind::Dssim => vec!["dssim"],
            MetricKind::DssimGpu => vec!["dssim_gpu"],
            MetricKind::IwssimGpu => vec!["iwssim_gpu"],
            MetricKind::Zensim => vec!["zensim"],
            MetricKind::ZensimGpu => vec!["zensim_gpu"],
            MetricKind::Cvvdp => if build.gpu_cvvdp {
                vec![build.cvvdp_tag]
            } else {
                vec!["cvvdp"]
            },
            MetricKind::Iwssim => if build.gpu_iwssim {
                vec![build.iwssim_tag]
            } else {
                vec!["iwssim"]
            },
        };
        assert(str_views(r@) =~= self.columns(build));
        r
    }

    /// The metric that a name stands for.
    pub open spec fn named(s: Seq<char>) -> Option<MetricKind> {
        if s == "ssim2"@ {
            Some(MetricKind::Ssim2)
        } else if s == "ssim2-gpu"@ {
            Some(MetricKind::Ssim2Gpu)
        } else if s == "butteraugli"@ {
            Some(MetricKind::Butteraugli)
        } else if s == "butteraugli-gpu"@ {
            Some(MetricKind::ButteraugliGpu)
        } else if s == "dssim"@ {
            Some(MetricKind::Dssim)
        } else if s == "dssim-gpu"@ {
            Some(MetricKind::DssimGpu)
        } else if s == "iwssim-gpu"@ {
            Some(MetricKind::IwssimGpu)
        } else if s == "zensim"@ {
            Some(MetricKind::Zensim)
        } else if s == "zensim-gpu"@ {
            Some(MetricKind::ZensimGpu)
        } else if s == "cvvdp"@ {
            Some(MetricKind::Cvvdp)
        } else if s == "iwssim"@ {
            Some(MetricKind::Iwssim)
        } else {
            None
        }
    }

    /// The metric that a name stands for.
    pub fn from_name(s: &str) -> (r: Option<MetricKind>)
        ensures
            r == MetricKind::named(s@),
    {
        if same(s, "ssim2") {
            Some(MetricKind::Ssim2)
        } else if same(s, "ssim2-gpu") {
            Some(MetricKind::Ssim2Gpu)
        } else if same(s, "butteraugli") {
            Some(MetricKind::Butteraugli)
        } else if same(s, "butteraugli-gpu") {
            Some(MetricKind::ButteraugliGpu)
        } else if same(s, "dssim") {
            Some(MetricKind::Dssim)
        } else if same(s, "dssim-gpu") {
            Some(MetricKind::DssimGpu)
        } else if same(s, "iwssim-gpu") {
            Some(MetricKind::IwssimGpu)
        } else if same(s, "zensim") {
            Some(MetricKind::Zensim)
        } else if same(s, "zensim-gpu") {
            Some(MetricKind::ZensimGpu)
        } else if same(s, "cvvdp") {
            Some(MetricKind::Cvvdp)
        } else if same(s, "iwssim") {
            Some(MetricKind::Iwssim)
        } else {
            None
        }
    }
}

/// Is `kind` one of the metrics?
pub fn has_metric(metrics: &[MetricKind], kind: MetricKind) -> (r: bool)
    ensures
        r == metrics@.contains(kind),
{
    let mut i: usize = 0;
    while i < metrics.len()
        invariant
            i <= metrics.len(),
            forall|j: int| 0 <= j < i ==> metrics@[j] != kind,
        decreases metrics.len() - i,
    {
        if metrics[i] == kind {
            return true;
        }
        i += 1;
    }
    false
}

/// Every metric is in the list of all metrics.
pub proof fn law_all_metrics_listed(kind: MetricKind)
    ensures
        MetricKind::spec_all().contains(kind),
{
    let i: int = match kind {
        MetricKind::Ssim2 => 0,
        MetricKind::Ssim2Gpu => 1,
        MetricKind::Butteraugli => 2,
        MetricKind::ButteraugliGpu => 3,
        MetricKind::Dssim => 4,
        MetricKind::DssimGpu => 5,
        MetricKind::IwssimGpu => 6,
        MetricKind::Zensim => 7,
        MetricKind::ZensimGpu => 8,
        MetricKind::Cvvdp => 9,
        MetricKind::Iwssim => 10,
    };
    assert(MetricKind::spec_all()[i] == kind);
}

/// The name of a metric stands for that metric again.
pub proof fn law_metric_name_round_trip(kind: MetricKind)
    ensures
        MetricKind::named(kind.spec_name()) == Some(kind),
{
    reveal_strlit("ssim2");
    reveal_strlit("ssim2-gpu");
    reveal_strlit("butteraugli");
    reveal_strlit("butteraugli-gpu");
    reveal_strlit("dssim");
    reveal_strlit("dssim-gpu");
    reveal_strlit("iwssim-gpu");
    reveal_strlit("zensim");
    reveal_strlit("zensim-gpu");
    reveal_strlit("cvvdp");
    reveal_strlit("iwssim");
    let s = kind.spec_name();
    let ssim2 = "ssim2"@;
    let ssim2gpu = "ssim2-gpu"@;
    let butteraugli = "butteraugli"@;
    let butteraugligpu = "butteraugli-gpu"@;
    let dssim = "dssim"@;
    let dssimgpu = "dssim-gpu"@;
    let iwssimgpu = "iwssim-gpu"@;
    let zensim = "zensim"@;
    let zensimgpu = "zensim-gpu"@;
    let cvvdp = "cvvdp"@;
    let iwssim = "iwssim"@;
    match kind {
        MetricKind::Ssim2 => {
        },
        MetricKind::Ssim2Gpu => {
            assert(s.len() != ssim2.len());
        },
        MetricKind::Butteraugli => {
            assert(s.len() != ssim2.len());
            assert(s.len() != ssim2gpu.len());
        },
        MetricKind::ButteraugliGpu => {
            assert(s.len() != ssim2.len());
            assert(s.len() != ssim2gpu.len());
            assert(s.len() != butteraugli.len());
        },
        MetricKind::Dssim => {
            assert(s[0] != ssim2[0]);
            assert(s.len() != ssim2gpu.len());
            assert(s.len() != butteraugli.len());
            assert(s.len() != butteraugligpu.len());
        },
        MetricKind::DssimGpu => {
            assert(s.len() != ssim2.len());
            assert(s[0] != ssim2gpu[0]);
            assert(s.len() != butteraugli.len());
            assert(s.len() != butteraugligpu.len());
            assert(s.len() != dssim.len());
        },
        MetricKind::IwssimGpu => {
            assert(s.len() != ssim2.len());
            assert(s.len() != ssim2gpu.len());
            assert(s.len() != butteraugli.len());
            assert(s.len() != butteraugligpu.len());
            assert(s.len() != dssim.len());
            assert(s.len() != dssimgpu.len());
        },
        MetricKind::Zensim => {
            assert(s.len() != ssim2.len());
            assert(s.len() != ssim2gpu.len());
            assert(s.len() != butteraugli.len());
            assert(s.len() != butteraugligpu.len());
            assert(s.len() != dssim.len());
            assert(s.len() != dssimgpu.len());
            assert(s.len() != iwssimgpu.len());
        },
        MetricKind::ZensimGpu => {
            assert(s.len() != ssim2.len());
            assert(s.len() != ssim2gpu.len());
            assert(s.len() != butteraugli.len());
            assert(s.len() != butteraugligpu.len());
            assert(s.len() != dssim.len());
            assert(s.len() != dssimgpu.len());
            assert(s[0] != iwssimgpu[0]);
            assert(s.len() != zensim.len());
        },
        MetricKind::Cvvdp => {
            assert(s[0] != ssim2[0]);
            assert(s.len() != ssim2gpu.len());
            assert(s.len() != butteraugli.len());
            assert(s.len() != butteraugligpu.len());
            assert(s[0] != dssim[0]);
            assert(s.len() != dssimgpu.len());
            assert(s.len() != iwssimgpu.len());
            assert(s.len() != zensim.len());
            assert(s.len() != zensimgpu.len());
        },
        MetricKind::Iwssim => {
            assert(s.len() != ssim2.len());
            assert(s.len() != ssim2gpu.len());
            assert(s.len() != butteraugli.len());
            assert(s.len() != butteraugligpu.len());
            assert(s.len() != dssim.len());
            assert(s.len() != dssimgpu.len());
            assert(s.len() != iwssimgpu.len());
            assert(s[0] != zensim[0]);
            assert(s.len() != zensimgpu.len());
            assert(s.len() != cvvdp.len());
        },
    }
}

/// The runtime that GPU metrics run on.
#[derive(Debug, Clone, Copy, PartialEq, Eq, Structural)]
pub enum GpuRuntime {
    /// The first runtime that works.
    Auto,
    /// CUDA.
    Cuda,
    /// Vulkan, Metal, DX12 or WebGPU.
    Wgpu,
    /// AMD HIP.
    Hip,
    /// The same kernels on the CPU.
    Cpu,
}

/// The runtimes that a build has.
#[derive(Debug, Clone, Copy, PartialEq, Eq, Structural)]
pub struct Runtimes {
    pub cuda: bool,
    pub wgpu: bool,
    pub hip: bool,
    pub cpu: bool,
}

impl Runtimes {
    /// Is the runtime among them? `Auto` is no single one.
    pub open spec fn has(self, rt: GpuRuntime) -> bool {
        match rt {
            GpuRuntime::Auto => false,
            GpuRuntime::Cuda => self.cuda,
            GpuRuntime::Wgpu => self.wgpu,
            GpuRuntime::Hip => self.hip,
            GpuRuntime::Cpu => self.cpu,
        }
    }
}

/// The runtime, where it is there.
pub open spec fn where_built(there: bool, rt: GpuRuntime) -> Seq<GpuRuntime> {
    if there {
        seq![rt]
    } else {
        Seq::<GpuRuntime>::empty()
    }
}

/// The runtimes that `Auto` tries, in order: those that the build has.
pub open spec fn auto_runtimes(have: Runtimes) -> Seq<GpuRuntime> {
    where_built(have.cuda, GpuRuntime::Cuda) + where_built(have.wgpu, GpuRuntime::Wgpu)
        + where_built(have.hip, GpuRuntime::Hip) + where_built(have.cpu, GpuRuntime::Cpu)
}

/// The runtimes that `Auto` tries, in order: those that the build has.
pub fn auto_order(have: Runtimes) -> (r: Vec<GpuRuntime>)
    ensures
        r@ == auto_runtimes(have),
{
    let mut r: Vec<GpuRuntime> = Vec::new();
    if have.cuda {
        r.push(GpuRuntime::Cuda);
    }
    if have.wgpu {
        r.push(GpuRuntime::Wgpu);
    }
    if have.hip {
        r.push(GpuRuntime::Hip);
    }
    if have.cpu {
        r.push(GpuRuntime::Cpu);
    }
    assert(r@ =~= auto_runtimes(have));
    r
}

/// The place of a runtime among all of them.
pub open spec fn runtime_place(rt: GpuRuntime) -> int {
    match rt {
        GpuRuntime::Auto => 0,
        GpuRuntime::Cuda => 1,
        GpuRuntime::Wgpu => 2,
        GpuRuntime::Hip => 3,
        GpuRuntime::Cpu => 4,
    }
}

/// `Auto` tries exactly the runtimes that the build has, each once: CUDA before wgpu
/// before HIP before the CPU. It is not among them itself.
pub proof fn law_auto_tries_what_is_built(have: Runtimes, rt: GpuRuntime, i: int, j: int)
    ensures
        auto_runtimes(have).contains(rt) <==> have.has(rt),
        !auto_runtimes(have).contains(GpuRuntime::Auto),
        0 <= i < j < auto_runtimes(have).len() ==> runtime_place(auto_runtimes(have)[i])
            < runtime_place(auto_runtimes(have)[j]),
{
    let a = where_built(have.cuda, GpuRuntime::Cuda);
    let b = where_built(have.wgpu, GpuRuntime::Wgpu);
    let c = where_built(have.hip, GpuRuntime::Hip);
    let s = auto_runtimes(have);
    if have.cuda {
        assert(s[0] == GpuRuntime::Cuda);
    }
    if have.wgpu {
        assert(s[a.len() as int] == GpuRuntime::Wgpu);
    }
    if have.hip {
        assert(s[(a + b).len() as int] == GpuRuntime::Hip);
    }
    if have.cpu {
        assert(s[(a + b + c).len() as int] == GpuRuntime::Cpu);
    }
}

/// The name of a runtime in messages.
pub open spec fn runtime_name(rt: GpuRuntime) -> Seq<char> {
    match rt {
        GpuRuntime::Auto => "auto"@,
        GpuRuntime::Cuda => "cuda"@,
        GpuRuntime::Wgpu => "wgpu"@,
        GpuRuntime::Hip => "hip"@,
        GpuRuntime::Cpu => "cpu"@,
    }
}

/// The name of a runtime in messages.
pub fn runtime_label(rt: GpuRuntime) -> (r: &'static str)
    ensures
        r@ == runtime_name(rt),
{
    match rt {
        GpuRuntime::Auto => "auto",
        GpuRuntime::Cuda => "cuda",
        GpuRuntime::Wgpu => "wgpu",
        GpuRuntime::Hip => "hip",
        GpuRuntime::Cpu => "cpu",
    }
}

/// Which features a zensim run emits beside its score.
#[derive(Debug, Clone, Copy, PartialEq, Eq, Structural)]
pub enum ZensimFeatureRegime {
    /// The basic and peak features.
    Basic,
    /// The basic, peak and masked features.
    Extended,
    /// All of those and the information-weighted ones.
    WithIw,
}

impl ZensimFeatureRegime {
    /// The number of features.
    pub open spec fn count(self) -> nat {
        match self {
            ZensimFeatureRegime::Basic => 228,
            ZensimFeatureRegime::Extended => 300,
            ZensimFeatureRegime::WithIw => 372,
        }
    }

    /// The number of features.
    pub fn total_features(self) -> (r: usize)
        ensures
            r == self.count(),
    {
        match self {
            ZensimFeatureRegime::Basic => 228,
            ZensimFeatureRegime::Extended => 300,
            ZensimFeatureRegime::WithIw => 372,
        }
    }
}

/// Whenever a metric is read from a text, the text is its name.
pub proof fn law_metric_read_is_named(s: Seq<char>)
    ensures
        MetricKind::named(s) matches Some(kind) ==> kind.spec_name() == s,
{
}

/// Each choice of features adds as many as the one before it did.
pub proof fn law_regimes_add_features()
    ensures
        ZensimFeatureRegime::Extended.count() - ZensimFeatureRegime::Basic.count() == 72,
        ZensimFeatureRegime::WithIw.count() - ZensimFeatureRegime::Extended.count() == 72,
        ZensimFeatureRegime::Basic.count() == 19 * 12,
{
}

} // verus!
