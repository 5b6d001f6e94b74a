//! Images with a high dynamic range.
//!
//! Which reader and which scorer an image goes to, and moving its numbers about.
//! The numbers themselves are real numbers that this module only passes on, so
//! their type is a parameter.

use crate::metrics::cache::{backend_text, Backend};
use crate::metrics::dispatch::{enabled, Build};
use crate::metrics::family::{law_scorer_computes_its_metric, of_family, Family};
use crate::metrics::kind::{runtime_name, GpuRuntime, MetricKind};
use crate::text::{copy, lowered, same, to_lower};
use vstd::prelude::*;

verus! {

/// How luminance becomes eight bits.
#[derive(Debug, Clone, Copy, PartialEq, Eq, Structural)]
pub enum HdrTransfer {
    /// Perceptually uniform, cut off at the top.
    PuClamp,
    /// The perceptual quantiser; nothing is cut off.
    Pq,
    /// Perceptually uniform, scaled so that the display's peak is the top.
    PuRescale,
}

/// What reads a file.
#[derive(Debug, Clone, Copy, PartialEq, Eq, Structural)]
pub enum HdrFormat {
    Exr,
    Heic,
    UltraHdrJpeg,
}

/// The format of an extension.
pub open spec fn hdr_format_named(ext: Seq<char>) -> Option<HdrFormat> {
    if ext == "exr"@ {
        Some(HdrFormat::Exr)
    } else if ext == "heic"@ || ext == "heif"@ {
        Some(HdrFormat::Heic)
    } else if ext == "jpg"@ || ext == "jpeg"@ {
        Some(HdrFormat::UltraHdrJpeg)
    } else {
        None
    }
}

/// What reads a file, by its extension in any case of letters. A file without one
/// has an empty extension.
pub fn decode_to_nits(ext: &str) -> (r: Result<HdrFormat, String>)
    ensures
        match r {
            Ok(f) => hdr_format_named(lowered(ext@)) == Some(f),
            Err(e) => hdr_format_named(lowered(ext@)) is None && e@
                == "unsupported HDR input extension: ."@ + lowered(ext@),
        },
{
    let low = to_lower(ext);
    let s = low.as_str();
    if same(s, "exr") {
        Ok(HdrFormat::Exr)
    } else if same(s, "heic") || same(s, "heif") {
        Ok(HdrFormat::Heic)
    } else if same(s, "jpg") || same(s, "jpeg") {
        Ok(HdrFormat::UltraHdrJpeg)
    } else {
        let mut e: String = copy("unsupported HDR input extension: .");
        e.append(s);
        Err(e)
    }
}

// ── Moving numbers about ───────────────────────────────────────────────

/// The colours of an image whose pixels have four numbers and whose rows may be
/// longer than the image is wide: the first three of each pixel, without gaps.
pub fn pixelbuffer_to_nits<T: Copy>(f: &Vec<T>, w: usize, h: usize) -> (r: Vec<T>)
    requires
        h > 0,
        (f@.len() / 4) / (h as nat) >= w,
    ensures
        r@.len() == h * w * 3,
        forall|y: int, x: int, c: int|
            #![trigger r@[(y * w + x) * 3 + c]]
            0 <= y < h && 0 <= x < w && 0 <= c < 3 ==> r@[(y * w + x) * 3 + c] == f@[(y * ((
            f@.len() / 4) / (h as nat)) as int + x) * 4 + c],
{
    let row: usize = f.len() / 4 / h;
    let ghost ri = row as int;
    let ghost wi = w as int;
    let ghost hi = h as int;
    let ghost total = f@.len() as int;
    assert(ri * hi * 4 <= total) by (nonlinear_arith)
        requires
            ri == (total / 4) / hi,
            hi > 0,
            total >= 0,
    ;
    let mut out: Vec<T> = Vec::new();
    let mut y: usize = 0;
    while y < h
        invariant
            y <= h,
            wi == w,
            hi == h,
            ri == row,
            wi <= ri,
            ri * hi * 4 <= f@.len(),
            f.len() == f@.len(),
            out@.len() == y * wi * 3,
            forall|b: int, a: int, c: int|
                #![trigger out@[(b * wi + a) * 3 + c]]
                0 <= b < y && 0 <= a < wi && 0 <= c < 3 ==> out@[(b * wi + a) * 3 + c] == f@[(b * ri
                    + a) * 4 + c],
        decreases h - y,
    {
        let ghost yi = y as int;
        let mut x: usize = 0;
        assert((yi * wi + 0) * 3 == yi * wi * 3);
        while x < w
            invariant
                x <= w,
                yi == y,
                y < h,
                wi == w,
                hi == h,
                ri == row,
                wi <= ri,
                ri * hi * 4 <= f@.len(),
                f.len() == f@.len(),
                out@.len() == (yi * wi + x) * 3,
                forall|b: int, a: int, c: int|
                    #![trigger out@[(b * wi + a) * 3 + c]]
                    ((0 <= b < yi && 0 <= a < wi) || (b == yi && 0 <= a < x)) && 0 <= c < 3
                        ==> out@[(b * wi + a) * 3 + c] == f@[(b * ri + a) * 4 + c],
            decreases w - x,
        {
            let ghost xi = x as int;
            proof {
                assert(0 <= yi * ri && (yi * ri + xi) * 4 + 4 <= ri * hi * 4) by (nonlinear_arith)
                    requires
                        0 <= yi < hi,
                        0 <= xi < wi,
                        wi <= ri,
                ;
                assert(yi * wi >= 0) by (nonlinear_arith)
                    requires
                        yi >= 0,
                        wi >= 0,
                ;
            }
            let at: usize = (y * row + x) * 4;
            let ghost before = out@;
            out.push(f[at]);
            out.push(f[at + 1]);
            out.push(f[at + 2]);
            proof {
                assert forall|b: int, a: int, c: int|
                    #![trigger out@[(b * wi + a) * 3 + c]]
                    ((0 <= b < yi && 0 <= a < wi) || (b == yi && 0 <= a < x + 1)) && 0 <= c
                        < 3 implies out@[(b * wi + a) * 3 + c] == f@[(b * ri + a) * 4 + c] by {
                    if b == yi && a == xi {
                        assert((b * wi + a) * 3 + c == before.len() + c);
                    } else {
                        assert(0 <= b * wi && b * wi + a < yi * wi + xi) by (nonlinear_arith)
                            requires
                                (0 <= b < yi && 0 <= a < wi) || (b == yi && 0 <= a < xi),
                                0 <= xi,
                                wi >= 0,
                                yi >= 0,
                        ;
                        assert(out@[(b * wi + a) * 3 + c] == before[(b * wi + a) * 3 + c]);
                    }
                }
            }
            x += 1;
        }
        assert((yi * wi + wi) * 3 == (yi + 1) * wi * 3) by (nonlinear_arith);
        y += 1;
    }
    out
}

/// The three colours of an image, each for itself. Numbers after the last whole
/// pixel do not count.
pub fn split_planes<T: Copy>(rgb: &Vec<T>) -> (r: (Vec<T>, Vec<T>, Vec<T>))
    ensures
        r.0@ == Seq::new((rgb@.len() / 3) as nat, |i: int| rgb@[3 * i]),
        r.1@ == Seq::new((rgb@.len() / 3) as nat, |i: int| rgb@[3 * i + 1]),
        r.2@ == Seq::new((rgb@.len() / 3) as nat, |i: int| rgb@[3 * i + 2]),
{
    let n: usize = rgb.len() / 3;
    let mut a: Vec<T> = Vec::new();
    let mut b: Vec<T> = Vec::new();
    let mut c: Vec<T> = Vec::new();
    let mut i: usize = 0;
    while i < n
        invariant
            i <= n,
            n == rgb@.len() / 3,
            rgb.len() == rgb@.len(),
            a@ == Seq::new(i as nat, |j: int| rgb@[3 * j]),
            b@ == Seq::new(i as nat, |j: int| rgb@[3 * j + 1]),
            c@ == Seq::new(i as nat, |j: int| rgb@[3 * j + 2]),
        decreases n - i,
    {
        a.push(rgb[3 * i]);
        b.push(rgb[3 * i + 1]);
        c.push(rgb[3 * i + 2]);
        i += 1;
        assert(a@ =~= Seq::new(i as nat, |j: int| rgb@[3 * j]));
        assert(b@ =~= Seq::new(i as nat, |j: int| rgb@[3 * j + 1]));
        assert(c@ =~= Seq::new(i as nat, |j: int| rgb@[3 * j + 2]));
    }
    (a, b, c)
}

// ── Scoring ────────────────────────────────────────────────────────────

/// A metric of the scorer for a high dynamic range.
#[derive(Debug, Clone, Copy, PartialEq, Eq, Structural)]
pub enum HdrMetric {
    Ssim2,
    Butter,
    Dssim,
    Zensim,
    Cvvdp,
    Iwssim,
}

/// What the scorer runs on.
#[derive(Debug, Clone, Copy, PartialEq, Eq, Structural)]
pub enum HdrBackend {
    Processor,
    Gpu(Backend),
}

/// The scorer's metric; none where it has no such metric. The metrics of the
/// processor are always there, those of the GPU where the build has them.
pub open spec fn hdr_metric(m: MetricKind, build: Build) -> Option<HdrMetric> {
    match m {
        MetricKind::Ssim2 => Some(HdrMetric::Ssim2),
        MetricKind::Butteraugli => Some(HdrMetric::Butter),
        MetricKind::Dssim => Some(HdrMetric::Dssim),
        MetricKind::Zensim => Some(HdrMetric::Zensim),
        MetricKind::Cvvdp => if build.gpu_cvvdp {
            Some(HdrMetric::Cvvdp)
        } else {
            None
        },
        MetricKind::ButteraugliGpu => if build.gpu_butteraugli {
            Some(HdrMetric::Butter)
        } else {
            None
        },
        MetricKind::Ssim2Gpu => if build.gpu_ssim2 {
            Some(HdrMetric::Ssim2)
        } else {
            None
        },
        MetricKind::DssimGpu => if build.gpu_dssim {
            Some(HdrMetric::Dssim)
        } else {
            None
        },
        MetricKind::IwssimGpu => if build.gpu_iwssim {
            Some(HdrMetric::Iwssim)
        } else {
            None
        },
        MetricKind::ZensimGpu => if build.gpu_zensim {
            Some(HdrMetric::Zensim)
        } else {
            None
        },
        MetricKind::Iwssim => None,
    }
}

/// The scorer's metric.
pub fn to_umbrella_kind(m: MetricKind, build: Build) -> (r: Option<HdrMetric>)
    ensures
        r == hdr_metric(m, build),
{
    match m {
        MetricKind::Ssim2 => Some(HdrMetric::Ssim2),
        MetricKind::Butteraugli => Some(HdrMetric::Butter),
        MetricKind::Dssim => Some(HdrMetric::Dssim),
        MetricKind::Zensim => Some(HdrMetric::Zensim),
        MetricKind::Cvvdp => if build.gpu_cvvdp {
            Some(HdrMetric::Cvvdp)
        } else {
            None
        },
        MetricKind::ButteraugliGpu => if build.gpu_butteraugli {
            Some(HdrMetric::Butter)
        } else {
            None
        },
        MetricKind::Ssim2Gpu => if build.gpu_ssim2 {
            Some(HdrMetric::Ssim2)
        } else {
            None
        },
        MetricKind::DssimGpu => if build.gpu_dssim {
            Some(HdrMetric::Dssim)
        } else {
            None
        },
        MetricKind::IwssimGpu => if build.gpu_iwssim {
            Some(HdrMetric::Iwssim)
        } else {
            None
        },
        MetricKind::ZensimGpu => if build.gpu_zensim {
            Some(HdrMetric::Zensim)
        } else {
            None
        },
        MetricKind::Iwssim => None,
    }
}

/// What the scorer runs on: the processor for its metrics, and for those of the GPU
/// only CUDA and wgpu.
pub open spec fn hdr_backend(m: MetricKind, rt: GpuRuntime) -> Option<HdrBackend> {
    if m.on_gpu() {
        match rt {
            GpuRuntime::Cuda => Some(HdrBackend::Gpu(Backend::Cuda)),
            GpuRuntime::Wgpu => Some(HdrBackend::Gpu(Backend::Wgpu)),
            _ => None,
        }
    } else {
        Some(HdrBackend::Processor)
    }
}

/// The scorer's metric and what it runs on, where the scorer can be used at all.
pub fn score_via_hdr_scorer(m: MetricKind, rt: GpuRuntime, build: Build) -> (r: Option<
    (HdrMetric, HdrBackend),
>)
    ensures
        match r {
            Some(p) => hdr_metric(m, build) == Some(p.0) && hdr_backend(m, rt) == Some(p.1),
            None => hdr_metric(m, build) is None || hdr_backend(m, rt) is None,
        },
{
    let kind = match to_umbrella_kind(m, build) {
        Some(k) => k,
        None => {
            return None;
        },
    };
    if m.requires_gpu() {
        match rt {
            GpuRuntime::Cuda => Some((kind, HdrBackend::Gpu(Backend::Cuda))),
            GpuRuntime::Wgpu => Some((kind, HdrBackend::Gpu(Backend::Wgpu))),
            _ => None,
        }
    } else {
        Some((kind, HdrBackend::Processor))
    }
}

/// The scores under the names of the metric's columns: the two of Butteraugli, with
/// the main score in place of a largest block that is missing, or the main score.
pub fn hdr_rows<T: Copy>(
    m: MetricKind,
    build: Build,
    primary: T,
    max: Option<T>,
    pnorm3: Option<T>,
    missing: T,
) -> (r: Vec<(&'static str, T)>)
    ensures
        r@.len() == m.width(),
        forall|i: int| 0 <= i < r@.len() ==> (#[trigger] r@[i]).0@ == m.columns(build)[i],
        m.width() == 1 ==> r@[0].1 == primary,
        m.width() == 2 ==> r@[0].1 == (match max {
            Some(v) => v,
            None => primary,
        }) && r@[1].1 == (match pnorm3 {
            Some(v) => v,
            None => missing,
        }),
{
    let names = m.column_names(build);
    proof {
        assert(crate::metrics::kind::str_views(names@).len() == names@.len());
        assert forall|i: int| 0 <= i < names@.len() implies names@[i]@ == m.columns(build)[i] by {
            assert(crate::metrics::kind::str_views(names@)[i] == names@[i]@);
        }
    }
    let mut out: Vec<(&'static str, T)> = Vec::new();
    if names.len() >= 2 {
        let a: T = match max {
            Some(v) => v,
            None => primary,
        };
        let b: T = match pnorm3 {
            Some(v) => v,
            None => missing,
        };
        out.push((names[0], a));
        out.push((names[1], b));
    } else {
        out.push((names[0], primary));
    }
    out
}

/// A metric of the processor can always be scored, whatever the runtime.
pub proof fn law_processor_metrics_always_scored(m: MetricKind, rt: GpuRuntime, build: Build)
    requires
        !m.on_gpu(),
    ensures
        hdr_metric(m, build) is Some,
        hdr_backend(m, rt) == Some(HdrBackend::Processor),
{
}

/// The measure of a metric for high dynamic range.
pub open spec fn hdr_family(h: HdrMetric) -> Family {
    match h {
        HdrMetric::Ssim2 => Family::Ssim2,
        HdrMetric::Butter => Family::Butteraugli,
        HdrMetric::Dssim => Family::Dssim,
        HdrMetric::Zensim => Family::Zensim,
        HdrMetric::Cvvdp => Family::Cvvdp,
        HdrMetric::Iwssim => Family::Iwssim,
    }
}

/// A metric is scored with its own measure. Those of the processor always are; those of
/// the GPU are where the build has them, but for one that has no such form.
pub proof fn law_hdr_metric_keeps_measure(m: MetricKind, build: Build)
    ensures
        hdr_metric(m, build) matches Some(h) ==> of_family(m, hdr_family(h)),
        hdr_metric(m, build) is Some <==> !m.on_gpu() || enabled(m, build) && m
            != MetricKind::Iwssim,
{
    law_scorer_computes_its_metric(m);
}

/// A metric of the GPU runs on the backend that has the name of the runtime, and only
/// two runtimes serve.
pub proof fn law_hdr_backend_named_like_runtime(m: MetricKind, rt: GpuRuntime)
    requires
        m.on_gpu(),
    ensures
        hdr_backend(m, rt) matches Some(b) ==> (b matches HdrBackend::Gpu(g) && backend_text(g)
            == runtime_name(rt)),
        hdr_backend(m, rt) is Some <==> rt == GpuRuntime::Cuda || rt == GpuRuntime::Wgpu,
{
}

/// Is this an extension of the format?
pub open spec fn hdr_extension(f: HdrFormat, ext: Seq<char>) -> bool {
    match f {
        HdrFormat::Exr => ext == "exr"@,
        HdrFormat::Heic => ext == "heic"@ || ext == "heif"@,
        HdrFormat::UltraHdrJpeg => ext == "jpg"@ || ext == "jpeg"@,
    }
}

/// An extension gives the format that it is an extension of.
pub proof fn law_hdr_extension_gives_its_format(ext: Seq<char>, f: HdrFormat)
    ensures
        hdr_format_named(ext) matches Some(g) ==> hdr_extension(g, ext),
        hdr_extension(f, ext) ==> hdr_format_named(ext) is Some,
{
}

} // verus!
