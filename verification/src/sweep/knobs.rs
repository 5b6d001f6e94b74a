//! What the knobs of a cell come to: each usable knob arrives in the codec's settings
//! as it was written, and every other knob leaves its setting alone.

use crate::json::{law_lookup_finds_first, lookup, set_to, unset, JsonView};
use crate::sweep::encode::{
    is_expert_knob, plan_fault, plan_for, AvifPlan, ChromaSubsampling, CodecKind,
    DownsamplingMethod, EncodePlan, HuffmanStrategy, JpegPlan, JxlExpert, JxlPlan, Knobs,
    OptimizationPreset, PngCompression, PngPlan, PngPreset, ProgressiveMode, ProgressiveScanMode,
    QuantTableSource, SharpYuvSetting, TinyFileMode, WebpPlan,
};
use vstd::prelude::*;

verus! {

// ── What a setting comes from ──────────────────────────────────────────

/// The setting of a whole-number knob: the number itself where it lies in the range,
/// the nearer end where it does not, and nothing where the knob is no such number.
pub open spec fn whole(k: Knobs, key: Seq<char>, lo: int, hi: int, got: Option<int>) -> bool {
    &&& unset(k, key) ==> got is None
    &&& forall|v: JsonView| #[trigger]
        set_to(k, key, v) ==> match v {
            JsonView::Number(Some(m), _) => {
                &&& lo <= m <= hi ==> got == Some(m as int)
                &&& m < lo ==> got == Some(lo)
                &&& m > hi ==> got == Some(hi)
            },
            _ => got is None,
        }
}

/// The setting of a knob that is on or off.
pub open spec fn onoff(k: Knobs, key: Seq<char>, got: Option<bool>) -> bool {
    &&& unset(k, key) ==> got is None
    &&& forall|v: JsonView| #[trigger]
        set_to(k, key, v) ==> match v {
            JsonView::Bool(b) => got == Some(b),
            _ => got is None,
        }
}

/// The setting of a real-number knob: its text.
pub open spec fn fractional(k: Knobs, key: Seq<char>, got: Option<Seq<char>>) -> bool {
    &&& unset(k, key) ==> got is None
    &&& forall|v: JsonView| #[trigger]
        set_to(k, key, v) ==> match v {
            JsonView::Number(_, t) => got == Some(t),
            _ => got is None,
        }
}

/// The setting of a whole-number knob that a null takes back.
pub open spec fn revocable(k: Knobs, key: Seq<char>, hi: int, got: Option<Option<int>>) -> bool {
    &&& unset(k, key) ==> got is None
    &&& forall|v: JsonView| #[trigger]
        set_to(k, key, v) ==> match v {
            JsonView::Null => got == Some(None::<int>),
            JsonView::Number(Some(m), _) => {
                &&& m <= hi ==> got == Some(Some(m as int))
                &&& m > hi ==> got == Some(Some(hi))
            },
            _ => got is None,
        }
}

/// Is the knob set to this text?
pub open spec fn named(k: Knobs, key: Seq<char>, s: Seq<char>) -> bool {
    set_to(k, key, JsonView::Str(s))
}

/// Is the knob set to no text?
pub open spec fn wordless(k: Knobs, key: Seq<char>) -> bool {
    forall|v: JsonView| #[trigger] set_to(k, key, v) ==> !(v is Str)
}

pub open spec fn int_of8(o: Option<u8>) -> Option<int> {
    match o {
        Some(x) => Some(x as int),
        None => None,
    }
}

pub open spec fn int_of16(o: Option<u16>) -> Option<int> {
    match o {
        Some(x) => Some(x as int),
        None => None,
    }
}

pub open spec fn int_of32(o: Option<i32>) -> Option<int> {
    match o {
        Some(x) => Some(x as int),
        None => None,
    }
}

pub open spec fn int_of64(o: Option<u64>) -> Option<int> {
    match o {
        Some(x) => Some(x as int),
        None => None,
    }
}

pub open spec fn ints_of8(o: Option<Option<u8>>) -> Option<Option<int>> {
    match o {
        Some(x) => Some(int_of8(x)),
        None => None,
    }
}

pub open spec fn text_of(o: Option<String>) -> Option<Seq<char>> {
    match o {
        Some(x) => Some(x@),
        None => None,
    }
}

// ── The words of the settings ──────────────────────────────────────────

/// Is this a word for the PNG preset?
pub open spec fn word_for_preset(p: PngPreset, s: Seq<char>) -> bool {
    match p {
        PngPreset::Store => s == "none"@,
        PngPreset::Fastest => s == "fastest"@,
        PngPreset::Turbo => s == "turbo"@,
        PngPreset::Fast => s == "fast"@,
        PngPreset::Balanced => s == "balanced"@,
        PngPreset::Thorough => s == "thorough"@,
        PngPreset::High => s == "high"@,
        PngPreset::Aggressive => s == "aggressive"@,
        PngPreset::Intense => s == "intense"@,
        PngPreset::Crush => s == "crush"@,
        PngPreset::Maniac => s == "maniac"@,
        PngPreset::Brag => s == "brag"@,
        PngPreset::Minutes => s == "minutes"@,
    }
}

/// Is this a word for the chroma subsampling?
pub open spec fn word_for_subsampling(p: ChromaSubsampling, s: Seq<char>) -> bool {
    match p {
        ChromaSubsampling::Full => s == "444"@ || s == "4:4:4"@,
        ChromaSubsampling::HalfHorizontal => s == "422"@ || s == "4:2:2"@,
        ChromaSubsampling::Quarter => s == "420"@ || s == "4:2:0"@,
        ChromaSubsampling::HalfVertical => s == "440"@ || s == "4:4:0"@,
    }
}

/// Is this a word for the source of the quantisation tables?
pub open spec fn word_for_source(p: QuantTableSource, s: Seq<char>) -> bool {
    match p {
        QuantTableSource::Jpegli => s == "jpegli"@,
        QuantTableSource::MozjpegDefault => s == "mozjpeg_default"@ || s == "mozjpeg"@,
    }
}

/// Is this a word for the scan mode?
pub open spec fn word_for_scans(p: ProgressiveScanMode, s: Seq<char>) -> bool {
    match p {
        ProgressiveScanMode::Baseline => s == "baseline"@,
        ProgressiveScanMode::Progressive => s == "progressive"@,
        ProgressiveScanMode::ProgressiveMozjpeg => s == "progressive_mozjpeg"@ || s == "two_scan"@
            || s == "mozjpeg"@,
        ProgressiveScanMode::ProgressiveSearch => s == "progressive_search"@ || s == "search"@,
    }
}

/// Is this a word for the Huffman strategy?
pub open spec fn word_for_huffman(p: HuffmanStrategy, s: Seq<char>) -> bool {
    match p {
        HuffmanStrategy::Optimize => s == "optimize"@,
        HuffmanStrategy::Fixed => s == "fixed"@,
        HuffmanStrategy::FixedAnnexK => s == "fixed_annex_k"@ || s == "annex_k"@,
    }
}

/// Is this a word for the tiny-file mode?
pub open spec fn word_for_tiny(p: TinyFileMode, s: Seq<char>) -> bool {
    match p {
        TinyFileMode::Auto => s == "auto"@,
        TinyFileMode::Off => s == "off"@,
        TinyFileMode::Force => s == "force"@,
    }
}

/// Is this a word for the downsampling method?
pub open spec fn word_for_downsampling(p: DownsamplingMethod, s: Seq<char>) -> bool {
    match p {
        DownsamplingMethod::Box => s == "box"@,
        DownsamplingMethod::GammaAware => s == "gamma_aware"@,
        DownsamplingMethod::GammaAwareIterative => s == "gamma_aware_iterative"@ || s
            == "iterative"@,
    }
}

/// Is this a word for the optimisation preset?
pub open spec fn word_for_optimization(p: OptimizationPreset, s: Seq<char>) -> bool {
    match p {
        OptimizationPreset::JpegliBaseline => s == "jpegli_baseline"@,
        OptimizationPreset::JpegliProgressive => s == "jpegli_progressive"@,
        OptimizationPreset::MozjpegBaseline => s == "mozjpeg_baseline"@,
        OptimizationPreset::MozjpegProgressive => s == "mozjpeg_progressive"@,
        OptimizationPreset::MozjpegMaxCompression => s == "mozjpeg_max_compression"@,
        OptimizationPreset::HybridBaseline => s == "hybrid_baseline"@,
        OptimizationPreset::HybridProgressive => s == "hybrid_progressive"@,
        OptimizationPreset::HybridMaxCompression => s == "hybrid_max_compression"@,
    }
}

/// Is this a word for the sharp-chroma setting?
pub open spec fn word_for_sharp(p: SharpYuvSetting, s: Seq<char>) -> bool {
    match p {
        SharpYuvSetting::Off => s == "off"@,
        SharpYuvSetting::On => s == "on"@,
    }
}

/// Is this a word for the pass layout?
pub open spec fn word_for_passes(p: ProgressiveMode, s: Seq<char>) -> bool {
    match p {
        ProgressiveMode::Single => s == "off"@ || s == "single"@,
        ProgressiveMode::QuantizedAcFullAc => s == "two-pass"@ || s == "two_pass"@ || s
            == "twopass"@ || s == "qac-fac"@,
        ProgressiveMode::DcVlfLfAc => s == "three-pass"@ || s == "three_pass"@ || s
            == "threepass"@ || s == "dc-vlf-lf-ac"@,
    }
}

/// Is the knob set to a word that is not known?
pub open spec fn misnamed(k: Knobs, key: Seq<char>, known: spec_fn(Seq<char>) -> bool) -> bool {
    exists|s: Seq<char>| #[trigger] named(k, key, s) && !known(s)
}

pub open spec fn is_subsampling(s: Seq<char>) -> bool {
    ||| word_for_subsampling(ChromaSubsampling::Full, s)
    ||| word_for_subsampling(ChromaSubsampling::HalfHorizontal, s)
    ||| word_for_subsampling(ChromaSubsampling::Quarter, s)
    ||| word_for_subsampling(ChromaSubsampling::HalfVertical, s)
}

pub open spec fn is_source(s: Seq<char>) -> bool {
    ||| word_for_source(QuantTableSource::Jpegli, s)
    ||| word_for_source(QuantTableSource::MozjpegDefault, s)
}

pub open spec fn is_scans(s: Seq<char>) -> bool {
    ||| word_for_scans(ProgressiveScanMode::Baseline, s)
    ||| word_for_scans(ProgressiveScanMode::Progressive, s)
    ||| word_for_scans(ProgressiveScanMode::ProgressiveMozjpeg, s)
    ||| word_for_scans(ProgressiveScanMode::ProgressiveSearch, s)
}

pub open spec fn is_huffman(s: Seq<char>) -> bool {
    ||| word_for_huffman(HuffmanStrategy::Optimize, s)
    ||| word_for_huffman(HuffmanStrategy::Fixed, s)
    ||| word_for_huffman(HuffmanStrategy::FixedAnnexK, s)
}

pub open spec fn is_tiny(s: Seq<char>) -> bool {
    ||| word_for_tiny(TinyFileMode::Auto, s)
    ||| word_for_tiny(TinyFileMode::Off, s)
    ||| word_for_tiny(TinyFileMode::Force, s)
}

pub open spec fn is_downsampling(s: Seq<char>) -> bool {
    ||| word_for_downsampling(DownsamplingMethod::Box, s)
    ||| word_for_downsampling(DownsamplingMethod::GammaAware, s)
    ||| word_for_downsampling(DownsamplingMethod::GammaAwareIterative, s)
}

pub open spec fn is_optimization(s: Seq<char>) -> bool {
    ||| word_for_optimization(OptimizationPreset::JpegliBaseline, s)
    ||| word_for_optimization(OptimizationPreset::JpegliProgressive, s)
    ||| word_for_optimization(OptimizationPreset::MozjpegBaseline, s)
    ||| word_for_optimization(OptimizationPreset::MozjpegProgressive, s)
    ||| word_for_optimization(OptimizationPreset::MozjpegMaxCompression, s)
    ||| word_for_optimization(OptimizationPreset::HybridBaseline, s)
    ||| word_for_optimization(OptimizationPreset::HybridProgressive, s)
    ||| word_for_optimization(OptimizationPreset::HybridMaxCompression, s)
}

pub open spec fn is_sharp(s: Seq<char>) -> bool {
    ||| word_for_sharp(SharpYuvSetting::Off, s)
    ||| word_for_sharp(SharpYuvSetting::On, s)
}

pub open spec fn is_passes(s: Seq<char>) -> bool {
    ||| word_for_passes(ProgressiveMode::Single, s)
    ||| word_for_passes(ProgressiveMode::QuantizedAcFullAc, s)
    ||| word_for_passes(ProgressiveMode::DcVlfLfAc, s)
}

// ── PNG ────────────────────────────────────────────────────────────────

/// A PNG cell is encoded with exactly the settings that its knobs name. A compression
/// that is a whole number is that effort up to 200, another number is the balanced
/// effort, and a word is its preset.
pub proof fn law_png_settings(k: Knobs, p: PngPlan)
    requires
        plan_for(EncodePlan::Png(p), CodecKind::Zenpng, k),
    ensures
        whole(k, "near_lossless_bits"@, 0, 4, int_of8(p.near_lossless_bits)),
        onoff(k, "parallel"@, p.parallel),
        whole(k, "max_threads"@, 0, u64::MAX as int, int_of64(p.max_threads)),
        unset(k, "compression"@) <==> p.compression is None,
        forall|m: u64, t: Seq<char>|
            #[trigger] set_to(k, "compression"@, JsonView::Number(Some(m), t)) ==> p.compression
                == Some(
                PngCompression::Effort(
                    if m <= 200 {
                        m as u32
                    } else {
                        200
                    },
                ),
            ),
        forall|t: Seq<char>|
            #[trigger] set_to(k, "compression"@, JsonView::Number(None, t)) ==> p.compression
                == Some(PngCompression::Effort(13)),
        forall|s: Seq<char>|
            #[trigger] named(k, "compression"@, s) ==> (p.compression matches Some(
                PngCompression::Preset(q),
            ) && word_for_preset(q, s)),
{
    law_lookup_finds_first(k, "near_lossless_bits"@);
    law_lookup_finds_first(k, "parallel"@);
    law_lookup_finds_first(k, "max_threads"@);
    law_lookup_finds_first(k, "compression"@);
}

/// A PNG cell is refused exactly when its compression is neither a number nor a word
/// for a preset.
pub proof fn law_png_refused(k: Knobs)
    ensures
        plan_fault(CodecKind::Zenpng, k) is None <==> {
            ||| unset(k, "compression"@)
            ||| exists|u: Option<u64>, t: Seq<char>| #[trigger]
                set_to(k, "compression"@, JsonView::Number(u, t))
            ||| exists|p: PngPreset, s: Seq<char>|
                #![trigger named(k, "compression"@, s), word_for_preset(p, s)]
                named(k, "compression"@, s) && word_for_preset(p, s)
        },
{
    law_lookup_finds_first(k, "compression"@);
    match lookup(k, "compression"@) {
        Some(JsonView::Number(u, t)) => {
            assert(set_to(k, "compression"@, JsonView::Number(u, t)));
        },
        Some(JsonView::Str(s)) => {
            assert(named(k, "compression"@, s));
            match crate::sweep::encode::png_preset_of(s) {
                Some(p) => {
                    assert(word_for_preset(p, s));
                },
                None => {},
            }
        },
        _ => {},
    }
}

// ── JPEG ───────────────────────────────────────────────────────────────

/// A JPEG cell is encoded with exactly the settings that its knobs name.
pub proof fn law_jpeg_settings(k: Knobs, p: JpegPlan)
    requires
        plan_fault(CodecKind::Zenjpeg, k) is None,
        plan_for(EncodePlan::Jpeg(p), CodecKind::Zenjpeg, k),
    ensures
        forall|s: Seq<char>|
            #[trigger] named(k, "subsampling"@, s) ==> (p.subsampling matches Some(v)
                && word_for_subsampling(v, s)),
        wordless(k, "subsampling"@) ==> p.subsampling is None,
        onoff(k, "progressive"@, p.progressive),
        onoff(k, "sharp_yuv"@, p.sharp_yuv),
        whole(k, "effort"@, 0, 2, int_of32(p.effort)),
{
    law_lookup_finds_first(k, "subsampling"@);
    law_lookup_finds_first(k, "progressive"@);
    law_lookup_finds_first(k, "sharp_yuv"@);
    law_lookup_finds_first(k, "effort"@);
}

/// The settings of a JPEG cell below the public builders are those that its knobs name;
/// where there are none, no knob names one.
pub proof fn law_jpeg_inner_settings(k: Knobs, p: JpegPlan)
    requires
        plan_fault(CodecKind::Zenjpeg, k) is None,
        plan_for(EncodePlan::Jpeg(p), CodecKind::Zenjpeg, k),
    ensures
        p.internal matches Some(i) ==> {
            &&& onoff(k, "optimize_huffman"@, i.optimize_huffman)
            &&& onoff(k, "aq_enabled"@, i.aq_enabled)
            &&& onoff(k, "deringing"@, i.deringing)
            &&& onoff(k, "auto_optimize"@, i.auto_optimize)
            &&& fractional(k, "chroma_distance_scale"@, text_of(i.chroma_distance_scale))
            &&& fractional(k, "pre_blur"@, text_of(i.pre_blur))
            &&& whole(k, "restart_mcu_rows"@, 0, 65535, int_of16(i.restart_mcu_rows))
            &&& revocable(k, "chroma_quality"@, 100, ints_of8(i.chroma_quality))
            &&& i.hybrid <==> set_to(k, "hybrid"@, JsonView::Bool(true))
        },
        p.internal is None ==> {
            &&& onoff(k, "optimize_huffman"@, None)
            &&& onoff(k, "aq_enabled"@, None)
            &&& onoff(k, "deringing"@, None)
            &&& onoff(k, "auto_optimize"@, None)
            &&& fractional(k, "chroma_distance_scale"@, None)
            &&& fractional(k, "pre_blur"@, None)
            &&& whole(k, "restart_mcu_rows"@, 0, 65535, None)
            &&& revocable(k, "chroma_quality"@, 100, None)
            &&& !set_to(k, "hybrid"@, JsonView::Bool(true))
        },
{
    law_lookup_finds_first(k, "optimize_huffman"@);
    law_lookup_finds_first(k, "aq_enabled"@);
    law_lookup_finds_first(k, "deringing"@);
    law_lookup_finds_first(k, "auto_optimize"@);
    law_lookup_finds_first(k, "chroma_distance_scale"@);
    law_lookup_finds_first(k, "pre_blur"@);
    law_lookup_finds_first(k, "restart_mcu_rows"@);
    law_lookup_finds_first(k, "chroma_quality"@);
    law_lookup_finds_first(k, "hybrid"@);
}

/// The settings of a JPEG cell below the public builders that are named by words.
pub proof fn law_jpeg_inner_words(k: Knobs, p: JpegPlan, s: Seq<char>)
    requires
        plan_fault(CodecKind::Zenjpeg, k) is None,
        plan_for(EncodePlan::Jpeg(p), CodecKind::Zenjpeg, k),
    ensures
        named(k, "quant_source"@, s) ==> (p.internal matches Some(i) && i.quant_source matches Some(
            v,
        ) && word_for_source(v, s)),
        named(k, "progressive_mode"@, s) ==> (p.internal matches Some(i)
            && i.progressive matches Some(v) && word_for_scans(v, s)),
        named(k, "huffman"@, s) ==> (p.internal matches Some(i) && i.huffman matches Some(v)
            && word_for_huffman(v, s)),
        named(k, "tiny_file_mode"@, s) ==> (p.internal matches Some(i)
            && i.tiny_file_mode matches Some(v) && word_for_tiny(v, s)),
        named(k, "downsampling_method"@, s) ==> (p.internal matches Some(i)
            && i.downsampling_method matches Some(v) && word_for_downsampling(v, s)),
        named(k, "optimization"@, s) ==> (p.internal matches Some(i)
            && i.optimization matches Some(v) && word_for_optimization(v, s)),
        p.internal matches Some(i) ==> {
            &&& wordless(k, "quant_source"@) ==> i.quant_source is None
            &&& wordless(k, "progressive_mode"@) ==> i.progressive is None
            &&& wordless(k, "huffman"@) ==> i.huffman is None
            &&& wordless(k, "tiny_file_mode"@) ==> i.tiny_file_mode is None
            &&& wordless(k, "downsampling_method"@) ==> i.downsampling_method is None
            &&& wordless(k, "optimization"@) ==> i.optimization is None
        },
{
    law_lookup_finds_first(k, "quant_source"@);
    law_lookup_finds_first(k, "progressive_mode"@);
    law_lookup_finds_first(k, "huffman"@);
    law_lookup_finds_first(k, "tiny_file_mode"@);
    law_lookup_finds_first(k, "downsampling_method"@);
    law_lookup_finds_first(k, "optimization"@);
}

/// A JPEG cell is refused exactly when a knob that takes a word holds one that it does
/// not know.
pub proof fn law_jpeg_refused(k: Knobs)
    ensures
        plan_fault(CodecKind::Zenjpeg, k) is Some <==> {
            ||| misnamed(k, "subsampling"@, |s: Seq<char>| is_subsampling(s))
            ||| misnamed(k, "quant_source"@, |s: Seq<char>| is_source(s))
            ||| misnamed(k, "progressive_mode"@, |s: Seq<char>| is_scans(s))
            ||| misnamed(k, "huffman"@, |s: Seq<char>| is_huffman(s))
            ||| misnamed(k, "tiny_file_mode"@, |s: Seq<char>| is_tiny(s))
            ||| misnamed(k, "downsampling_method"@, |s: Seq<char>| is_downsampling(s))
            ||| misnamed(k, "optimization"@, |s: Seq<char>| is_optimization(s))
        },
{
    lemma_misnamed(k, "subsampling"@, |s: Seq<char>| is_subsampling(s));
    lemma_misnamed(k, "quant_source"@, |s: Seq<char>| is_source(s));
    lemma_misnamed(k, "progressive_mode"@, |s: Seq<char>| is_scans(s));
    lemma_misnamed(k, "huffman"@, |s: Seq<char>| is_huffman(s));
    lemma_misnamed(k, "tiny_file_mode"@, |s: Seq<char>| is_tiny(s));
    lemma_misnamed(k, "downsampling_method"@, |s: Seq<char>| is_downsampling(s));
    lemma_misnamed(k, "optimization"@, |s: Seq<char>| is_optimization(s));
}

proof fn lemma_misnamed(k: Knobs, key: Seq<char>, known: spec_fn(Seq<char>) -> bool)
    ensures
        misnamed(k, key, known) == (lookup(k, key) matches Some(JsonView::Str(s)) && !known(s)),
{
    law_lookup_finds_first(k, key);
    match lookup(k, key) {
        Some(JsonView::Str(s)) => {
            assert(named(k, key, s));
        },
        _ => {},
    }
}

// ── WebP ───────────────────────────────────────────────────────────────

/// A WebP cell is lossless exactly when its knobs say so; otherwise it is encoded with
/// exactly the settings that its knobs name.
pub proof fn law_webp_settings(k: Knobs, p: WebpPlan)
    requires
        plan_for(EncodePlan::Webp(p), CodecKind::Zenwebp, k),
    ensures
        p is Lossless <==> set_to(k, "lossless"@, JsonView::Bool(true)),
        p matches WebpPlan::Lossy { method, segments, sns_strength, filter_strength, internal }
            ==> {
            &&& whole(k, "method"@, 0, 6, int_of8(method))
            &&& whole(k, "segments"@, 1, 4, int_of8(segments))
            &&& whole(k, "sns_strength"@, 0, 100, int_of8(sns_strength))
            &&& whole(k, "filter_strength"@, 0, 100, int_of8(filter_strength))
            &&& match internal {
                Some(i) => {
                    &&& whole(k, "partition_limit"@, 0, 100, int_of8(i.partition_limit))
                    &&& onoff(k, "multi_pass_stats"@, i.multi_pass_stats)
                    &&& onoff(k, "smooth_segment_map"@, i.smooth_segment_map)
                    &&& wordless(k, "sharp_yuv"@) ==> i.sharp_yuv is None
                    &&& forall|s: Seq<char>| #[trigger]
                        named(k, "sharp_yuv"@, s) ==> (i.sharp_yuv matches Some(v)
                            && word_for_sharp(v, s))
                },
                None => {
                    &&& whole(k, "partition_limit"@, 0, 100, None)
                    &&& onoff(k, "multi_pass_stats"@, None)
                    &&& onoff(k, "smooth_segment_map"@, None)
                    &&& wordless(k, "sharp_yuv"@)
                },
            }
        },
{
    law_lookup_finds_first(k, "lossless"@);
    law_lookup_finds_first(k, "method"@);
    law_lookup_finds_first(k, "segments"@);
    law_lookup_finds_first(k, "sns_strength"@);
    law_lookup_finds_first(k, "filter_strength"@);
    law_lookup_finds_first(k, "partition_limit"@);
    law_lookup_finds_first(k, "multi_pass_stats"@);
    law_lookup_finds_first(k, "smooth_segment_map"@);
    law_lookup_finds_first(k, "sharp_yuv"@);
}

/// A WebP cell is refused exactly when it is not lossless and its sharp-chroma knob
/// holds a word that is not known.
pub proof fn law_webp_refused(k: Knobs)
    ensures
        plan_fault(CodecKind::Zenwebp, k) is Some <==> {
            &&& !set_to(k, "lossless"@, JsonView::Bool(true))
            &&& misnamed(k, "sharp_yuv"@, |s: Seq<char>| is_sharp(s))
        },
{
    law_lookup_finds_first(k, "lossless"@);
    lemma_misnamed(k, "sharp_yuv"@, |s: Seq<char>| is_sharp(s));
}

// ── AVIF ───────────────────────────────────────────────────────────────

/// Is this the size that a member of the pair gives: the low byte of a whole number, and
/// zero of anything else?
pub open spec fn size_of(v: JsonView, got: u8) -> bool {
    match v {
        JsonView::Number(Some(x), _) => got == x % 256,
        _ => got == 0,
    }
}

/// Do the two sizes come from the two members of an array knob, in their order?
pub open spec fn sizes(k: Knobs, key: Seq<char>, got: Option<(u8, u8)>) -> bool {
    &&& unset(k, key) ==> got is None
    &&& forall|v: JsonView| #[trigger]
        set_to(k, key, v) ==> match v {
            JsonView::Array(a) => if a.len() == 2 {
                got matches Some(g) && size_of(a[0], g.0) && size_of(a[1], g.1)
            } else {
                got is None
            },
            _ => got is None,
        }
}

/// An AVIF cell is encoded with exactly the settings that its knobs name.
pub proof fn law_avif_settings(k: Knobs, p: AvifPlan)
    requires
        plan_for(EncodePlan::Avif(p), CodecKind::Zenavif, k),
    ensures
        whole(k, "speed"@, 0, 10, int_of8(p.speed)),
        onoff(k, "lossless"@, p.lossless),
        match p.internal {
            Some(i) => {
                &&& sizes(k, "partition_range"@, i.partition_range)
                &&& onoff(k, "complex_prediction_modes"@, i.complex_prediction_modes)
                &&& onoff(k, "lrf"@, i.lrf)
                &&& onoff(k, "fast_deblock"@, i.fast_deblock)
            },
            None => {
                &&& sizes(k, "partition_range"@, None)
                &&& onoff(k, "complex_prediction_modes"@, None)
                &&& onoff(k, "lrf"@, None)
                &&& onoff(k, "fast_deblock"@, None)
            },
        },
        plan_fault(CodecKind::Zenavif, k) is None,
{
    law_lookup_finds_first(k, "speed"@);
    law_lookup_finds_first(k, "lossless"@);
    law_lookup_finds_first(k, "partition_range"@);
    law_lookup_finds_first(k, "complex_prediction_modes"@);
    law_lookup_finds_first(k, "lrf"@);
    law_lookup_finds_first(k, "fast_deblock"@);
}

// ── JPEG XL ────────────────────────────────────────────────────────────

/// The names of the knobs that only the bare encoder has.
pub open spec fn bare_knobs() -> Seq<Seq<char>> {
    seq![
        "butteraugli_iters"@,
        "zensim_iters"@,
        "ssim2_iters"@,
        "pixel_domain_loss"@,
        "patches"@,
        "gaborish"@,
        "error_diffusion"@,
        "denoise"@,
        "lf_frame"@,
        "force_strategy"@,
        "max_strategy_size"@,
        "progressive"@,
        "lz77"@,
    ]
}

/// Is a knob set that only the bare encoder has?
pub open spec fn bare(k: Knobs) -> bool {
    exists|j: int| 0 <= j < bare_knobs().len() && !unset(k, #[trigger] bare_knobs()[j])
}

proof fn lemma_bare(k: Knobs)
    ensures
        bare(k) <==> exists|i: int| 0 <= i < k.len() && is_expert_knob(#[trigger] k[i].0),
{
    let names = bare_knobs();
    assert(names.len() == 13);
    if bare(k) {
        let j = choose|j: int| 0 <= j < names.len() && !unset(k, #[trigger] names[j]);
        let i = choose|i: int| 0 <= i < k.len() && (#[trigger] k[i]).0 == names[j];
        assert(is_expert_knob(k[i].0));
    }
    if exists|i: int| 0 <= i < k.len() && is_expert_knob(#[trigger] k[i].0) {
        let i = choose|i: int| 0 <= i < k.len() && is_expert_knob(#[trigger] k[i].0);
        let n = k[i].0;
        assert(n == names[0] || n == names[1] || n == names[2] || n == names[3] || n == names[4]
            || n == names[5] || n == names[6] || n == names[7] || n == names[8] || n == names[9]
            || n == names[10] || n == names[11] || n == names[12]);
        let j = choose|j: int| 0 <= j < names.len() && n == #[trigger] names[j];
        assert(!unset(k, names[j]));
    }
}

/// A JPEG XL cell is lossless exactly when its knobs say so; otherwise it goes to the
/// bare encoder exactly when a knob is set that only that one has. Either way it is
/// encoded with exactly the settings that its knobs name.
pub proof fn law_jxl_settings(k: Knobs, p: JxlPlan)
    requires
        plan_for(EncodePlan::Jxl(p), CodecKind::Zenjxl, k),
    ensures
        p is Lossless <==> set_to(k, "lossless"@, JsonView::Bool(true)),
        p is Expert <==> !set_to(k, "lossless"@, JsonView::Bool(true)) && bare(k),
        p matches JxlPlan::Lossless { effort } ==> whole(k, "effort"@, 1, 10, int_of8(effort)),
        p matches JxlPlan::Lossy { distance, noise, effort } ==> {
            &&& whole(k, "effort"@, 1, 10, int_of8(effort))
            &&& onoff(k, "noise"@, noise)
            &&& fractional(k, "distance"@, text_of(distance))
        },
        p matches JxlPlan::Expert(e) ==> {
            &&& whole(k, "effort"@, 1, 10, int_of8(e.effort))
            &&& onoff(k, "noise"@, e.noise)
            &&& fractional(k, "distance"@, text_of(e.distance))
        },
{
    law_lookup_finds_first(k, "lossless"@);
    lemma_bare(k);
    law_lookup_finds_first(k, "effort"@);
    law_lookup_finds_first(k, "noise"@);
    law_lookup_finds_first(k, "distance"@);
}

/// The bare JPEG XL encoder has exactly the settings that the knobs name.
pub proof fn law_jxl_bare_settings(k: Knobs, e: JxlExpert)
    requires
        plan_for(EncodePlan::Jxl(JxlPlan::Expert(e)), CodecKind::Zenjxl, k),
    ensures
        onoff(k, "denoise"@, e.denoise),
        onoff(k, "gaborish"@, e.gaborish),
        onoff(k, "patches"@, e.patches),
        onoff(k, "pixel_domain_loss"@, e.pixel_domain_loss),
        onoff(k, "error_diffusion"@, e.error_diffusion),
        onoff(k, "lf_frame"@, e.lf_frame),
        onoff(k, "lz77"@, e.lz77),
        whole(k, "butteraugli_iters"@, 0, 16, int_of8(e.butteraugli_iters)),
        whole(k, "zensim_iters"@, 0, 16, int_of8(e.zensim_iters)),
        whole(k, "ssim2_iters"@, 0, 16, int_of8(e.ssim2_iters)),
        revocable(k, "force_strategy"@, 18, ints_of8(e.force_strategy)),
        revocable(k, "max_strategy_size"@, 255, ints_of8(e.max_strategy_size)),
        wordless(k, "progressive"@) ==> e.progressive is None,
        forall|s: Seq<char>| #[trigger]
            named(k, "progressive"@, s) ==> (e.progressive matches Some(v) && word_for_passes(
                v,
                s,
            )),
{
    law_lookup_finds_first(k, "denoise"@);
    law_lookup_finds_first(k, "gaborish"@);
    law_lookup_finds_first(k, "patches"@);
    law_lookup_finds_first(k, "pixel_domain_loss"@);
    law_lookup_finds_first(k, "error_diffusion"@);
    law_lookup_finds_first(k, "lf_frame"@);
    law_lookup_finds_first(k, "lz77"@);
    law_lookup_finds_first(k, "butteraugli_iters"@);
    law_lookup_finds_first(k, "zensim_iters"@);
    law_lookup_finds_first(k, "ssim2_iters"@);
    law_lookup_finds_first(k, "force_strategy"@);
    law_lookup_finds_first(k, "max_strategy_size"@);
    law_lookup_finds_first(k, "progressive"@);
}

/// A JPEG XL cell is refused exactly when it is not lossless and its pass layout is a
/// word that is not known.
pub proof fn law_jxl_refused(k: Knobs)
    ensures
        plan_fault(CodecKind::Zenjxl, k) is Some <==> {
            &&& !set_to(k, "lossless"@, JsonView::Bool(true))
            &&& misnamed(k, "progressive"@, |s: Seq<char>| is_passes(s))
        },
{
    law_lookup_finds_first(k, "lossless"@);
    law_lookup_finds_first(k, "progressive"@);
    lemma_misnamed(k, "progressive"@, |s: Seq<char>| is_passes(s));
    lemma_bare(k);
    if lookup(k, "progressive"@) is Some {
        let names = bare_knobs();
        assert(names[11] == "progressive"@);
        assert(!unset(k, names[11]));
    }
}

// ── Every codec ────────────────────────────────────────────────────────

/// A cell is handed to the encoder that its codec names.
pub proof fn law_plan_is_of_its_codec(p: EncodePlan, codec: CodecKind, k: Knobs)
    requires
        plan_for(p, codec, k),
    ensures
        p is Png <==> codec.spec_name() == "zenpng"@,
        p is Jpeg <==> codec.spec_name() == "zenjpeg"@,
        p is Webp <==> codec.spec_name() == "zenwebp"@,
        p is Avif <==> codec.spec_name() == "zenavif"@,
        p is Jxl <==> codec.spec_name() == "zenjxl"@,
{
    reveal_strlit("zenpng");
    reveal_strlit("zenjpeg");
    reveal_strlit("zenwebp");
    reveal_strlit("zenavif");
    reveal_strlit("zenjxl");
    assert("zenpng"@[3] == 'p' && "zenpng"@.len() == 6);
    assert("zenjpeg"@[3] == 'j' && "zenjpeg"@.len() == 7);
    assert("zenwebp"@[3] == 'w' && "zenwebp"@.len() == 7);
    assert("zenavif"@[3] == 'a' && "zenavif"@.len() == 7);
    assert("zenjxl"@[3] == 'j' && "zenjxl"@.len() == 6);
}

} // verus!
