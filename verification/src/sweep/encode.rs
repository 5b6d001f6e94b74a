//! How a cell is encoded: the codecs, and the settings that a cell's knobs ask
//! of each of them.
//!
//! A cell carries its knobs as the members of a JSON object. For each codec one
//! function reads the knobs that the codec knows into a plan of typed settings,
//! or says which of them it cannot read. Knobs that a codec does not know are
//! left alone, and so is a knob whose value has the wrong type, except where a
//! text names a setting: a name that the codec does not know is an error. The
//! quality of a cell, and real-valued settings, are handed to the codec as they
//! are and appear here as text.

use crate::json::{
    bool_in, get, get_bool, get_number, get_str, get_u64, lemma_array_view, lookup, members,
    number_in, opt_view, str_in, u64_in, Json, JsonView, Members,
};
use crate::text::{copy, debug_text, quoted, same};
use vstd::prelude::*;

verus! {

/// Codec selector for a sweep.
#[derive(Debug, Clone, Copy, PartialEq, Eq, Structural)]
pub enum CodecKind {
    /// Lossless PNG.
    Zenpng,
    /// JPEG.
    Zenjpeg,
    /// Lossy and lossless WebP.
    Zenwebp,
    /// AV1 still images.
    Zenavif,
    /// JPEG XL.
    Zenjxl,
}

impl CodecKind {
    /// The name of the codec.
    pub open spec fn spec_name(self) -> Seq<char> {
        match self {
            CodecKind::Zenpng => "zenpng"@,
            CodecKind::Zenjpeg => "zenjpeg"@,
            CodecKind::Zenwebp => "zenwebp"@,
            CodecKind::Zenavif => "zenavif"@,
            CodecKind::Zenjxl => "zenjxl"@,
        }
    }

    /// The name of the codec.
    pub fn name(self) -> (r: &'static str)
        ensures
            r@ == self.spec_name(),
    {
        match self {
            CodecKind::Zenpng => "zenpng",
            CodecKind::Zenjpeg => "zenjpeg",
            CodecKind::Zenwebp => "zenwebp",
            CodecKind::Zenavif => "zenavif",
            CodecKind::Zenjxl => "zenjxl",
        }
    }

    /// The extension of the codec's files, without the dot.
    pub open spec fn spec_extension(self) -> Seq<char> {
        match self {
            CodecKind::Zenpng => "png"@,
            CodecKind::Zenjpeg => "jpg"@,
            CodecKind::Zenwebp => "webp"@,
            CodecKind::Zenavif => "avif"@,
            CodecKind::Zenjxl => "jxl"@,
        }
    }

    /// The extension of the codec's files, without the dot.
    pub fn extension(self) -> (r: &'static str)
        ensures
            r@ == self.spec_extension(),
    {
        match self {
            CodecKind::Zenpng => "png",
            CodecKind::Zenjpeg => "jpg",
            CodecKind::Zenwebp => "webp",
            CodecKind::Zenavif => "avif",
            CodecKind::Zenjxl => "jxl",
        }
    }
}

// ── Reading one knob ───────────────────────────────────────────────────

/// The knobs of a cell.
pub type Knobs = Seq<(Seq<char>, JsonView)>;

/// `x`, or `max` where `x` is above it.
pub open spec fn capped(x: u64, max: u64) -> u64 {
    if x > max {
        max
    } else {
        x
    }
}

/// `x`, or the nearer end of `lo..=hi` where `x` lies outside.
pub open spec fn clamped(x: u64, lo: u64, hi: u64) -> u64 {
    if x < lo {
        lo
    } else if x > hi {
        hi
    } else {
        x
    }
}

/// The knob as a truth value.
pub open spec fn flag(k: Knobs, key: Seq<char>) -> Option<bool> {
    bool_in(lookup(k, key))
}

/// The knob as a whole number of at most `max`.
pub open spec fn level(k: Knobs, key: Seq<char>, max: u64) -> Option<u64> {
    match u64_in(lookup(k, key)) {
        Some(x) => Some(capped(x, max)),
        None => None,
    }
}

/// The knob as a whole number in `lo..=hi`.
pub open spec fn level_in(k: Knobs, key: Seq<char>, lo: u64, hi: u64) -> Option<u64> {
    match u64_in(lookup(k, key)) {
        Some(x) => Some(clamped(x, lo, hi)),
        None => None,
    }
}

/// The knob as a setting that a null takes back: nothing when the knob is absent
/// or unusable, `Some(None)` for a null, else a whole number of at most `max`.
pub open spec fn clearable(k: Knobs, key: Seq<char>, max: u64) -> Option<Option<u64>> {
    match lookup(k, key) {
        Some(JsonView::Null) => Some(None),
        Some(JsonView::Number(Some(x), _)) => Some(Some(capped(x, max))),
        _ => None,
    }
}

/// The knob as a whole number of at most `max`.
fn read_level(m: &Members, key: &str, max: u64) -> (r: Option<u64>)
    ensures
        r == level(members(m@), key@, max),
{
    match get_u64(m, key) {
        Some(x) => Some(if x > max { max } else { x }),
        None => None,
    }
}

/// The knob as a whole number in `lo..=hi`.
fn read_level_in(m: &Members, key: &str, lo: u64, hi: u64) -> (r: Option<u64>)
    ensures
        r == level_in(members(m@), key@, lo, hi),
{
    match get_u64(m, key) {
        Some(x) => Some(
            if x < lo {
                lo
            } else if x > hi {
                hi
            } else {
                x
            },
        ),
        None => None,
    }
}

/// The knob as a setting that a null takes back.
fn read_clearable(m: &Members, key: &str, max: u64) -> (r: Option<Option<u64>>)
    ensures
        r == clearable(members(m@), key@, max),
{
    match get(m, key) {
        Some(Json::Null) => Some(None),
        Some(Json::Number(n)) => match n.unsigned {
            Some(x) => Some(Some(if x > max { max } else { x })),
            None => None,
        },
        _ => None,
    }
}

/// A setting's name that the codec does not know, in an error message.
pub open spec fn unknown_name(lead: Seq<char>, name: Seq<char>) -> Seq<char> {
    lead + debug_text(name)
}

/// A setting's name that the codec does not know, in an error message.
fn say_unknown(lead: &str, name: &str) -> (r: String)
    ensures
        r@ == unknown_name(lead@, name@),
{
    let mut s: String = copy(lead);
    let q = quoted(name);
    s.append(q.as_str());
    s
}

// ── PNG ────────────────────────────────────────────────────────────────

/// Named effort levels of the PNG encoder.
#[derive(Debug, Clone, Copy, PartialEq, Eq, Structural)]
pub enum PngPreset {
    Store,
    Fastest,
    Turbo,
    Fast,
    Balanced,
    Thorough,
    High,
    Aggressive,
    Intense,
    Crush,
    Maniac,
    Brag,
    Minutes,
}

/// The PNG preset that a text names.
pub open spec fn png_preset_of(s: Seq<char>) -> Option<PngPreset> {
    if s == "none"@ {
        Some(PngPreset::Store)
    } else if s == "fastest"@ {
        Some(PngPreset::Fastest)
    } else if s == "turbo"@ {
        Some(PngPreset::Turbo)
    } else if s == "fast"@ {
        Some(PngPreset::Fast)
    } else if s == "balanced"@ {
        Some(PngPreset::Balanced)
    } else if s == "thorough"@ {
        Some(PngPreset::Thorough)
    } else if s == "high"@ {
        Some(PngPreset::High)
    } else if s == "aggressive"@ {
        Some(PngPreset::Aggressive)
    } else if s == "intense"@ {
        Some(PngPreset::Intense)
    } else if s == "crush"@ {
        Some(PngPreset::Crush)
    } else if s == "maniac"@ {
        Some(PngPreset::Maniac)
    } else if s == "brag"@ {
        Some(PngPreset::Brag)
    } else if s == "minutes"@ {
        Some(PngPreset::Minutes)
    } else {
        None
    }
}

/// The PNG preset that a text names.
pub fn parse_png_preset(s: &str) -> (r: Option<PngPreset>)
    ensures
        r == png_preset_of(s@),
{
    if same(s, "none") {
        Some(PngPreset::Store)
    } else if same(s, "fastest") {
        Some(PngPreset::Fastest)
    } else if same(s, "turbo") {
        Some(PngPreset::Turbo)
    } else if same(s, "fast") {
        Some(PngPreset::Fast)
    } else if same(s, "balanced") {
        Some(PngPreset::Balanced)
    } else if same(s, "thorough") {
        Some(PngPreset::Thorough)
    } else if same(s, "high") {
        Some(PngPreset::High)
    } else if same(s, "aggressive") {
        Some(PngPreset::Aggressive)
    } else if same(s, "intense") {
        Some(PngPreset::Intense)
    } else if same(s, "crush") {
        Some(PngPreset::Crush)
    } else if same(s, "maniac") {
        Some(PngPreset::Maniac)
    } else if same(s, "brag") {
        Some(PngPreset::Brag)
    } else if same(s, "minutes") {
        Some(PngPreset::Minutes)
    } else {
        None
    }
}

/// How hard the PNG encoder works.
#[derive(Debug, Clone, Copy, PartialEq, Eq, Structural)]
pub enum PngCompression {
    /// A numeric effort, at most 200.
    Effort(u32),
    /// A named level.
    Preset(PngPreset),
}

/// Settings for the PNG encoder; an absent one is left at the encoder's default.
#[derive(Debug, Clone, Copy, PartialEq, Eq, Structural)]
pub struct PngPlan {
    pub compression: Option<PngCompression>,
    pub near_lossless_bits: Option<u8>,
    pub parallel: Option<bool>,
    pub max_threads: Option<u64>,
}

/// What the `compression` knob asks for, or the message when it cannot be read.
pub open spec fn png_compression(k: Knobs) -> Result<Option<PngCompression>, Seq<char>> {
    match lookup(k, "compression"@) {
        None => Ok(None),
        Some(JsonView::Number(Some(x), _)) => Ok(
            Some(PngCompression::Effort(capped(x, 200) as u32)),
        ),
        Some(JsonView::Number(None, _)) => Ok(Some(PngCompression::Effort(13))),
        Some(JsonView::Str(s)) => match png_preset_of(s) {
            Some(p) => Ok(Some(PngCompression::Preset(p))),
            None => Err(
                unknown_name(
                    "zenpng compression must be a 0..=200 effort or one of none|fastest|turbo|fast|balanced|thorough|high|aggressive|intense|crush|maniac|brag|minutes; got "@,
                    s,
                ),
            ),
        },
        Some(_) => Err("zenpng compression must be a number (0..=200) or preset string"@),
    }
}

/// The plan that the knobs ask of the PNG encoder.
pub open spec fn png_plan(k: Knobs) -> Result<PngPlan, Seq<char>> {
    match png_compression(k) {
        Err(e) => Err(e),
        Ok(c) => Ok(
            PngPlan {
                compression: c,
                near_lossless_bits: match level(k, "near_lossless_bits"@, 4) {
                    Some(b) => Some(b as u8),
                    None => None,
                },
                parallel: flag(k, "parallel"@),
                max_threads: u64_in(lookup(k, "max_threads"@)),
            },
        ),
    }
}

/// Reads the knobs of a PNG cell.
pub fn encode_png(knobs: &Members) -> (r: Result<PngPlan, String>)
    ensures
        match r {
            Ok(p) => png_plan(members(knobs@)) == Ok::<PngPlan, Seq<char>>(p),
            Err(e) => png_plan(members(knobs@)) == Err::<PngPlan, Seq<char>>(e@),
        },
{
    let compression: Option<PngCompression> = match get(knobs, "compression") {
        None => None,
        Some(Json::Number(n)) => match n.unsigned {
            Some(x) => Some(PngCompression::Effort(if x > 200 { 200 } else { x as u32 })),
            None => Some(PngCompression::Effort(13)),
        },
        Some(Json::Str(s)) => match parse_png_preset(s.as_str()) {
            Some(p) => Some(PngCompression::Preset(p)),
            None => {
                return Err(
                    say_unknown(
                        "zenpng compression must be a 0..=200 effort or one of none|fastest|turbo|fast|balanced|thorough|high|aggressive|intense|crush|maniac|brag|minutes; got ",
                        s.as_str(),
                    ),
                );
            },
        },
        Some(_) => {
            return Err(copy("zenpng compression must be a number (0..=200) or preset string"));
        },
    };
    let near_lossless_bits: Option<u8> = match read_level(knobs, "near_lossless_bits", 4) {
        Some(b) => Some(b as u8),
        None => None,
    };
    Ok(
        PngPlan {
            compression,
            near_lossless_bits,
            parallel: get_bool(knobs, "parallel"),
            max_threads: get_u64(knobs, "max_threads"),
        },
    )
}

// ── JPEG ───────────────────────────────────────────────────────────────

/// How much of the chroma planes is kept.
#[derive(Debug, Clone, Copy, PartialEq, Eq, Structural)]
pub enum ChromaSubsampling {
    Full,
    HalfHorizontal,
    Quarter,
    HalfVertical,
}

/// The chroma subsampling that a text names.
pub open spec fn subsampling_of(s: Seq<char>) -> Option<ChromaSubsampling> {
    if s == "444"@ || s == "4:4:4"@ {
        Some(ChromaSubsampling::Full)
    } else if s == "422"@ || s == "4:2:2"@ {
        Some(ChromaSubsampling::HalfHorizontal)
    } else if s == "420"@ || s == "4:2:0"@ {
        Some(ChromaSubsampling::Quarter)
    } else if s == "440"@ || s == "4:4:0"@ {
        Some(ChromaSubsampling::HalfVertical)
    } else {
        None
    }
}

/// The chroma subsampling that a text names.
pub fn parse_subsampling(s: &str) -> (r: Option<ChromaSubsampling>)
    ensures
        r == subsampling_of(s@),
{
    if same(s, "444") || same(s, "4:4:4") {
        Some(ChromaSubsampling::Full)
    } else if same(s, "422") || same(s, "4:2:2") {
        Some(ChromaSubsampling::HalfHorizontal)
    } else if same(s, "420") || same(s, "4:2:0") {
        Some(ChromaSubsampling::Quarter)
    } else if same(s, "440") || same(s, "4:4:0") {
        Some(ChromaSubsampling::HalfVertical)
    } else {
        None
    }
}

/// Where the quantisation tables come from.
#[derive(Debug, Clone, Copy, PartialEq, Eq, Structural)]
pub enum QuantTableSource {
    Jpegli,
    MozjpegDefault,
}

/// The quantisation source that a text names.
pub open spec fn quant_source_of(s: Seq<char>) -> Option<QuantTableSource> {
    if s == "jpegli"@ {
        Some(QuantTableSource::Jpegli)
    } else if s == "mozjpeg_default"@ || s == "mozjpeg"@ {
        Some(QuantTableSource::MozjpegDefault)
    } else {
        None
    }
}

/// The quantisation source that a text names.
pub fn parse_quant_source(s: &str) -> (r: Option<QuantTableSource>)
    ensures
        r == quant_source_of(s@),
{
    if same(s, "jpegli") {
        Some(QuantTableSource::Jpegli)
    } else if same(s, "mozjpeg_default") || same(s, "mozjpeg") {
        Some(QuantTableSource::MozjpegDefault)
    } else {
        None
    }
}

/// How the scans are laid out.
#[derive(Debug, Clone, Copy, PartialEq, Eq, Structural)]
pub enum ProgressiveScanMode {
    Baseline,
    Progressive,
    ProgressiveMozjpeg,
    ProgressiveSearch,
}

/// The scan mode that a text names.
pub open spec fn progressive_mode_of(s: Seq<char>) -> Option<ProgressiveScanMode> {
    if s == "baseline"@ {
        Some(ProgressiveScanMode::Baseline)
    } else if s == "progressive"@ {
        Some(ProgressiveScanMode::Progressive)
    } else if s == "progressive_mozjpeg"@ || s == "two_scan"@ || s == "mozjpeg"@ {
        Some(ProgressiveScanMode::ProgressiveMozjpeg)
    } else if s == "progressive_search"@ || s == "search"@ {
        Some(ProgressiveScanMode::ProgressiveSearch)
    } else {
        None
    }
}

/// The scan mode that a text names.
pub fn parse_progressive_mode(s: &str) -> (r: Option<ProgressiveScanMode>)
    ensures
        r == progressive_mode_of(s@),
{
    if same(s, "baseline") {
        Some(ProgressiveScanMode::Baseline)
    } else if same(s, "progressive") {
        Some(ProgressiveScanMode::Progressive)
    } else if same(s, "progressive_mozjpeg") || same(s, "two_scan") || same(s, "mozjpeg") {
        Some(ProgressiveScanMode::ProgressiveMozjpeg)
    } else if same(s, "progressive_search") || same(s, "search") {
        Some(ProgressiveScanMode::ProgressiveSearch)
    } else {
        None
    }
}

/// How the Huffman tables are chosen.
#[derive(Debug, Clone, Copy, PartialEq, Eq, Structural)]
pub enum HuffmanStrategy {
    Optimize,
    Fixed,
    FixedAnnexK,
}

/// The Huffman strategy that a text names.
pub open spec fn huffman_of(s: Seq<char>) -> Option<HuffmanStrategy> {
    if s == "optimize"@ {
        Some(HuffmanStrategy::Optimize)
    } else if s == "fixed"@ {
        Some(HuffmanStrategy::Fixed)
    } else if s == "fixed_annex_k"@ || s == "annex_k"@ {
        Some(HuffmanStrategy::FixedAnnexK)
    } else {
        None
    }
}

/// The Huffman strategy that a text names.
pub fn parse_huffman(s: &str) -> (r: Option<HuffmanStrategy>)
    ensures
        r == huffman_of(s@),
{
    if same(s, "optimize") {
        Some(HuffmanStrategy::Optimize)
    } else if same(s, "fixed") {
        Some(HuffmanStrategy::Fixed)
    } else if same(s, "fixed_annex_k") || same(s, "annex_k") {
        Some(HuffmanStrategy::FixedAnnexK)
    } else {
        None
    }
}

/// Whether the smallest-file layout is used.
#[derive(Debug, Clone, Copy, PartialEq, Eq, Structural)]
pub enum TinyFileMode {
    Auto,
    Off,
    Force,
}

/// The tiny-file mode that a text names.
pub open spec fn tiny_file_mode_of(s: Seq<char>) -> Option<TinyFileMode> {
    if s == "auto"@ {
        Some(TinyFileMode::Auto)
    } else if s == "off"@ {
        Some(TinyFileMode::Off)
    } else if s == "force"@ {
        Some(TinyFileMode::Force)
    } else {
        None
    }
}

/// The tiny-file mode that a text names.
pub fn parse_tiny_file_mode(s: &str) -> (r: Option<TinyFileMode>)
    ensures
        r == tiny_file_mode_of(s@),
{
    if same(s, "auto") {
        Some(TinyFileMode::Auto)
    } else if same(s, "off") {
        Some(TinyFileMode::Off)
    } else if same(s, "force") {
        Some(TinyFileMode::Force)
    } else {
        None
    }
}

/// How chroma is downsampled.
#[derive(Debug, Clone, Copy, PartialEq, Eq, Structural)]
pub enum DownsamplingMethod {
    Box,
    GammaAware,
    GammaAwareIterative,
}

/// The downsampling method that a text names.
pub open spec fn downsampling_of(s: Seq<char>) -> Option<DownsamplingMethod> {
    if s == "box"@ {
        Some(DownsamplingMethod::Box)
    } else if s == "gamma_aware"@ {
        Some(DownsamplingMethod::GammaAware)
    } else if s == "gamma_aware_iterative"@ || s == "iterative"@ {
        Some(DownsamplingMethod::GammaAwareIterative)
    } else {
        None
    }
}

/// The downsampling method that a text names.
pub fn parse_downsampling(s: &str) -> (r: Option<DownsamplingMethod>)
    ensures
        r == downsampling_of(s@),
{
    if same(s, "box") {
        Some(DownsamplingMethod::Box)
    } else if same(s, "gamma_aware") {
        Some(DownsamplingMethod::GammaAware)
    } else if same(s, "gamma_aware_iterative") || same(s, "iterative") {
        Some(DownsamplingMethod::GammaAwareIterative)
    } else {
        None
    }
}

/// Bundles of encoder decisions.
#[derive(Debug, Clone, Copy, PartialEq, Eq, Structural)]
pub enum OptimizationPreset {
    JpegliBaseline,
    JpegliProgressive,
    MozjpegBaseline,
    MozjpegProgressive,
    MozjpegMaxCompression,
    HybridBaseline,
    HybridProgressive,
    HybridMaxCompression,
}

/// The optimisation preset that a text names.
pub open spec fn optimization_of(s: Seq<char>) -> Option<OptimizationPreset> {
    if s == "jpegli_baseline"@ {
        Some(OptimizationPreset::JpegliBaseline)
    } else if s == "jpegli_progressive"@ {
        Some(OptimizationPreset::JpegliProgressive)
    } else if s == "mozjpeg_baseline"@ {
        Some(OptimizationPreset::MozjpegBaseline)
    } else if s == "mozjpeg_progressive"@ {
        Some(OptimizationPreset::MozjpegProgressive)
    } else if s == "mozjpeg_max_compression"@ {
        Some(OptimizationPreset::MozjpegMaxCompression)
    } else if s == "hybrid_baseline"@ {
        Some(OptimizationPreset::HybridBaseline)
    } else if s == "hybrid_progressive"@ {
        Some(OptimizationPreset::HybridProgressive)
    } else if s == "hybrid_max_compression"@ {
        Some(OptimizationPreset::HybridMaxCompression)
    } else {
        None
    }
}

/// The optimisation preset that a text names.
pub fn parse_optimization(s: &str) -> (r: Option<OptimizationPreset>)
    ensures
        r == optimization_of(s@),
{
    if same(s, "jpegli_baseline") {
        Some(OptimizationPreset::JpegliBaseline)
    } else if same(s, "jpegli_progressive") {
        Some(OptimizationPreset::JpegliProgressive)
    } else if same(s, "mozjpeg_baseline") {
        Some(OptimizationPreset::MozjpegBaseline)
    } else if same(s, "mozjpeg_progressive") {
        Some(OptimizationPreset::MozjpegProgressive)
    } else if same(s, "mozjpeg_max_compression") {
        Some(OptimizationPreset::MozjpegMaxCompression)
    } else if same(s, "hybrid_baseline") {
        Some(OptimizationPreset::HybridBaseline)
    } else if same(s, "hybrid_progressive") {
        Some(OptimizationPreset::HybridProgressive)
    } else if same(s, "hybrid_max_compression") {
        Some(OptimizationPreset::HybridMaxCompression)
    } else {
        None
    }
}

/// The chroma subsampling that the `subsampling` knob names, or the message when it names none.
pub open spec fn subsampling_knob(k: Knobs) -> Result<Option<ChromaSubsampling>, Seq<char>> {
    match str_in(lookup(k, "subsampling"@)) {
        None => Ok(None),
        Some(s) => match subsampling_of(s) {
            Some(v) => Ok(Some(v)),
            None => Err(
                unknown_name(
                    "zenjpeg subsampling must be one of 444|422|420|440; got "@,
                    s,
                ),
            ),
        },
    }
}

/// The chroma subsampling that the `subsampling` knob names, or the message when it names none.
fn read_subsampling(m: &Members) -> (r: Result<Option<ChromaSubsampling>, String>)
    ensures
        match r {
            Ok(v) => subsampling_knob(members(m@)) == Ok::<Option<ChromaSubsampling>, Seq<char>>(v),
            Err(e) => subsampling_knob(members(m@)) == Err::<Option<ChromaSubsampling>, Seq<char>>(e@),
        },
{
    match get_str(m, "subsampling") {
        None => Ok(None),
        Some(s) => match parse_subsampling(s) {
            Some(v) => Ok(Some(v)),
            None => Err(
                say_unknown(
                    "zenjpeg subsampling must be one of 444|422|420|440; got ",
                    s,
                ),
            ),
        },
    }
}

/// The quantisation source that the `quant_source` knob names, or the message when it names none.
pub open spec fn quant_source_knob(k: Knobs) -> Result<Option<QuantTableSource>, Seq<char>> {
    match str_in(lookup(k, "quant_source"@)) {
        None => Ok(None),
        Some(s) => match quant_source_of(s) {
            Some(v) => Ok(Some(v)),
            None => Err(
                unknown_name(
                    "zenjpeg quant_source must be \"jpegli\" or \"mozjpeg_default\"; got "@,
                    s,
                ),
            ),
        },
    }
}

/// The quantisation source that the `quant_source` knob names, or the message when it names none.
fn read_quant_source(m: &Members) -> (r: Result<Option<QuantTableSource>, String>)
    ensures
        match r {
            Ok(v) => quant_source_knob(members(m@)) == Ok::<Option<QuantTableSource>, Seq<char>>(v),
            Err(e) => quant_source_knob(members(m@)) == Err::<Option<QuantTableSource>, Seq<char>>(e@),
        },
{
    match get_str(m, "quant_source") {
        None => Ok(None),
        Some(s) => match parse_quant_source(s) {
            Some(v) => Ok(Some(v)),
            None => Err(
                say_unknown(
                    "zenjpeg quant_source must be \"jpegli\" or \"mozjpeg_default\"; got ",
                    s,
                ),
            ),
        },
    }
}

/// The scan mode that the `progressive_mode` knob names, or the message when it names none.
pub open spec fn progressive_mode_knob(k: Knobs) -> Result<Option<ProgressiveScanMode>, Seq<char>> {
    match str_in(lookup(k, "progressive_mode"@)) {
        None => Ok(None),
        Some(s) => match progressive_mode_of(s) {
            Some(v) => Ok(Some(v)),
            None => Err(
                unknown_name(
                    "zenjpeg progressive_mode must be one of baseline|progressive|progressive_mozjpeg|progressive_search; got "@,
                    s,
                ),
            ),
        },
    }
}

/// The scan mode that the `progressive_mode` knob names, or the message when it names none.
fn read_progressive_mode(m: &Members) -> (r: Result<Option<ProgressiveScanMode>, String>)
    ensures
        match r {
            Ok(v) => progressive_mode_knob(members(m@)) == Ok::<Option<ProgressiveScanMode>, Seq<char>>(v),
            Err(e) => progressive_mode_knob(members(m@)) == Err::<Option<ProgressiveScanMode>, Seq<char>>(e@),
        },
{
    match get_str(m, "progressive_mode") {
        None => Ok(None),
        Some(s) => match parse_progressive_mode(s) {
            Some(v) => Ok(Some(v)),
            None => Err(
                say_unknown(
                    "zenjpeg progressive_mode must be one of baseline|progressive|progressive_mozjpeg|progressive_search; got ",
                    s,
                ),
            ),
        },
    }
}

/// The Huffman strategy that the `huffman` knob names, or the message when it names none.
pub open spec fn huffman_knob(k: Knobs) -> Result<Option<HuffmanStrategy>, Seq<char>> {
    match str_in(lookup(k, "huffman"@)) {
        None => Ok(None),
        Some(s) => match huffman_of(s) {
            Some(v) => Ok(Some(v)),
            None => Err(
                unknown_name(
                    "zenjpeg huffman must be one of optimize|fixed|fixed_annex_k; got "@,
                    s,
                ),
            ),
        },
    }
}

/// The Huffman strategy that the `huffman` knob names, or the message when it names none.
fn read_huffman(m: &Members) -> (r: Result<Option<HuffmanStrategy>, String>)
    ensures
        match r {
            Ok(v) => huffman_knob(members(m@)) == Ok::<Option<HuffmanStrategy>, Seq<char>>(v),
            Err(e) => huffman_knob(members(m@)) == Err::<Option<HuffmanStrategy>, Seq<char>>(e@),
        },
{
    match get_str(m, "huffman") {
        None => Ok(None),
        Some(s) => match parse_huffman(s) {
            Some(v) => Ok(Some(v)),
            None => Err(
                say_unknown(
                    "zenjpeg huffman must be one of optimize|fixed|fixed_annex_k; got ",
                    s,
                ),
            ),
        },
    }
}

/// The tiny-file mode that the `tiny_file_mode` knob names, or the message when it names none.
pub open spec fn tiny_file_mode_knob(k: Knobs) -> Result<Option<TinyFileMode>, Seq<char>> {
    match str_in(lookup(k, "tiny_file_mode"@)) {
        None => Ok(None),
        Some(s) => match tiny_file_mode_of(s) {
            Some(v) => Ok(Some(v)),
            None => Err(
                unknown_name(
                    "zenjpeg tiny_file_mode must be one of auto|off|force; got "@,
                    s,
                ),
            ),
        },
    }
}

/// The tiny-file mode that the `tiny_file_mode` knob names, or the message when it names none.
fn read_tiny_file_mode(m: &Members) -> (r: Result<Option<TinyFileMode>, String>)
    ensures
        match r {
            Ok(v) => tiny_file_mode_knob(members(m@)) == Ok::<Option<TinyFileMode>, Seq<char>>(v),
            Err(e) => tiny_file_mode_knob(members(m@)) == Err::<Option<TinyFileMode>, Seq<char>>(e@),
        },
{
    match get_str(m, "tiny_file_mode") {
        None => Ok(None),
        Some(s) => match parse_tiny_file_mode(s) {
            Some(v) => Ok(Some(v)),
            None => Err(
                say_unknown(
                    "zenjpeg tiny_file_mode must be one of auto|off|force; got ",
                    s,
                ),
            ),
        },
    }
}

/// The downsampling method that the `downsampling_method` knob names, or the message when it names none.
pub open spec fn downsampling_knob(k: Knobs) -> Result<Option<DownsamplingMethod>, Seq<char>> {
    match str_in(lookup(k, "downsampling_method"@)) {
        None => Ok(None),
        Some(s) => match downsampling_of(s) {
            Some(v) => Ok(Some(v)),
            None => Err(
                unknown_name(
                    "zenjpeg downsampling_method must be one of box|gamma_aware|gamma_aware_iterative; got "@,
                    s,
                ),
            ),
        },
    }
}

/// The downsampling method that the `downsampling_method` knob names, or the message when it names none.
fn read_downsampling(m: &Members) -> (r: Result<Option<DownsamplingMethod>, String>)
    ensures
        match r {
            Ok(v) => downsampling_knob(members(m@)) == Ok::<Option<DownsamplingMethod>, Seq<char>>(v),
            Err(e) => downsampling_knob(members(m@)) == Err::<Option<DownsamplingMethod>, Seq<char>>(e@),
        },
{
    match get_str(m, "downsampling_method") {
        None => Ok(None),
        Some(s) => match parse_downsampling(s) {
            Some(v) => Ok(Some(v)),
            None => Err(
                say_unknown(
                    "zenjpeg downsampling_method must be one of box|gamma_aware|gamma_aware_iterative; got ",
                    s,
                ),
            ),
        },
    }
}

/// The optimisation preset that the `optimization` knob names, or the message when it names none.
pub open spec fn optimization_knob(k: Knobs) -> Result<Option<OptimizationPreset>, Seq<char>> {
    match str_in(lookup(k, "optimization"@)) {
        None => Ok(None),
        Some(s) => match optimization_of(s) {
            Some(v) => Ok(Some(v)),
            None => Err(
                unknown_name(
                    "zenjpeg optimization must be one of jpegli_baseline|jpegli_progressive|mozjpeg_baseline|mozjpeg_progressive|mozjpeg_max_compression|hybrid_baseline|hybrid_progressive|hybrid_max_compression; got "@,
                    s,
                ),
            ),
        },
    }
}

/// The optimisation preset that the `optimization` knob names, or the message when it names none.
fn read_optimization(m: &Members) -> (r: Result<Option<OptimizationPreset>, String>)
    ensures
        match r {
            Ok(v) => optimization_knob(members(m@)) == Ok::<Option<OptimizationPreset>, Seq<char>>(v),
            Err(e) => optimization_knob(members(m@)) == Err::<Option<OptimizationPreset>, Seq<char>>(e@),
        },
{
    match get_str(m, "optimization") {
        None => Ok(None),
        Some(s) => match parse_optimization(s) {
            Some(v) => Ok(Some(v)),
            None => Err(
                say_unknown(
                    "zenjpeg optimization must be one of jpegli_baseline|jpegli_progressive|mozjpeg_baseline|mozjpeg_progressive|mozjpeg_max_compression|hybrid_baseline|hybrid_progressive|hybrid_max_compression; got ",
                    s,
                ),
            ),
        },
    }
}

/// Settings that the JPEG encoder takes only below its public builders.
#[derive(Debug)]
pub struct JpegInternal {
    pub optimize_huffman: Option<bool>,
    pub aq_enabled: Option<bool>,
    pub deringing: Option<bool>,
    pub auto_optimize: Option<bool>,
    /// A real number, as text.
    pub chroma_distance_scale: Option<String>,
    /// A real number, as text.
    pub pre_blur: Option<String>,
    pub quant_source: Option<QuantTableSource>,
    pub progressive: Option<ProgressiveScanMode>,
    pub huffman: Option<HuffmanStrategy>,
    pub tiny_file_mode: Option<TinyFileMode>,
    pub downsampling_method: Option<DownsamplingMethod>,
    pub restart_mcu_rows: Option<u16>,
    /// `Some(None)` goes back to the luma quality.
    pub chroma_quality: Option<Option<u8>>,
    pub optimization: Option<OptimizationPreset>,
    /// Adaptive quantisation together with trellis, at their defaults.
    pub hybrid: bool,
}

/// Settings for the JPEG encoder; an absent one is left at the encoder's default.
#[derive(Debug)]
pub struct JpegPlan {
    pub subsampling: Option<ChromaSubsampling>,
    pub progressive: Option<bool>,
    pub sharp_yuv: Option<bool>,
    pub effort: Option<i32>,
    /// Present when some knob asks for a setting below the public builders. The
    /// cell is then encoded without the encoder's own effort presets.
    pub internal: Option<JpegInternal>,
}

/// The message of the first knob that the JPEG encoder cannot read.
pub open spec fn jpeg_fault(k: Knobs) -> Option<Seq<char>> {
    if subsampling_knob(k) is Err {
        Some(subsampling_knob(k)->Err_0)
    } else if quant_source_knob(k) is Err {
        Some(quant_source_knob(k)->Err_0)
    } else if progressive_mode_knob(k) is Err {
        Some(progressive_mode_knob(k)->Err_0)
    } else if huffman_knob(k) is Err {
        Some(huffman_knob(k)->Err_0)
    } else if tiny_file_mode_knob(k) is Err {
        Some(tiny_file_mode_knob(k)->Err_0)
    } else if downsampling_knob(k) is Err {
        Some(downsampling_knob(k)->Err_0)
    } else if optimization_knob(k) is Err {
        Some(optimization_knob(k)->Err_0)
    } else {
        None
    }
}

/// Does some knob ask for a setting below the public builders?
pub open spec fn jpeg_wants_internal(k: Knobs) -> bool {
    ||| flag(k, "optimize_huffman"@) is Some
    ||| flag(k, "aq_enabled"@) is Some
    ||| flag(k, "deringing"@) is Some
    ||| flag(k, "auto_optimize"@) is Some
    ||| number_in(lookup(k, "chroma_distance_scale"@)) is Some
    ||| number_in(lookup(k, "pre_blur"@)) is Some
    ||| str_in(lookup(k, "quant_source"@)) is Some
    ||| str_in(lookup(k, "progressive_mode"@)) is Some
    ||| str_in(lookup(k, "huffman"@)) is Some
    ||| str_in(lookup(k, "tiny_file_mode"@)) is Some
    ||| str_in(lookup(k, "downsampling_method"@)) is Some
    ||| u64_in(lookup(k, "restart_mcu_rows"@)) is Some
    ||| clearable(k, "chroma_quality"@, 100) is Some
    ||| str_in(lookup(k, "optimization"@)) is Some
    ||| flag(k, "hybrid"@) == Some(true)
}

/// Are these the settings that the knobs ask for?
pub open spec fn jpeg_internal_for(p: JpegInternal, k: Knobs) -> bool {
    &&& p.optimize_huffman == flag(k, "optimize_huffman"@)
    &&& p.aq_enabled == flag(k, "aq_enabled"@)
    &&& p.deringing == flag(k, "deringing"@)
    &&& p.auto_optimize == flag(k, "auto_optimize"@)
    &&& opt_view(p.chroma_distance_scale) == number_in(lookup(k, "chroma_distance_scale"@))
    &&& opt_view(p.pre_blur) == number_in(lookup(k, "pre_blur"@))
    &&& quant_source_knob(k) == Ok::<Option<QuantTableSource>, Seq<char>>(p.quant_source)
    &&& progressive_mode_knob(k) == Ok::<Option<ProgressiveScanMode>, Seq<char>>(p.progressive)
    &&& huffman_knob(k) == Ok::<Option<HuffmanStrategy>, Seq<char>>(p.huffman)
    &&& tiny_file_mode_knob(k) == Ok::<Option<TinyFileMode>, Seq<char>>(p.tiny_file_mode)
    &&& downsampling_knob(k) == Ok::<Option<DownsamplingMethod>, Seq<char>>(p.downsampling_method)
    &&& p.restart_mcu_rows == (match level(k, "restart_mcu_rows"@, 65535) {
        Some(n) => Some(n as u16),
        None => None,
    })
    &&& p.chroma_quality == (match clearable(k, "chroma_quality"@, 100) {
        Some(Some(q)) => Some(Some(q as u8)),
        Some(None) => Some(None),
        None => None,
    })
    &&& optimization_knob(k) == Ok::<Option<OptimizationPreset>, Seq<char>>(p.optimization)
    &&& p.hybrid == (flag(k, "hybrid"@) == Some(true))
}

/// Is this the plan that the knobs ask of the JPEG encoder?
pub open spec fn jpeg_plan_for(p: JpegPlan, k: Knobs) -> bool {
    &&& subsampling_knob(k) == Ok::<Option<ChromaSubsampling>, Seq<char>>(p.subsampling)
    &&& p.progressive == flag(k, "progressive"@)
    &&& p.sharp_yuv == flag(k, "sharp_yuv"@)
    &&& p.effort == (match level(k, "effort"@, 2) {
        Some(e) => Some(e as i32),
        None => None,
    })
    &&& p.internal is Some <==> jpeg_wants_internal(k)
    &&& p.internal matches Some(i) ==> jpeg_internal_for(i, k)
}

/// Reads the knobs of a JPEG cell.
pub fn encode_jpeg(knobs: &Members) -> (r: Result<JpegPlan, String>)
    ensures
        match r {
            Ok(p) => jpeg_fault(members(knobs@)) is None && jpeg_plan_for(p, members(knobs@)),
            Err(e) => jpeg_fault(members(knobs@)) == Some(e@),
        },
{
    let subsampling = match read_subsampling(knobs) {
        Ok(v) => v,
        Err(e) => {
            return Err(e);
        },
    };
    let progressive = get_bool(knobs, "progressive");
    let sharp_yuv = get_bool(knobs, "sharp_yuv");
    let effort: Option<i32> = match read_level(knobs, "effort", 2) {
        Some(e) => Some(e as i32),
        None => None,
    };

    let optimize_huffman = get_bool(knobs, "optimize_huffman");
    let aq_enabled = get_bool(knobs, "aq_enabled");
    let deringing = get_bool(knobs, "deringing");
    let auto_optimize = get_bool(knobs, "auto_optimize");
    let chroma_distance_scale = get_number(knobs, "chroma_distance_scale");
    let pre_blur = get_number(knobs, "pre_blur");
    let quant_source = match read_quant_source(knobs) {
        Ok(v) => v,
        Err(e) => {
            return Err(e);
        },
    };
    let scan_mode = match read_progressive_mode(knobs) {
        Ok(v) => v,
        Err(e) => {
            return Err(e);
        },
    };
    let huffman = match read_huffman(knobs) {
        Ok(v) => v,
        Err(e) => {
            return Err(e);
        },
    };
    let tiny_file_mode = match read_tiny_file_mode(knobs) {
        Ok(v) => v,
        Err(e) => {
            return Err(e);
        },
    };
    let downsampling_method = match read_downsampling(knobs) {
        Ok(v) => v,
        Err(e) => {
            return Err(e);
        },
    };
    let restart_mcu_rows: Option<u16> = match read_level(knobs, "restart_mcu_rows", 65535) {
        Some(n) => Some(n as u16),
        None => None,
    };
    let chroma_quality: Option<Option<u8>> = match read_clearable(knobs, "chroma_quality", 100) {
        Some(Some(q)) => Some(Some(q as u8)),
        Some(None) => Some(None),
        None => None,
    };
    let optimization = match read_optimization(knobs) {
        Ok(v) => v,
        Err(e) => {
            return Err(e);
        },
    };
    let hybrid: bool = match get_bool(knobs, "hybrid") {
        Some(b) => b,
        None => false,
    };

    let any_internal: bool = optimize_huffman.is_some() || aq_enabled.is_some()
        || deringing.is_some() || auto_optimize.is_some() || chroma_distance_scale.is_some()
        || pre_blur.is_some() || quant_source.is_some() || scan_mode.is_some() || huffman.is_some()
        || tiny_file_mode.is_some() || downsampling_method.is_some() || restart_mcu_rows.is_some()
        || chroma_quality.is_some() || optimization.is_some() || hybrid;
    let internal: Option<JpegInternal> = if any_internal {
        Some(
            JpegInternal {
                optimize_huffman,
                aq_enabled,
                deringing,
                auto_optimize,
                chroma_distance_scale,
                pre_blur,
                quant_source,
                progressive: scan_mode,
                huffman,
                tiny_file_mode,
                downsampling_method,
                restart_mcu_rows,
                chroma_quality,
                optimization,
                hybrid,
            },
        )
    } else {
        None
    };
    Ok(JpegPlan { subsampling, progressive, sharp_yuv, effort, internal })
}

// ── WebP ───────────────────────────────────────────────────────────────

/// Whether sharp chroma conversion is used.
#[derive(Debug, Clone, Copy, PartialEq, Eq, Structural)]
pub enum SharpYuvSetting {
    Off,
    On,
}

/// The sharp-chroma setting that a text names.
pub open spec fn sharp_yuv_of(s: Seq<char>) -> Option<SharpYuvSetting> {
    if s == "off"@ {
        Some(SharpYuvSetting::Off)
    } else if s == "on"@ {
        Some(SharpYuvSetting::On)
    } else {
        None
    }
}

/// The sharp-chroma setting that a text names.
pub fn parse_sharp_yuv(s: &str) -> (r: Option<SharpYuvSetting>)
    ensures
        r == sharp_yuv_of(s@),
{
    if same(s, "off") {
        Some(SharpYuvSetting::Off)
    } else if same(s, "on") {
        Some(SharpYuvSetting::On)
    } else {
        None
    }
}

/// Settings that the WebP encoder takes only below its public builders.
#[derive(Debug, Clone, Copy, PartialEq, Eq, Structural)]
pub struct WebpInternal {
    pub partition_limit: Option<u8>,
    pub multi_pass_stats: Option<bool>,
    pub smooth_segment_map: Option<bool>,
    pub sharp_yuv: Option<SharpYuvSetting>,
}

/// Settings for the WebP encoder; an absent one is left at the encoder's default.
#[derive(Debug, Clone, Copy, PartialEq, Eq, Structural)]
pub enum WebpPlan {
    Lossless,
    Lossy {
        method: Option<u8>,
        segments: Option<u8>,
        sns_strength: Option<u8>,
        filter_strength: Option<u8>,
        internal: Option<WebpInternal>,
    },
}

/// A whole number that is known to fit in eight bits.
pub open spec fn small(o: Option<u64>) -> Option<u8> {
    match o {
        Some(x) => Some(x as u8),
        None => None,
    }
}

/// A whole number that is known to fit in eight bits.
fn to_small(o: Option<u64>) -> (r: Option<u8>)
    requires
        o matches Some(x) ==> x <= 255,
    ensures
        r == small(o),
{
    match o {
        Some(x) => Some(x as u8),
        None => None,
    }
}

/// The settings below the public builders that the knobs ask of the WebP
/// encoder, or the message when a name is unknown.
pub open spec fn webp_internal(k: Knobs) -> Result<Option<WebpInternal>, Seq<char>> {
    let name = str_in(lookup(k, "sharp_yuv"@));
    if name matches Some(s) && sharp_yuv_of(s) is None {
        Err(unknown_name("zenwebp sharp_yuv must be \"off\" or \"on\"; got "@, name->0))
    } else {
        let p = WebpInternal {
            partition_limit: small(level(k, "partition_limit"@, 100)),
            multi_pass_stats: flag(k, "multi_pass_stats"@),
            smooth_segment_map: flag(k, "smooth_segment_map"@),
            sharp_yuv: match name {
                Some(s) => sharp_yuv_of(s),
                None => None,
            },
        };
        if p.partition_limit is None && p.multi_pass_stats is None && p.smooth_segment_map is None
            && p.sharp_yuv is None {
            Ok(None)
        } else {
            Ok(Some(p))
        }
    }
}

/// The plan that the knobs ask of the WebP encoder.
pub open spec fn webp_plan(k: Knobs) -> Result<WebpPlan, Seq<char>> {
    if flag(k, "lossless"@) == Some(true) {
        Ok(WebpPlan::Lossless)
    } else {
        match webp_internal(k) {
            Err(e) => Err(e),
            Ok(internal) => Ok(
                WebpPlan::Lossy {
                    method: small(level(k, "method"@, 6)),
                    segments: small(level_in(k, "segments"@, 1, 4)),
                    sns_strength: small(level(k, "sns_strength"@, 100)),
                    filter_strength: small(level(k, "filter_strength"@, 100)),
                    internal,
                },
            ),
        }
    }
}

/// Reads the knobs of a WebP cell.
pub fn encode_webp(knobs: &Members) -> (r: Result<WebpPlan, String>)
    ensures
        match r {
            Ok(p) => webp_plan(members(knobs@)) == Ok::<WebpPlan, Seq<char>>(p),
            Err(e) => webp_plan(members(knobs@)) == Err::<WebpPlan, Seq<char>>(e@),
        },
{
    let lossless: bool = match get_bool(knobs, "lossless") {
        Some(b) => b,
        None => false,
    };
    if lossless {
        return Ok(WebpPlan::Lossless);
    }
    let method = to_small(read_level(knobs, "method", 6));
    let segments = to_small(read_level_in(knobs, "segments", 1, 4));
    let sns_strength = to_small(read_level(knobs, "sns_strength", 100));
    let filter_strength = to_small(read_level(knobs, "filter_strength", 100));

    let partition_limit = to_small(read_level(knobs, "partition_limit", 100));
    let multi_pass_stats = get_bool(knobs, "multi_pass_stats");
    let smooth_segment_map = get_bool(knobs, "smooth_segment_map");
    let sharp_yuv: Option<SharpYuvSetting> = match get_str(knobs, "sharp_yuv") {
        None => None,
        Some(s) => match parse_sharp_yuv(s) {
            Some(v) => Some(v),
            None => {
                return Err(
                    say_unknown("zenwebp sharp_yuv must be \"off\" or \"on\"; got ", s),
                );
            },
        },
    };
    let any: bool = partition_limit.is_some() || multi_pass_stats.is_some()
        || smooth_segment_map.is_some() || sharp_yuv.is_some();
    let internal: Option<WebpInternal> = if any {
        Some(WebpInternal { partition_limit, multi_pass_stats, smooth_segment_map, sharp_yuv })
    } else {
        None
    };
    Ok(WebpPlan::Lossy { method, segments, sns_strength, filter_strength, internal })
}

// ── AVIF ───────────────────────────────────────────────────────────────

/// Settings that the AVIF encoder takes only below its public builders.
#[derive(Debug, Clone, Copy, PartialEq, Eq)]
pub struct AvifInternal {
    pub partition_range: Option<(u8, u8)>,
    pub complex_prediction_modes: Option<bool>,
    pub lrf: Option<bool>,
    pub fast_deblock: Option<bool>,
}

/// Settings for the AVIF encoder; an absent one is left at the encoder's default.
#[derive(Debug, Clone, Copy, PartialEq, Eq)]
pub struct AvifPlan {
    pub speed: Option<u8>,
    pub lossless: Option<bool>,
    pub internal: Option<AvifInternal>,
}

/// The low eight bits of a whole number; zero for anything else.
pub open spec fn low_byte(v: JsonView) -> u8 {
    match v {
        JsonView::Number(Some(x), _) => (x % 256) as u8,
        _ => 0,
    }
}

/// The `partition_range` knob: a list of exactly two numbers.
pub open spec fn partition_range(k: Knobs) -> Option<(u8, u8)> {
    match lookup(k, "partition_range"@) {
        Some(JsonView::Array(a)) => if a.len() == 2 {
            Some((low_byte(a[0]), low_byte(a[1])))
        } else {
            None
        },
        _ => None,
    }
}

/// The plan that the knobs ask of the AVIF encoder.
pub open spec fn avif_plan(k: Knobs) -> AvifPlan {
    let p = AvifInternal {
        partition_range: partition_range(k),
        complex_prediction_modes: flag(k, "complex_prediction_modes"@),
        lrf: flag(k, "lrf"@),
        fast_deblock: flag(k, "fast_deblock"@),
    };
    AvifPlan {
        speed: small(level(k, "speed"@, 10)),
        lossless: flag(k, "lossless"@),
        internal: if p.partition_range is None && p.complex_prediction_modes is None && p.lrf
            is None && p.fast_deblock is None {
            None
        } else {
            Some(p)
        },
    }
}

/// The low eight bits of a whole number; zero for anything else.
fn read_low_byte(v: &Json) -> (r: u8)
    ensures
        r == low_byte(v@),
{
    match v {
        Json::Number(n) => match n.unsigned {
            Some(x) => (x % 256) as u8,
            None => 0,
        },
        _ => 0,
    }
}

/// Reads the knobs of an AVIF cell.
pub fn encode_avif(knobs: &Members) -> (p: AvifPlan)
    ensures
        p == avif_plan(members(knobs@)),
{
    let speed = to_small(read_level(knobs, "speed", 10));
    let lossless = get_bool(knobs, "lossless");
    let range: Option<(u8, u8)> = match get(knobs, "partition_range") {
        Some(v) => match v {
            Json::Array(a) => {
                proof {
                    lemma_array_view(*v);
                }
                if a.len() == 2 {
                    Some((read_low_byte(&a[0]), read_low_byte(&a[1])))
                } else {
                    None
                }
            },
            _ => None,
        },
        None => None,
    };
    let complex_prediction_modes = get_bool(knobs, "complex_prediction_modes");
    let lrf = get_bool(knobs, "lrf");
    let fast_deblock = get_bool(knobs, "fast_deblock");
    let any: bool = range.is_some() || complex_prediction_modes.is_some() || lrf.is_some()
        || fast_deblock.is_some();
    let internal: Option<AvifInternal> = if any {
        Some(
            AvifInternal { partition_range: range, complex_prediction_modes, lrf, fast_deblock },
        )
    } else {
        None
    };
    AvifPlan { speed, lossless, internal }
}

// ── JPEG XL ────────────────────────────────────────────────────────────

/// How the passes of a JPEG XL frame are laid out.
#[derive(Debug, Clone, Copy, PartialEq, Eq, Structural)]
pub enum ProgressiveMode {
    Single,
    QuantizedAcFullAc,
    DcVlfLfAc,
}

/// The pass layout that a text names.
pub open spec fn jxl_progressive_of(s: Seq<char>) -> Option<ProgressiveMode> {
    if s == "off"@ || s == "single"@ {
        Some(ProgressiveMode::Single)
    } else if s == "two-pass"@ || s == "two_pass"@ || s == "twopass"@ || s == "qac-fac"@ {
        Some(ProgressiveMode::QuantizedAcFullAc)
    } else if s == "three-pass"@ || s == "three_pass"@ || s == "threepass"@ || s == "dc-vlf-lf-ac"@ {
        Some(ProgressiveMode::DcVlfLfAc)
    } else {
        None
    }
}

/// The pass layout that a text names.
pub fn parse_jxl_progressive(s: &str) -> (r: Option<ProgressiveMode>)
    ensures
        r == jxl_progressive_of(s@),
{
    if same(s, "off") || same(s, "single") {
        Some(ProgressiveMode::Single)
    } else if same(s, "two-pass") || same(s, "two_pass") || same(s, "twopass") || same(s, "qac-fac") {
        Some(ProgressiveMode::QuantizedAcFullAc)
    } else if same(s, "three-pass") || same(s, "three_pass") || same(s, "threepass") || same(s, "dc-vlf-lf-ac") {
        Some(ProgressiveMode::DcVlfLfAc)
    } else {
        None
    }
}

/// Is this the name of a knob that only the direct JPEG XL encoder understands?
pub open spec fn is_expert_knob(name: Seq<char>) -> bool {
    ||| name == "butteraugli_iters"@
    ||| name == "zensim_iters"@
    ||| name == "ssim2_iters"@
    ||| name == "pixel_domain_loss"@
    ||| name == "patches"@
    ||| name == "gaborish"@
    ||| name == "error_diffusion"@
    ||| name == "denoise"@
    ||| name == "lf_frame"@
    ||| name == "force_strategy"@
    ||| name == "max_strategy_size"@
    ||| name == "progressive"@
    ||| name == "lz77"@
}

/// Is this the name of a knob that only the direct JPEG XL encoder understands?
pub fn expert_knob(name: &str) -> (r: bool)
    ensures
        r == is_expert_knob(name@),
{
    same(name, "butteraugli_iters")
        || same(name, "zensim_iters")
        || same(name, "ssim2_iters")
        || same(name, "pixel_domain_loss")
        || same(name, "patches")
        || same(name, "gaborish")
        || same(name, "error_diffusion")
        || same(name, "denoise")
        || same(name, "lf_frame")
        || same(name, "force_strategy")
        || same(name, "max_strategy_size")
        || same(name, "progressive")
        || same(name, "lz77")
}

/// Settings for the direct JPEG XL encoder.
#[derive(Debug)]
pub struct JxlExpert {
    /// A real number, as text; without it the quality decides.
    pub distance: Option<String>,
    pub effort: Option<u8>,
    pub noise: Option<bool>,
    pub denoise: Option<bool>,
    pub gaborish: Option<bool>,
    pub patches: Option<bool>,
    pub pixel_domain_loss: Option<bool>,
    pub error_diffusion: Option<bool>,
    pub lf_frame: Option<bool>,
    pub lz77: Option<bool>,
    pub butteraugli_iters: Option<u8>,
    pub zensim_iters: Option<u8>,
    pub ssim2_iters: Option<u8>,
    pub force_strategy: Option<Option<u8>>,
    pub max_strategy_size: Option<Option<u8>>,
    pub progressive: Option<ProgressiveMode>,
}

/// Settings for JPEG XL; an absent one is left at the encoder's default.
#[derive(Debug)]
pub enum JxlPlan {
    /// The wrapping encoder in its lossless mode.
    Lossless { effort: Option<u8> },
    /// The wrapping encoder in its lossy mode. The distance is a real number, as
    /// text, and overrides the quality.
    Lossy { distance: Option<String>, noise: Option<bool>, effort: Option<u8> },
    /// The encoder without its wrapper.
    Expert(JxlExpert),
}

/// Do the knobs ask for the direct encoder?
pub open spec fn jxl_wants_expert(k: Knobs) -> bool {
    &&& flag(k, "lossless"@) != Some(true)
    &&& exists|i: int| 0 <= i < k.len() && is_expert_knob(#[trigger] k[i].0)
}

/// The pass layout that the `progressive` knob names, or the message when it
/// names none.
pub open spec fn jxl_progressive_knob(k: Knobs) -> Result<Option<ProgressiveMode>, Seq<char>> {
    match str_in(lookup(k, "progressive"@)) {
        None => Ok(None),
        Some(s) => match jxl_progressive_of(s) {
            Some(v) => Ok(Some(v)),
            None => Err(
                "zenjxl: unknown progressive mode '"@ + s
                    + "' (want single|two-pass|three-pass)"@,
            ),
        },
    }
}

/// A setting that a null takes back, in eight bits.
pub open spec fn small_clearable(o: Option<Option<u64>>) -> Option<Option<u8>> {
    match o {
        Some(Some(x)) => Some(Some(x as u8)),
        Some(None) => Some(None),
        None => None,
    }
}

/// A setting that a null takes back, in eight bits.
fn to_small_clearable(o: Option<Option<u64>>) -> (r: Option<Option<u8>>)
    requires
        o matches Some(Some(x)) ==> x <= 255,
    ensures
        r == small_clearable(o),
{
    match o {
        Some(Some(x)) => Some(Some(x as u8)),
        Some(None) => Some(None),
        None => None,
    }
}

/// Are these the settings that the knobs ask of the direct encoder?
pub open spec fn jxl_expert_for(p: JxlExpert, k: Knobs) -> bool {
    &&& opt_view(p.distance) == number_in(lookup(k, "distance"@))
    &&& p.effort == small(level_in(k, "effort"@, 1, 10))
    &&& p.noise == flag(k, "noise"@)
    &&& p.denoise == flag(k, "denoise"@)
    &&& p.gaborish == flag(k, "gaborish"@)
    &&& p.patches == flag(k, "patches"@)
    &&& p.pixel_domain_loss == flag(k, "pixel_domain_loss"@)
    &&& p.error_diffusion == flag(k, "error_diffusion"@)
    &&& p.lf_frame == flag(k, "lf_frame"@)
    &&& p.lz77 == flag(k, "lz77"@)
    &&& p.butteraugli_iters == small(level(k, "butteraugli_iters"@, 16))
    &&& p.zensim_iters == small(level(k, "zensim_iters"@, 16))
    &&& p.ssim2_iters == small(level(k, "ssim2_iters"@, 16))
    &&& p.force_strategy == small_clearable(clearable(k, "force_strategy"@, 18))
    &&& p.max_strategy_size == small_clearable(clearable(k, "max_strategy_size"@, 255))
    &&& jxl_progressive_knob(k) == Ok::<Option<ProgressiveMode>, Seq<char>>(p.progressive)
}

/// Is this the plan that the knobs ask of JPEG XL?
pub open spec fn jxl_plan_for(p: JxlPlan, k: Knobs) -> bool {
    match p {
        JxlPlan::Expert(e) => jxl_wants_expert(k) && jxl_expert_for(e, k),
        JxlPlan::Lossless { effort } => {
            &&& flag(k, "lossless"@) == Some(true)
            &&& effort == small(level_in(k, "effort"@, 1, 10))
        },
        JxlPlan::Lossy { distance, noise, effort } => {
            &&& flag(k, "lossless"@) != Some(true)
            &&& !jxl_wants_expert(k)
            &&& opt_view(distance) == number_in(lookup(k, "distance"@))
            &&& noise == flag(k, "noise"@)
            &&& effort == small(level_in(k, "effort"@, 1, 10))
        },
    }
}

/// The message of the knob that JPEG XL cannot read.
pub open spec fn jxl_fault(k: Knobs) -> Option<Seq<char>> {
    if jxl_wants_expert(k) && jxl_progressive_knob(k) is Err {
        Some(jxl_progressive_knob(k)->Err_0)
    } else {
        None
    }
}

/// Reads the knobs of a cell for the direct JPEG XL encoder.
pub fn encode_jxl_expert(knobs: &Members) -> (r: Result<JxlExpert, String>)
    ensures
        match r {
            Ok(p) => jxl_expert_for(p, members(knobs@)),
            Err(e) => jxl_progressive_knob(members(knobs@)) == Err::<
                Option<ProgressiveMode>,
                Seq<char>,
            >(e@),
        },
{
    let distance = get_number(knobs, "distance");
    let effort = to_small(read_level_in(knobs, "effort", 1, 10));
    let noise = get_bool(knobs, "noise");
    let denoise = get_bool(knobs, "denoise");
    let gaborish = get_bool(knobs, "gaborish");
    let patches = get_bool(knobs, "patches");
    let pixel_domain_loss = get_bool(knobs, "pixel_domain_loss");
    let error_diffusion = get_bool(knobs, "error_diffusion");
    let lf_frame = get_bool(knobs, "lf_frame");
    let lz77 = get_bool(knobs, "lz77");
    let butteraugli_iters = to_small(read_level(knobs, "butteraugli_iters", 16));
    let zensim_iters = to_small(read_level(knobs, "zensim_iters", 16));
    let ssim2_iters = to_small(read_level(knobs, "ssim2_iters", 16));
    let force_strategy = to_small_clearable(read_clearable(knobs, "force_strategy", 18));
    let max_strategy_size = to_small_clearable(read_clearable(knobs, "max_strategy_size", 255));
    let progressive: Option<ProgressiveMode> = match get_str(knobs, "progressive") {
        None => None,
        Some(s) => match parse_jxl_progressive(s) {
            Some(v) => Some(v),
            None => {
                let mut e: String = copy("zenjxl: unknown progressive mode '");
                e.append(s);
                e.append("' (want single|two-pass|three-pass)");
                return Err(e);
            },
        },
    };
    Ok(
        JxlExpert {
            distance,
            effort,
            noise,
            denoise,
            gaborish,
            patches,
            pixel_domain_loss,
            error_diffusion,
            lf_frame,
            lz77,
            butteraugli_iters,
            zensim_iters,
            ssim2_iters,
            force_strategy,
            max_strategy_size,
            progressive,
        },
    )
}

/// Reads the knobs of a JPEG XL cell. Any expert knob leads to the direct
/// encoder, except in lossless mode, where those knobs mean nothing.
pub fn encode_jxl(knobs: &Members) -> (r: Result<JxlPlan, String>)
    ensures
        match r {
            Ok(p) => jxl_fault(members(knobs@)) is None && jxl_plan_for(p, members(knobs@)),
            Err(e) => jxl_fault(members(knobs@)) == Some(e@),
        },
{
    let lossless: bool = match get_bool(knobs, "lossless") {
        Some(b) => b,
        None => false,
    };
    let effort = to_small(read_level_in(knobs, "effort", 1, 10));
    if lossless {
        return Ok(JxlPlan::Lossless { effort });
    }
    let ghost k = members(knobs@);
    let mut i: usize = 0;
    while i < knobs.len()
        invariant
            i <= knobs.len(),
            k == members(knobs@),
            flag(k, "lossless"@) != Some(true),
            forall|j: int| 0 <= j < i ==> !is_expert_knob(#[trigger] k[j].0),
        decreases knobs.len() - i,
    {
        assert(k[i as int].0 == knobs@[i as int].0@);
        if expert_knob(knobs[i].0.as_str()) {
            assert(is_expert_knob(k[i as int].0));
            assert(jxl_wants_expert(k));
            return match encode_jxl_expert(knobs) {
                Ok(e) => Ok(JxlPlan::Expert(e)),
                Err(e) => Err(e),
            };
        }
        i += 1;
    }
    Ok(
        JxlPlan::Lossy {
            distance: get_number(knobs, "distance"),
            noise: get_bool(knobs, "noise"),
            effort,
        },
    )
}

/// The direct JPEG XL encoder reads three bytes for every pixel.
pub fn check_expert_buffer(len: usize, width: u32, height: u32) -> (r: Result<(), String>)
    ensures
        match r {
            Ok(_) => len >= width * 3 * height,
            Err(e) => len < width * 3 * height && e@
                == "zenjxl expert: pixel buffer shorter than width*height*3"@,
        },
{
    let row: u128 = width as u128 * 3;
    assert(width * 3 * height <= 3 * 0xffff_ffff * 0xffff_ffff) by (nonlinear_arith)
        requires
            width <= 0xffff_ffff,
            height <= 0xffff_ffff,
            0 <= width,
            0 <= height,
    ;
    let need: u128 = row * height as u128;
    if (len as u128) < need {
        Err(copy("zenjxl expert: pixel buffer shorter than width*height*3"))
    } else {
        Ok(())
    }
}

// ── All codecs ─────────────────────────────────────────────────────────

/// Settings for one cell.
#[derive(Debug)]
pub enum EncodePlan {
    Png(PngPlan),
    Jpeg(JpegPlan),
    Webp(WebpPlan),
    Avif(AvifPlan),
    Jxl(JxlPlan),
}

/// Is this the plan that the knobs ask of the codec?
pub open spec fn plan_for(p: EncodePlan, codec: CodecKind, k: Knobs) -> bool {
    match (codec, p) {
        (CodecKind::Zenpng, EncodePlan::Png(x)) => png_plan(k) == Ok::<PngPlan, Seq<char>>(x),
        (CodecKind::Zenjpeg, EncodePlan::Jpeg(x)) => jpeg_plan_for(x, k),
        (CodecKind::Zenwebp, EncodePlan::Webp(x)) => webp_plan(k) == Ok::<WebpPlan, Seq<char>>(x),
        (CodecKind::Zenavif, EncodePlan::Avif(x)) => x == avif_plan(k),
        (CodecKind::Zenjxl, EncodePlan::Jxl(x)) => jxl_plan_for(x, k),
        _ => false,
    }
}

/// The message of the knob that the codec cannot read; nothing when it can read
/// them all.
pub open spec fn plan_fault(codec: CodecKind, k: Knobs) -> Option<Seq<char>> {
    match codec {
        CodecKind::Zenpng => match png_plan(k) {
            Ok(_) => None,
            Err(e) => Some(e),
        },
        CodecKind::Zenjpeg => jpeg_fault(k),
        CodecKind::Zenwebp => match webp_plan(k) {
            Ok(_) => None,
            Err(e) => Some(e),
        },
        CodecKind::Zenavif => None,
        CodecKind::Zenjxl => jxl_fault(k),
    }
}

/// Reads the knobs of a cell for its codec.
pub fn encode(codec: CodecKind, knobs: &Members) -> (r: Result<EncodePlan, String>)
    ensures
        match r {
            Ok(p) => plan_fault(codec, members(knobs@)) is None && plan_for(
                p,
                codec,
                members(knobs@),
            ),
            Err(e) => plan_fault(codec, members(knobs@)) == Some(e@),
        },
{
    match codec {
        CodecKind::Zenpng => match encode_png(knobs) {
            Ok(p) => Ok(EncodePlan::Png(p)),
            Err(e) => Err(e),
        },
        CodecKind::Zenjpeg => match encode_jpeg(knobs) {
            Ok(p) => Ok(EncodePlan::Jpeg(p)),
            Err(e) => Err(e),
        },
        CodecKind::Zenwebp => match encode_webp(knobs) {
            Ok(p) => Ok(EncodePlan::Webp(p)),
            Err(e) => Err(e),
        },
        CodecKind::Zenavif => Ok(EncodePlan::Avif(encode_avif(knobs))),
        CodecKind::Zenjxl => match encode_jxl(knobs) {
            Ok(p) => Ok(EncodePlan::Jxl(p)),
            Err(e) => Err(e),
        },
    }
}

// ── Laws ───────────────────────────────────────────────────────────────

/// The knobs that a codec reads.
pub open spec fn knob_known(codec: CodecKind, name: Seq<char>) -> bool {
    match codec {
        CodecKind::Zenpng => {
            ||| name == "compression"@
            ||| name == "near_lossless_bits"@
            ||| name == "parallel"@
            ||| name == "max_threads"@
        },
        CodecKind::Zenjpeg => {
            ||| name == "subsampling"@
            ||| name == "progressive"@
            ||| name == "sharp_yuv"@
            ||| name == "effort"@
            ||| name == "optimize_huffman"@
            ||| name == "aq_enabled"@
            ||| name == "deringing"@
            ||| name == "auto_optimize"@
            ||| name == "chroma_distance_scale"@
            ||| name == "pre_blur"@
            ||| name == "quant_source"@
            ||| name == "progressive_mode"@
            ||| name == "huffman"@
            ||| name == "tiny_file_mode"@
            ||| name == "downsampling_method"@
            ||| name == "restart_mcu_rows"@
            ||| name == "chroma_quality"@
            ||| name == "optimization"@
            ||| name == "hybrid"@
        },
        CodecKind::Zenwebp => {
            ||| name == "lossless"@
            ||| name == "method"@
            ||| name == "segments"@
            ||| name == "sns_strength"@
            ||| name == "filter_strength"@
            ||| name == "partition_limit"@
            ||| name == "multi_pass_stats"@
            ||| name == "smooth_segment_map"@
            ||| name == "sharp_yuv"@
        },
        CodecKind::Zenavif => {
            ||| name == "speed"@
            ||| name == "lossless"@
            ||| name == "partition_range"@
            ||| name == "complex_prediction_modes"@
            ||| name == "lrf"@
            ||| name == "fast_deblock"@
        },
        CodecKind::Zenjxl => {
            ||| name == "lossless"@
            ||| name == "distance"@
            ||| name == "effort"@
            ||| name == "noise"@
            ||| is_expert_knob(name)
        },
    }
}

proof fn lemma_lookup_push(k: Knobs, name: Seq<char>, v: JsonView, key: Seq<char>)
    requires
        name != key,
    ensures
        lookup(k.push((name, v)), key) == lookup(k, key),
    decreases k.len(),
{
    let all = k.push((name, v));
    if k.len() == 0 {
        assert(all.drop_first() =~= k);
    } else {
        assert(all.drop_first() =~= k.drop_first().push((name, v)));
        assert(all[0] == k[0]);
        if k[0].0 != key {
            lemma_lookup_push(k.drop_first(), name, v, key);
        }
    }
}

proof fn lemma_expert_push(k: Knobs, name: Seq<char>, v: JsonView)
    requires
        !is_expert_knob(name),
        lookup(k.push((name, v)), "lossless"@) == lookup(k, "lossless"@),
    ensures
        jxl_wants_expert(k.push((name, v))) == jxl_wants_expert(k),
{
    let all = k.push((name, v));
    if jxl_wants_expert(k) {
        let i = choose|i: int| 0 <= i < k.len() && is_expert_knob(#[trigger] k[i].0);
        assert(all[i] == k[i]);
    }
    if jxl_wants_expert(all) {
        let i = choose|i: int| 0 <= i < all.len() && is_expert_knob(#[trigger] all[i].0);
        assert(i < k.len());
        assert(all[i] == k[i]);
    }
}

/// A knob that the codec does not read changes neither the plan nor the message.
pub proof fn law_unknown_knob_left_alone(
    codec: CodecKind,
    k: Knobs,
    name: Seq<char>,
    v: JsonView,
    p: EncodePlan,
)
    requires
        !knob_known(codec, name),
    ensures
        plan_fault(codec, k.push((name, v))) == plan_fault(codec, k),
        plan_for(p, codec, k.push((name, v))) == plan_for(p, codec, k),
{
    match codec {
        CodecKind::Zenpng => {
            lemma_lookup_push(k, name, v, "compression"@);
            lemma_lookup_push(k, name, v, "near_lossless_bits"@);
            lemma_lookup_push(k, name, v, "parallel"@);
            lemma_lookup_push(k, name, v, "max_threads"@);
        },
        CodecKind::Zenjpeg => {
            lemma_lookup_push(k, name, v, "subsampling"@);
            lemma_lookup_push(k, name, v, "progressive"@);
            lemma_lookup_push(k, name, v, "sharp_yuv"@);
            lemma_lookup_push(k, name, v, "effort"@);
            lemma_lookup_push(k, name, v, "optimize_huffman"@);
            lemma_lookup_push(k, name, v, "aq_enabled"@);
            lemma_lookup_push(k, name, v, "deringing"@);
            lemma_lookup_push(k, name, v, "auto_optimize"@);
            lemma_lookup_push(k, name, v, "chroma_distance_scale"@);
            lemma_lookup_push(k, name, v, "pre_blur"@);
            lemma_lookup_push(k, name, v, "quant_source"@);
            lemma_lookup_push(k, name, v, "progressive_mode"@);
            lemma_lookup_push(k, name, v, "huffman"@);
            lemma_lookup_push(k, name, v, "tiny_file_mode"@);
            lemma_lookup_push(k, name, v, "downsampling_method"@);
            lemma_lookup_push(k, name, v, "restart_mcu_rows"@);
            lemma_lookup_push(k, name, v, "chroma_quality"@);
            lemma_lookup_push(k, name, v, "optimization"@);
            lemma_lookup_push(k, name, v, "hybrid"@);
        },
        CodecKind::Zenwebp => {
            lemma_lookup_push(k, name, v, "lossless"@);
            lemma_lookup_push(k, name, v, "method"@);
            lemma_lookup_push(k, name, v, "segments"@);
            lemma_lookup_push(k, name, v, "sns_strength"@);
            lemma_lookup_push(k, name, v, "filter_strength"@);
            lemma_lookup_push(k, name, v, "partition_limit"@);
            lemma_lookup_push(k, name, v, "multi_pass_stats"@);
            lemma_lookup_push(k, name, v, "smooth_segment_map"@);
            lemma_lookup_push(k, name, v, "sharp_yuv"@);
        },
        CodecKind::Zenavif => {
            lemma_lookup_push(k, name, v, "speed"@);
            lemma_lookup_push(k, name, v, "lossless"@);
            lemma_lookup_push(k, name, v, "partition_range"@);
            lemma_lookup_push(k, name, v, "complex_prediction_modes"@);
            lemma_lookup_push(k, name, v, "lrf"@);
            lemma_lookup_push(k, name, v, "fast_deblock"@);
        },
        CodecKind::Zenjxl => {
            lemma_lookup_push(k, name, v, "lossless"@);
            lemma_lookup_push(k, name, v, "distance"@);
            lemma_lookup_push(k, name, v, "effort"@);
            lemma_lookup_push(k, name, v, "noise"@);
            lemma_lookup_push(k, name, v, "butteraugli_iters"@);
            lemma_lookup_push(k, name, v, "zensim_iters"@);
            lemma_lookup_push(k, name, v, "ssim2_iters"@);
            lemma_lookup_push(k, name, v, "pixel_domain_loss"@);
            lemma_lookup_push(k, name, v, "patches"@);
            lemma_lookup_push(k, name, v, "gaborish"@);
            lemma_lookup_push(k, name, v, "error_diffusion"@);
            lemma_lookup_push(k, name, v, "denoise"@);
            lemma_lookup_push(k, name, v, "lf_frame"@);
            lemma_lookup_push(k, name, v, "force_strategy"@);
            lemma_lookup_push(k, name, v, "max_strategy_size"@);
            lemma_lookup_push(k, name, v, "progressive"@);
            lemma_lookup_push(k, name, v, "lz77"@);
            lemma_expert_push(k, name, v);
        },
    }
}

/// In lossless mode no knob leads to the direct JPEG XL encoder, and none is an
/// error.
pub proof fn law_lossless_jxl_not_expert(p: JxlPlan, k: Knobs)
    requires
        flag(k, "lossless"@) == Some(true),
    ensures
        jxl_fault(k) is None,
        jxl_plan_for(p, k) ==> p is Lossless,
{
}

/// An absent setting, or one from `lo` to `hi`.
pub open spec fn from_to(o: Option<u8>, lo: u8, hi: u8) -> bool {
    o matches Some(x) ==> lo <= x <= hi
}

/// Every whole-number setting of a plan lies in the codec's range, whatever the
/// knobs hold.
pub open spec fn in_range(p: EncodePlan) -> bool {
    match p {
        EncodePlan::Png(x) => {
            &&& x.compression matches Some(PngCompression::Effort(e)) ==> e <= 200
            &&& from_to(x.near_lossless_bits, 0, 4)
        },
        EncodePlan::Jpeg(x) => {
            &&& x.effort matches Some(e) ==> 0 <= e <= 2
            &&& x.internal matches Some(i) ==> (i.chroma_quality matches Some(Some(q)) ==> q <= 100)
        },
        EncodePlan::Webp(WebpPlan::Lossless) => true,
        EncodePlan::Webp(WebpPlan::Lossy { method, segments, sns_strength, filter_strength, internal }) => {
            &&& from_to(method, 0, 6)
            &&& from_to(segments, 1, 4)
            &&& from_to(sns_strength, 0, 100)
            &&& from_to(filter_strength, 0, 100)
            &&& internal matches Some(i) ==> from_to(i.partition_limit, 0, 100)
        },
        EncodePlan::Avif(x) => from_to(x.speed, 0, 10),
        EncodePlan::Jxl(JxlPlan::Lossless { effort }) => from_to(effort, 1, 10),
        EncodePlan::Jxl(JxlPlan::Lossy { effort, .. }) => from_to(effort, 1, 10),
        EncodePlan::Jxl(JxlPlan::Expert(x)) => {
            &&& from_to(x.effort, 1, 10)
            &&& from_to(x.butteraugli_iters, 0, 16)
            &&& from_to(x.zensim_iters, 0, 16)
            &&& from_to(x.ssim2_iters, 0, 16)
            &&& x.force_strategy matches Some(Some(n)) ==> n <= 18
        },
    }
}

/// Whatever the knobs hold, a plan's whole-number settings lie in the codec's
/// ranges.
pub proof fn law_plan_in_range(p: EncodePlan, codec: CodecKind, k: Knobs)
    requires
        plan_for(p, codec, k),
    ensures
        in_range(p),
{
}

} // verus!
