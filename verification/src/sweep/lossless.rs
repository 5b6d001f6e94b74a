//! Encoding without loss: PNG files, and JPEG XL in its lossless mode.
//!
//! These take whole-number settings only. The settings come from a plan; what
//! the encoders make of the pixels is theirs.

use crate::decode::{Rgb8Image, RgbView};
use crate::json::{law_lookup_finds_first, set_to, unset, JsonView};
use crate::sweep::encode::{
    plan_for, CodecKind, EncodePlan, Knobs, PngCompression, PngPlan, PngPreset,
};
use crate::sweep::knobs::{law_png_settings, named, word_for_preset};
use crate::text::copy;
use rgb::FromSlice;
use vstd::prelude::*;
use zencodec::encode::{EncodeJob, Encoder, EncoderConfig};

verus! {

/// The numeric effort of a named level.
pub open spec fn preset_effort(p: PngPreset) -> u32 {
    match p {
        PngPreset::Store => 0,
        PngPreset::Fastest => 1,
        PngPreset::Turbo => 2,
        PngPreset::Fast => 7,
        PngPreset::Balanced => 13,
        PngPreset::Thorough => 17,
        PngPreset::High => 19,
        PngPreset::Aggressive => 22,
        PngPreset::Intense => 24,
        PngPreset::Crush => 27,
        PngPreset::Maniac => 30,
        PngPreset::Brag => 31,
        PngPreset::Minutes => 200,
    }
}

/// The numeric effort that a plan asks for; a plan without one leaves the
/// encoder's balanced level.
pub open spec fn effort_in(plan: PngPlan) -> u32 {
    match plan.compression {
        Some(PngCompression::Effort(e)) => e,
        Some(PngCompression::Preset(p)) => preset_effort(p),
        None => preset_effort(PngPreset::Balanced),
    }
}

/// The numeric effort that a plan asks for.
pub fn png_effort(plan: &PngPlan) -> (r: u32)
    ensures
        r == effort_in(*plan),
{
    let preset: PngPreset = match plan.compression {
        Some(PngCompression::Effort(e)) => {
            return e;
        },
        Some(PngCompression::Preset(p)) => p,
        None => PngPreset::Balanced,
    };
    match preset {
        PngPreset::Store => 0,
        PngPreset::Fastest => 1,
        PngPreset::Turbo => 2,
        PngPreset::Fast => 7,
        PngPreset::Balanced => 13,
        PngPreset::Thorough => 17,
        PngPreset::High => 19,
        PngPreset::Aggressive => 22,
        PngPreset::Intense => 24,
        PngPreset::Crush => 27,
        PngPreset::Maniac => 30,
        PngPreset::Brag => 31,
        PngPreset::Minutes => 200,
    }
}

/// The plan of an image that is written for scorers to read: as fast as can be.
pub fn scratch_plan() -> (r: PngPlan)
    ensures
        r.compression == Some(PngCompression::Preset(PngPreset::Fastest)),
        r.near_lossless_bits is None,
        r.parallel is None,
        r.max_threads is None,
{
    PngPlan {
        compression: Some(PngCompression::Preset(PngPreset::Fastest)),
        near_lossless_bits: None,
        parallel: None,
        max_threads: None,
    }
}

/// An encoder's file, or the text of its error.
pub open spec fn written(r: Result<Vec<u8>, String>) -> Result<Seq<u8>, Seq<char>> {
    match r {
        Ok(x) => Ok(x@),
        Err(e) => Err(e@),
    }
}

/// The PNG encoder may make this of an image at these settings.
pub uninterp spec fn png_may_write(
    image: RgbView,
    effort: u32,
    rounded_bits: u8,
    parallel: bool,
    max_threads: usize,
    got: Result<Seq<u8>, Seq<char>>,
) -> bool;

/// Calls `zenpng::encode_rgb8` without metadata and with nothing that stops it.
/// The pixels must fill the image, which must not be empty: `imgref::ImgRef::new`
/// panics on a width of zero. Which bytes come out is not said: they depend on
/// the strategies that the encoder tries. The contract ties them to the image and
/// the settings.
#[verifier::external_body]
fn png_bytes(image: &Rgb8Image, effort: u32, rounded_bits: u8, parallel: bool, max_threads: usize) -> (r: Result<
    Vec<u8>,
    String,
>)
    requires
        image.wf(),
        image.width > 0,
        image.height > 0,
    ensures
        png_may_write(image@, effort, rounded_bits, parallel, max_threads, written(r)),
{
    let mut cfg = zenpng::EncodeConfig::default().with_compression(zenpng::Compression::Effort(effort));
    cfg = cfg.with_near_lossless_bits(rounded_bits).with_parallel(parallel);
    cfg.max_threads = max_threads;
    let img = imgref::ImgRef::new(image.pixels.as_rgb(), image.width as usize, image.height as usize);
    zenpng::encode_rgb8(img, None, &cfg, &enough::Unstoppable, &enough::Unstoppable)
        .map_err(|e| format!("{e}"))
}

/// The bits that a plan lets the encoder round away.
pub open spec fn bits_in(plan: PngPlan) -> u8 {
    match plan.near_lossless_bits {
        Some(b) => b,
        None => 0,
    }
}

/// May the encoder work in parallel?
pub open spec fn parallel_in(plan: PngPlan) -> bool {
    match plan.parallel {
        Some(b) => b,
        None => false,
    }
}

/// The most threads of the encoder; 0 for no limit.
pub open spec fn threads_in(plan: PngPlan) -> usize {
    match plan.max_threads {
        Some(n) => n as usize,
        None => 0,
    }
}

/// What a PNG encoder's answer comes to: its error is led by what failed.
pub open spec fn png_file(
    plan: PngPlan,
    image: RgbView,
    got: Result<Seq<u8>, Seq<char>>,
) -> bool {
    exists|raw: Result<Seq<u8>, Seq<char>>| #[trigger]
        png_may_write(
            image,
            effort_in(plan),
            bits_in(plan),
            parallel_in(plan),
            threads_in(plan),
            raw,
        ) && match raw {
            Ok(bytes) => got == Ok::<Seq<u8>, Seq<char>>(bytes),
            Err(e) => got == Err::<Seq<u8>, Seq<char>>("zenpng encode failed: "@ + e),
        }
}

/// Writes an image as a PNG file. A setting that the plan leaves open is the
/// encoder's default: no rounded bits, one thread of work, no limit on threads.
pub fn write_png(plan: &PngPlan, image: &Rgb8Image) -> (r: Result<Vec<u8>, String>)
    requires
        image.wf(),
        image.width > 0,
        image.height > 0,
    ensures
        png_file(*plan, image@, written(r)),
{
    let effort: u32 = png_effort(plan);
    let bits: u8 = match plan.near_lossless_bits {
        Some(b) => b,
        None => 0,
    };
    let parallel: bool = match plan.parallel {
        Some(b) => b,
        None => false,
    };
    let threads: usize = match plan.max_threads {
        Some(n) => n as usize,
        None => 0,
    };
    let raw = png_bytes(image, effort, bits, parallel, threads);
    let ghost seen = written(raw);
    assert(png_may_write(
        image@,
        effort_in(*plan),
        bits_in(*plan),
        parallel_in(*plan),
        threads_in(*plan),
        seen,
    ));
    match raw {
        Ok(bytes) => Ok(bytes),
        Err(e) => {
            let mut m: String = copy("zenpng encode failed: ");
            m.append(e.as_str());
            Err(m)
        },
    }
}

/// The step of the JPEG XL encoder that failed.
#[derive(Debug, Clone, Copy, PartialEq, Eq, Structural)]
pub enum JxlStep {
    /// Looking at the pixels as rows.
    Rows,
    /// Making the encoder.
    Encoder,
    /// Encoding.
    Encode,
}

/// The JPEG XL encoder may make this of an image in its lossless mode: a file, or the
/// text of the error of one of its steps.
pub uninterp spec fn jxl_may_write(
    image: RgbView,
    effort: Option<u8>,
    got: Result<Seq<u8>, (JxlStep, Seq<char>)>,
) -> bool;

/// Calls `encode` of the encoder that a lossless `zenjxl::JxlEncoderConfig` makes,
/// on the image's rows of `stride` bytes. Which bytes come out is not said; the
/// contract ties them to the image and the effort.
#[verifier::external_body]
fn jxl_bytes(image: &Rgb8Image, stride: usize, effort: Option<u8>) -> (r: Result<
    Vec<u8>,
    (JxlStep, String),
>)
    requires
        image.wf(),
        image.width > 0,
        image.height > 0,
        stride == image.width * 3,
    ensures
        jxl_may_write(
            image@,
            effort,
            match r {
                Ok(x) => Ok(x@),
                Err((step, e)) => Err((step, e@)),
            },
        ),
{
    let cfg = zenjxl::JxlEncoderConfig::new().with_lossless(true);
    let cfg = match effort {
        Some(e) => cfg.with_generic_effort(e as i32),
        None => cfg,
    };
    let layout = zenpixels::PixelDescriptor::RGB8_SRGB;
    let rows = zenpixels::PixelSlice::new(&image.pixels, image.width, image.height, stride, layout)
        .map_err(|e| (JxlStep::Rows, format!("{e}")))?;
    let encoder = cfg.job().encoder().map_err(|e| (JxlStep::Encoder, format!("{e}")))?;
    let out = encoder.encode(rows).map_err(|e| (JxlStep::Encode, format!("{e}")))?;
    Ok(out.into_vec())
}

/// What leads the error of a step.
pub open spec fn step_lead(step: JxlStep) -> Seq<char> {
    match step {
        JxlStep::Rows => "zenjxl: pixel slice construction failed: "@,
        JxlStep::Encoder => "zenjxl encoder construction failed: "@,
        JxlStep::Encode => "zenjxl encode failed: "@,
    }
}

/// What the JPEG XL encoder's answer comes to: its error is led by what failed.
pub open spec fn jxl_file(
    image: RgbView,
    effort: Option<u8>,
    got: Result<Seq<u8>, Seq<char>>,
) -> bool {
    exists|raw: Result<Seq<u8>, (JxlStep, Seq<char>)>| #[trigger]
        jxl_may_write(image, effort, raw) && match raw {
            Ok(bytes) => got == Ok::<Seq<u8>, Seq<char>>(bytes),
            Err((step, e)) => got == Err::<Seq<u8>, Seq<char>>(step_lead(step) + e),
        }
}

/// Writes an image as a lossless JPEG XL file.
pub fn write_jxl_lossless(effort: Option<u8>, image: &Rgb8Image) -> (r: Result<Vec<u8>, String>)
    requires
        image.wf(),
        image.width > 0,
        image.height > 0,
    ensures
        jxl_file(image@, effort, written(r)),
{
    assert(image.width * 3 <= image.pixels@.len()) by (nonlinear_arith)
        requires
            image.height >= 1,
            image.pixels@.len() == image.width * image.height * 3,
    ;
    assert(image.pixels.len() == image.pixels@.len());
    let stride: usize = image.width as usize * 3;
    match jxl_bytes(image, stride, effort) {
        Ok(bytes) => {
            assert(jxl_may_write(image@, effort, Ok(bytes@)));
            Ok(bytes)
        },
        Err((step, e)) => {
            assert(jxl_may_write(image@, effort, Err((step, e@))));
            let mut m: String = match step {
                JxlStep::Rows => copy("zenjxl: pixel slice construction failed: "),
                JxlStep::Encoder => copy("zenjxl encoder construction failed: "),
                JxlStep::Encode => copy("zenjxl encode failed: "),
            };
            m.append(e.as_str());
            Err(m)
        },
    }
}

/// The place of a preset among the presets, from the quickest to the slowest.
pub open spec fn slowness(p: PngPreset) -> int {
    match p {
        PngPreset::Store => 0,
        PngPreset::Fastest => 1,
        PngPreset::Turbo => 2,
        PngPreset::Fast => 3,
        PngPreset::Balanced => 4,
        PngPreset::Thorough => 5,
        PngPreset::High => 6,
        PngPreset::Aggressive => 7,
        PngPreset::Intense => 8,
        PngPreset::Crush => 9,
        PngPreset::Maniac => 10,
        PngPreset::Brag => 11,
        PngPreset::Minutes => 12,
    }
}

/// A slower preset is a higher effort; the quickest is none at all, and the slowest is
/// the highest that a knob can ask for.
pub proof fn law_slower_preset_higher_effort(a: PngPreset, b: PngPreset)
    ensures
        slowness(a) < slowness(b) <==> preset_effort(a) < preset_effort(b),
        slowness(a) == 0 ==> preset_effort(a) == 0,
        slowness(a) == 12 ==> preset_effort(a) == 200,
{
}

/// A PNG file is written with what the knobs of its cell say: the effort, the bits that
/// are rounded away, and how many threads. Without a knob the effort is that of the
/// balanced preset, no bit is rounded, and there are no threads.
pub proof fn law_png_written_as_knobs_say(k: Knobs, p: PngPlan, m: u64, t: Seq<char>)
    requires
        plan_for(EncodePlan::Png(p), CodecKind::Zenpng, k),
    ensures
        set_to(k, "compression"@, JsonView::Number(Some(m), t)) && m <= 200 ==> effort_in(p) == m,
        forall|q: PngPreset|
            set_to(k, "compression"@, JsonView::Str(t)) && #[trigger] word_for_preset(q, t)
                ==> exists|w: PngPreset|
                #[trigger] word_for_preset(w, t) && effort_in(p) == preset_effort(w),
        unset(k, "compression"@) ==> effort_in(p) == preset_effort(PngPreset::Balanced),
        set_to(k, "near_lossless_bits"@, JsonView::Number(Some(m), t)) && m <= 4 ==> bits_in(p)
            == m,
        unset(k, "near_lossless_bits"@) ==> bits_in(p) == 0,
        set_to(k, "parallel"@, JsonView::Bool(true)) <==> parallel_in(p),
        set_to(k, "max_threads"@, JsonView::Number(Some(m), t)) && m <= usize::MAX ==> threads_in(p)
            == m,
        unset(k, "max_threads"@) ==> threads_in(p) == 0,
{
    law_png_settings(k, p);
    law_lookup_finds_first(k, "parallel"@);
    law_lookup_finds_first(k, "near_lossless_bits"@);
    law_lookup_finds_first(k, "max_threads"@);
    law_lookup_finds_first(k, "compression"@);
    if set_to(k, "compression"@, JsonView::Str(t)) {
        assert(named(k, "compression"@, t));
        let w = p.compression->Some_0->Preset_0;
        assert(word_for_preset(w, t));
    }
    if parallel_in(p) {
        assert(p.parallel == Some(true));
    }
}

/// The bytes of a PNG file are those that the encoder gave for the image with the settings
/// of the plan, and its errors come through.
pub proof fn law_png_file_is_encoders(
    plan: PngPlan,
    image: RgbView,
    got: Result<Seq<u8>, Seq<char>>,
    e: u32,
    bits: u8,
    threads: u64,
)
    requires
        png_file(plan, image, got),
        plan.compression == Some(PngCompression::Effort(e)),
        plan.near_lossless_bits == Some(bits),
        plan.parallel == Some(true),
        plan.max_threads == Some(threads),
        threads <= usize::MAX,
    ensures
        got matches Ok(bytes) ==> png_may_write(
            image,
            e,
            bits,
            true,
            threads as usize,
            Ok(bytes),
        ),
        got matches Err(t) ==> exists|f: Seq<char>|
            #[trigger] png_may_write(image, e, bits, true, threads as usize, Err(f)) && t
                == "zenpng encode failed: "@ + f,
{
    let raw = choose|raw: Result<Seq<u8>, Seq<char>>| #[trigger]
        png_may_write(
            image,
            effort_in(plan),
            bits_in(plan),
            parallel_in(plan),
            threads_in(plan),
            raw,
        ) && match raw {
            Ok(bytes) => got == Ok::<Seq<u8>, Seq<char>>(bytes),
            Err(t) => got == Err::<Seq<u8>, Seq<char>>("zenpng encode failed: "@ + t),
        };
    match raw {
        Ok(_) => {},
        Err(f) => {
            assert(png_may_write(image, e, bits, true, threads as usize, Err(f)));
        },
    }
}

} // verus!
