//! Images as flat 8-bit sRGB.
//!
//! A file's format is read from its first bytes, and from its extension where
//! the bytes say nothing. Each format has its decoder; whatever layout a decoder
//! gives, the rows are brought to three bytes per pixel. No colour management is
//! applied: metrics compare the encoded sRGB values.

use crate::text::{copy, lowered, opt_text, same, to_lower};
use vstd::prelude::*;
use zenpixels::PixelBuffer;
use zenpixels_convert::converter::RowConverter;

verus! {

/// An image in flat sRGB RGB8 layout, `width * height * 3` bytes.
#[derive(Debug)]
pub struct Rgb8Image {
    pub pixels: Vec<u8>,
    pub width: u32,
    pub height: u32,
}

/// The bytes and the size of an image.
#[verifier::ext_equal]
pub struct RgbView {
    pub pixels: Seq<u8>,
    pub width: u32,
    pub height: u32,
}

impl View for Rgb8Image {
    type V = RgbView;

    open spec fn view(&self) -> RgbView {
        RgbView { pixels: self.pixels@, width: self.width, height: self.height }
    }
}

impl Rgb8Image {
    /// The buffer holds three bytes for each pixel.
    pub open spec fn wf(self) -> bool {
        self.pixels@.len() == self.width * self.height * 3
    }
}

/// What a decoder answered, by its view.
pub open spec fn outcome(r: Result<Rgb8Image, String>) -> Result<RgbView, Seq<char>> {
    match r {
        Ok(x) => Ok(x@),
        Err(e) => Err(e@),
    }
}

// ── Which format ───────────────────────────────────────────────────────

/// Image file formats.
#[derive(Debug, Clone, Copy, PartialEq, Eq, Structural)]
pub enum ImageFormat {
    Png,
    Jpeg,
    Webp,
    Avif,
    Jxl,
}

/// The bytes `mark` stand at `at` in the data.
pub open spec fn marked(data: Seq<u8>, at: int, mark: Seq<u8>) -> bool {
    &&& 0 <= at
    &&& at + mark.len() <= data.len()
    &&& data.subrange(at, at + mark.len()) == mark
}

/// Whether the bytes `mark` stand at `at` in the data.
fn has_mark(data: &[u8], at: usize, mark: &[u8]) -> (r: bool)
    ensures
        r == marked(data@, at as int, mark@),
{
    let n: usize = mark.len();
    if at > data.len() || n > data.len() - at {
        return false;
    }
    let mut i: usize = 0;
    while i < n
        invariant
            i <= n,
            n == mark@.len(),
            at + n <= data.len(),
            data.len() == data@.len(),
            forall|j: int| 0 <= j < i ==> data@[at + j] == mark@[j],
        decreases n - i,
    {
        if data[at + i] != mark[i] {
            assert(data@.subrange(at as int, at + n)[i as int] != mark@[i as int]);
            return false;
        }
        i = i + 1;
    }
    assert(data@.subrange(at as int, at + n) =~= mark@);
    true
}

/// The PNG signature.
pub open spec fn png_mark() -> Seq<u8> {
    seq![0x89u8, 0x50u8, 0x4Eu8, 0x47u8, 0x0Du8, 0x0Au8, 0x1Au8, 0x0Au8]
}

/// The start of a JPEG file.
pub open spec fn jpeg_mark() -> Seq<u8> {
    seq![0xFFu8, 0xD8u8, 0xFFu8]
}

/// `RIFF`.
pub open spec fn riff_mark() -> Seq<u8> {
    seq![0x52u8, 0x49u8, 0x46u8, 0x46u8]
}

/// `WEBP`.
pub open spec fn webp_mark() -> Seq<u8> {
    seq![0x57u8, 0x45u8, 0x42u8, 0x50u8]
}

/// `ftyp`.
pub open spec fn ftyp_mark() -> Seq<u8> {
    seq![0x66u8, 0x74u8, 0x79u8, 0x70u8]
}

/// `avif`.
pub open spec fn avif_mark() -> Seq<u8> {
    seq![0x61u8, 0x76u8, 0x69u8, 0x66u8]
}

/// `avis`.
pub open spec fn avis_mark() -> Seq<u8> {
    seq![0x61u8, 0x76u8, 0x69u8, 0x73u8]
}

/// `mif1`.
pub open spec fn mif1_mark() -> Seq<u8> {
    seq![0x6Du8, 0x69u8, 0x66u8, 0x31u8]
}

/// The start of a bare JPEG XL codestream.
pub open spec fn jxl_mark() -> Seq<u8> {
    seq![0xFFu8, 0x0Au8]
}

/// The start of a JPEG XL container.
pub open spec fn jxl_box_mark() -> Seq<u8> {
    seq![0x00u8, 0x00u8, 0x00u8, 0x0Cu8, 0x4Au8, 0x58u8, 0x4Cu8, 0x20u8, 0x0Du8, 0x0Au8, 0x87u8, 0x0Au8]
}

/// The data bear the signature of the format.
pub open spec fn signed(data: Seq<u8>, format: ImageFormat) -> bool {
    match format {
        ImageFormat::Png => marked(data, 0, png_mark()),
        ImageFormat::Jpeg => marked(data, 0, jpeg_mark()),
        ImageFormat::Webp => marked(data, 0, riff_mark()) && marked(data, 8, webp_mark()),
        ImageFormat::Avif => marked(data, 4, ftyp_mark()) && (marked(data, 8, avif_mark()) || marked(
            data,
            8,
            avis_mark(),
        ) || marked(data, 8, mif1_mark())),
        ImageFormat::Jxl => marked(data, 0, jxl_mark()) || marked(data, 0, jxl_box_mark()),
    }
}

/// The format whose signature the data bear.
pub open spec fn signed_format(data: Seq<u8>) -> Option<ImageFormat> {
    if signed(data, ImageFormat::Png) {
        Some(ImageFormat::Png)
    } else if signed(data, ImageFormat::Jpeg) {
        Some(ImageFormat::Jpeg)
    } else if signed(data, ImageFormat::Webp) {
        Some(ImageFormat::Webp)
    } else if signed(data, ImageFormat::Avif) {
        Some(ImageFormat::Avif)
    } else if signed(data, ImageFormat::Jxl) {
        Some(ImageFormat::Jxl)
    } else {
        None
    }
}

/// The format that a file extension stands for, whatever its letters' case.
pub open spec fn extension_format(ext: Seq<char>) -> Option<ImageFormat> {
    let e = lowered(ext);
    if e == "png"@ {
        Some(ImageFormat::Png)
    } else if e == "jpg"@ || e == "jpeg"@ {
        Some(ImageFormat::Jpeg)
    } else if e == "webp"@ {
        Some(ImageFormat::Webp)
    } else if e == "avif"@ || e == "avis"@ || e == "heic"@ || e == "heif"@ {
        Some(ImageFormat::Avif)
    } else if e == "jxl"@ {
        Some(ImageFormat::Jxl)
    } else {
        None
    }
}

/// The format of a file with these contents and this extension.
pub open spec fn format_of(data: Seq<u8>, ext: Option<Seq<char>>) -> Option<ImageFormat> {
    match (signed_format(data), ext) {
        (Some(f), _) => Some(f),
        (None, Some(e)) => extension_format(e),
        (None, None) => None,
    }
}

/// The format of a file: what its first bytes say, else what its extension says.
pub fn sniff_format(data: &[u8], ext: Option<&str>) -> (r: Option<ImageFormat>)
    ensures
        r == format_of(data@, opt_text(ext)),
{
    let png: [u8; 8] = [0x89u8, 0x50u8, 0x4Eu8, 0x47u8, 0x0Du8, 0x0Au8, 0x1Au8, 0x0Au8];
    let jpeg: [u8; 3] = [0xFFu8, 0xD8u8, 0xFFu8];
    let riff: [u8; 4] = [0x52u8, 0x49u8, 0x46u8, 0x46u8];
    let webp: [u8; 4] = [0x57u8, 0x45u8, 0x42u8, 0x50u8];
    let ftyp: [u8; 4] = [0x66u8, 0x74u8, 0x79u8, 0x70u8];
    let avif: [u8; 4] = [0x61u8, 0x76u8, 0x69u8, 0x66u8];
    let avis: [u8; 4] = [0x61u8, 0x76u8, 0x69u8, 0x73u8];
    let mif1: [u8; 4] = [0x6Du8, 0x69u8, 0x66u8, 0x31u8];
    let jxl: [u8; 2] = [0xFFu8, 0x0Au8];
    let jxl_box: [u8; 12] = [
        0x00u8,
        0x00u8,
        0x00u8,
        0x0Cu8,
        0x4Au8,
        0x58u8,
        0x4Cu8,
        0x20u8,
        0x0Du8,
        0x0Au8,
        0x87u8,
        0x0Au8,
    ];
    assert(png@ =~= png_mark());
    assert(jpeg@ =~= jpeg_mark());
    assert(riff@ =~= riff_mark());
    assert(webp@ =~= webp_mark());
    assert(ftyp@ =~= ftyp_mark());
    assert(avif@ =~= avif_mark());
    assert(avis@ =~= avis_mark());
    assert(mif1@ =~= mif1_mark());
    assert(jxl@ =~= jxl_mark());
    assert(jxl_box@ =~= jxl_box_mark());
    if has_mark(data, 0, &png) {
        return Some(ImageFormat::Png);
    }
    if has_mark(data, 0, &jpeg) {
        return Some(ImageFormat::Jpeg);
    }
    if has_mark(data, 0, &riff) && has_mark(data, 8, &webp) {
        return Some(ImageFormat::Webp);
    }
    if has_mark(data, 4, &ftyp) && (has_mark(data, 8, &avif) || has_mark(data, 8, &avis) || has_mark(
        data,
        8,
        &mif1,
    )) {
        return Some(ImageFormat::Avif);
    }
    if has_mark(data, 0, &jxl) || has_mark(data, 0, &jxl_box) {
        return Some(ImageFormat::Jxl);
    }
    match ext {
        Some(e) => {
            let low = to_lower(e);
            let e = low.as_str();
            if same(e, "png") {
                Some(ImageFormat::Png)
            } else if same(e, "jpg") || same(e, "jpeg") {
                Some(ImageFormat::Jpeg)
            } else if same(e, "webp") {
                Some(ImageFormat::Webp)
            } else if same(e, "avif") || same(e, "avis") || same(e, "heic") || same(e, "heif") {
                Some(ImageFormat::Avif)
            } else if same(e, "jxl") {
                Some(ImageFormat::Jxl)
            } else {
                None
            }
        },
        None => None,
    }
}

proof fn lemma_marked_at(data: Seq<u8>, at: int, mark: Seq<u8>, i: int)
    requires
        0 <= i < mark.len(),
    ensures
        marked(data, at, mark) ==> data[at + i] == mark[i],
{
    if marked(data, at, mark) {
        assert(data.subrange(at, at + mark.len())[i] == data[at + i]);
    }
}

/// No data bear the signatures of two formats, but for data that begin as JPEG or
/// bare JPEG XL data do and go on as AVIF files do.
pub proof fn law_one_signature(data: Seq<u8>, a: ImageFormat, b: ImageFormat)
    requires
        signed(data, a),
        signed(data, b),
        !(signed(data, ImageFormat::Avif) && (signed(data, ImageFormat::Jpeg) || signed(
            data,
            ImageFormat::Jxl,
        ))),
    ensures
        a == b,
{
    lemma_marked_at(data, 0, png_mark(), 0);
    lemma_marked_at(data, 0, png_mark(), 4);
    lemma_marked_at(data, 0, jpeg_mark(), 0);
    lemma_marked_at(data, 0, jpeg_mark(), 1);
    lemma_marked_at(data, 0, riff_mark(), 0);
    lemma_marked_at(data, 8, webp_mark(), 0);
    lemma_marked_at(data, 4, ftyp_mark(), 0);
    lemma_marked_at(data, 4, ftyp_mark(), 3);
    lemma_marked_at(data, 8, avif_mark(), 0);
    lemma_marked_at(data, 8, avis_mark(), 0);
    lemma_marked_at(data, 8, mif1_mark(), 0);
    lemma_marked_at(data, 0, jxl_mark(), 0);
    lemma_marked_at(data, 0, jxl_mark(), 1);
    lemma_marked_at(data, 0, jxl_box_mark(), 0);
    lemma_marked_at(data, 0, jxl_box_mark(), 4);
}

/// Where the data bear a signature, the extension is not looked at.
pub proof fn law_signature_beats_extension(
    data: Seq<u8>,
    format: ImageFormat,
    ext: Option<Seq<char>>,
)
    requires
        signed(data, format),
    ensures
        format_of(data, ext) == signed_format(data),
        format_of(data, ext) is Some,
{
}

// ── Decoding ───────────────────────────────────────────────────────────

/// A decoder's pixels in whatever layout the file has.
#[verifier::external_type_specification]
#[verifier::external_body]
#[verifier::reject_recursive_types(P)]
pub struct ExPixelBuffer<P>(PixelBuffer<P>);

/// A prepared conversion between two pixel layouts.
#[verifier::external_type_specification]
#[verifier::external_body]
pub struct ExRowConverter(RowConverter);

/// What a decoder gave: its pixels, or the text of its error.
pub open spec fn given(r: Result<PixelBuffer, String>) -> Result<PixelBuffer, Seq<char>> {
    match r {
        Ok(x) => Ok(x),
        Err(e) => Err(e@),
    }
}

/// The PNG decoder may give this for the data.
pub uninterp spec fn png_may_give(data: Seq<u8>, got: Result<PixelBuffer, Seq<char>>) -> bool;

/// Calls `zenpng::decode` with its default limits and nothing that stops it.
/// What it gives depends on the data alone but for where its buffer lies in
/// memory, so the contract ties the result to the data and says no more of it.
#[verifier::external_body]
fn png_buffer(data: &[u8]) -> (r: Result<PixelBuffer, String>)
    ensures
        png_may_give(data@, given(r)),
{
    match zenpng::decode(data, &zenpng::PngDecodeConfig::default(), &enough::Unstoppable) {
        Ok(out) => Ok(out.pixels),
        Err(e) => Err(format!("{e}")),
    }
}

/// The JPEG decoder may give this for the data.
pub uninterp spec fn jpeg_may_give(data: Seq<u8>, got: Result<PixelBuffer, Seq<char>>) -> bool;

/// Calls `decode` of a new `zenjpeg::JpegDecoderConfig`. The decoder picks its
/// arithmetic by the machine it runs on, so the contract ties the result to the
/// data and says no more of it.
#[verifier::external_body]
fn jpeg_buffer(data: &[u8]) -> (r: Result<PixelBuffer, String>)
    ensures
        jpeg_may_give(data@, given(r)),
{
    match zenjpeg::JpegDecoderConfig::new().decode(data) {
        Ok(out) => Ok(out.into_buffer()),
        Err(e) => Err(format!("{e}")),
    }
}

/// The AVIF decoder may give this for the data.
pub uninterp spec fn avif_may_give(data: Seq<u8>, got: Result<PixelBuffer, Seq<char>>) -> bool;

/// Calls `zenavif::decode`. The decoder picks its arithmetic by the machine it runs
/// on, so the contract ties the result to the data and says no more of it.
#[verifier::external_body]
fn avif_buffer(data: &[u8]) -> (r: Result<PixelBuffer, String>)
    ensures
        avif_may_give(data@, given(r)),
{
    zenavif::decode(data).map_err(|e| format!("{e}"))
}

/// The JPEG XL decoder may give this for the data.
pub uninterp spec fn jxl_may_give(data: Seq<u8>, got: Result<PixelBuffer, Seq<char>>) -> bool;

/// Calls `zenjxl::decode` without limits and without a preferred layout. The decoder
/// computes with real numbers, by the machine it runs on, so the contract ties the
/// result to the data and says no more of it.
#[verifier::external_body]
fn jxl_buffer(data: &[u8]) -> (r: Result<PixelBuffer, String>)
    ensures
        jxl_may_give(data@, given(r)),
{
    match zenjxl::decode(data, None, &[]) {
        Ok(out) => Ok(out.pixels),
        Err(e) => Err(format!("{e}")),
    }
}

/// The width of a buffer, in pixels.
pub uninterp spec fn buffer_width(buf: PixelBuffer) -> u32;

/// The height of a buffer, in pixels.
pub uninterp spec fn buffer_height(buf: PixelBuffer) -> u32;

/// Calls `PixelBuffer::width`, which gives the buffer's width.
#[verifier::external_body]
fn width_of(buf: &PixelBuffer) -> (r: u32)
    ensures
        r == buffer_width(*buf),
{
    buf.width()
}

/// Calls `PixelBuffer::height`, which gives the buffer's height.
#[verifier::external_body]
fn height_of(buf: &PixelBuffer) -> (r: u32)
    ensures
        r == buffer_height(*buf),
{
    buf.height()
}

/// The conversion from the buffer's layout to sRGB RGB8 may come out as this. Where
/// there is none: the texts of the layout and of the error.
pub uninterp spec fn plan_may_give(
    buf: PixelBuffer,
    got: Result<RowConverter, (Seq<char>, Seq<char>)>,
) -> bool;

/// Calls `RowConverter::new` with the buffer's layout and sRGB RGB8. Whether
/// there is a conversion depends on the layout alone; the contract ties the
/// result to the buffer.
#[verifier::external_body]
fn rgb8_converter(buf: &PixelBuffer) -> (r: Result<RowConverter, (String, String)>)
    ensures
        plan_may_give(
            *buf,
            match r {
                Ok(c) => Ok(c),
                Err((layout, e)) => Err((layout@, e@)),
            },
        ),
{
    let layout = buf.descriptor();
    RowConverter::new(layout, zenpixels::PixelDescriptor::RGB8_SRGB)
        .map_err(|e| (format!("{layout:?}"), format!("{e}")))
}

/// Converting the buffer's rows into rows of `stride` bytes may leave these
/// bytes, with this error.
pub uninterp spec fn rows_may_give(
    conv: RowConverter,
    buf: PixelBuffer,
    stride: int,
    got: Seq<u8>,
    fault: Option<Seq<char>>,
) -> bool;

/// Calls `RowConverter::convert_rows` on all rows of the buffer. It counts the
/// places of the rows without a check, so the converter must be one for this buffer
/// and the bytes must hold its rows, three bytes for each pixel, and no more. It
/// writes into the bytes it is handed and never changes how many there are. Some
/// layouts are converted with real numbers, by the machine it runs on, so the
/// contract ties the bytes to the buffer and says no more of them.
#[verifier::external_body]
fn convert_rows(conv: &mut RowConverter, buf: &PixelBuffer, dst: &mut Vec<u8>, stride: usize) -> (r: Result<
    (),
    String,
>)
    requires
        stride == buffer_width(*buf) * 3,
        old(dst)@.len() == stride * buffer_height(*buf),
        plan_may_give(*buf, Ok(*old(conv))),
    ensures
        final(dst)@.len() == old(dst)@.len(),
        rows_may_give(
            *old(conv),
            *buf,
            stride as int,
            final(dst)@,
            match r {
                Ok(_) => None,
                Err(e) => Some(e@),
            },
        ),
{
    let src = buf.as_slice();
    conv.convert_rows(src.as_strided_bytes(), src.stride(), dst, stride, src.width(), src.rows())
        .map_err(|e| format!("{e}"))
}

/// The flat bytes of `width` by `height` pixels can be counted.
pub open spec fn countable(width: u32, height: u32) -> bool {
    width * 3 <= usize::MAX && width * 3 * height <= usize::MAX
}

/// The message for a layout that cannot be converted.
pub open spec fn plan_text(layout: Seq<char>, fault: Seq<char>) -> Seq<char> {
    "decode: cannot plan "@ + layout + " → RGB8_SRGB: "@ + fault
}

/// The buffer may come out as this image, or fail with this text.
pub open spec fn rgb8_may_give(buf: PixelBuffer, got: Result<RgbView, Seq<char>>) -> bool {
    let w = buffer_width(buf);
    let h = buffer_height(buf);
    if !countable(w, h) {
        got == Err::<RgbView, Seq<char>>("decode: image too large"@)
    } else {
        match got {
            Ok(x) => {
                &&& x.width == w
                &&& x.height == h
                &&& x.pixels.len() == w * h * 3
                &&& exists|conv: RowConverter|
                    plan_may_give(buf, Ok(conv)) && #[trigger] rows_may_give(
                        conv,
                        buf,
                        w * 3,
                        x.pixels,
                        None,
                    )
            },
            Err(e) => {
                ||| exists|layout: Seq<char>, fault: Seq<char>| #[trigger]
                    plan_may_give(buf, Err((layout, fault))) && e == plan_text(layout, fault)
                ||| exists|conv: RowConverter, left: Seq<u8>, fault: Seq<char>|
                    plan_may_give(buf, Ok(conv)) && #[trigger] rows_may_give(
                        conv,
                        buf,
                        w * 3,
                        left,
                        Some(fault),
                    ) && e == "decode: row conversion failed: "@ + fault
            },
        }
    }
}

/// The buffer as a flat sRGB RGB8 image.
fn pixel_buffer_to_rgb8(buf: &PixelBuffer) -> (r: Result<Rgb8Image, String>)
    ensures
        rgb8_may_give(*buf, outcome(r)),
{
    let width: u32 = width_of(buf);
    let height: u32 = height_of(buf);
    let stride: Option<usize> = (width as usize).checked_mul(3);
    let total: Option<usize> = match stride {
        Some(s) => s.checked_mul(height as usize),
        None => None,
    };
    let (stride, total): (usize, usize) = match (stride, total) {
        (Some(s), Some(t)) => (s, t),
        _ => {
            return Err(copy("decode: image too large"));
        },
    };
    assert(width * 3 * height == width * height * 3) by (nonlinear_arith);
    let mut conv = match rgb8_converter(buf) {
        Ok(c) => c,
        Err((layout, fault)) => {
            let mut e: String = copy("decode: cannot plan ");
            e.append(layout.as_str());
            e.append(" → RGB8_SRGB: ");
            e.append(fault.as_str());
            assert(plan_may_give(*buf, Err((layout@, fault@))));
            return Err(e);
        },
    };
    let ghost planned = conv;
    let mut dst: Vec<u8> = vec![0u8; total];
    match convert_rows(&mut conv, buf, &mut dst, stride) {
        Ok(_) => {
            assert(rows_may_give(planned, *buf, width * 3, dst@, None));
            Ok(Rgb8Image { pixels: dst, width, height })
        },
        Err(fault) => {
            assert(rows_may_give(planned, *buf, width * 3, dst@, Some(fault@)));
            let mut e: String = copy("decode: row conversion failed: ");
            e.append(fault.as_str());
            Err(e)
        },
    }
}

/// What a PNG file may come out as.
pub open spec fn png_to(data: Seq<u8>, got: Result<RgbView, Seq<char>>) -> bool {
    exists|raw: Result<PixelBuffer, Seq<char>>| #[trigger]
        png_may_give(data, raw) && carried(""@, raw, got)
}

/// What a JPEG file may come out as.
pub open spec fn jpeg_to(data: Seq<u8>, got: Result<RgbView, Seq<char>>) -> bool {
    exists|raw: Result<PixelBuffer, Seq<char>>| #[trigger]
        jpeg_may_give(data, raw) && carried(""@, raw, got)
}

/// What an AVIF file may come out as.
pub open spec fn avif_to(data: Seq<u8>, got: Result<RgbView, Seq<char>>) -> bool {
    exists|raw: Result<PixelBuffer, Seq<char>>| #[trigger]
        avif_may_give(data, raw) && carried("zenavif: "@, raw, got)
}

/// What a JPEG XL file may come out as.
pub open spec fn jxl_to(data: Seq<u8>, got: Result<RgbView, Seq<char>>) -> bool {
    exists|raw: Result<PixelBuffer, Seq<char>>| #[trigger]
        jxl_may_give(data, raw) && carried("zenjxl: "@, raw, got)
}

/// A decoder's error is led by `lead`; its pixels are converted.
pub open spec fn carried(
    lead: Seq<char>,
    raw: Result<PixelBuffer, Seq<char>>,
    got: Result<RgbView, Seq<char>>,
) -> bool {
    match raw {
        Ok(buf) => rgb8_may_give(buf, got),
        Err(e) => got == Err::<RgbView, Seq<char>>(lead + e),
    }
}

/// The image that a decoder's pixels make, or its error behind `lead`.
fn carry(lead: &str, raw: Result<PixelBuffer, String>) -> (r: Result<Rgb8Image, String>)
    ensures
        carried(lead@, given(raw), outcome(r)),
        full(r),
{
    match raw {
        Ok(buf) => pixel_buffer_to_rgb8(&buf),
        Err(e) => {
            let mut m: String = copy(lead);
            m.append(e.as_str());
            Err(m)
        },
    }
}

/// Every image that comes out holds three bytes for each pixel.
pub open spec fn full(r: Result<Rgb8Image, String>) -> bool {
    match r {
        Ok(x) => x.wf(),
        Err(_) => true,
    }
}

/// Decodes a PNG file.
pub fn decode_png(data: &[u8]) -> (r: Result<Rgb8Image, String>)
    ensures
        png_to(data@, outcome(r)),
        full(r),
{
    let raw = png_buffer(data);
    let ghost seen = given(raw);
    let r = carry("", raw);
    assert(png_may_give(data@, seen) && carried(""@, seen, outcome(r)));
    r
}

/// Decodes a JPEG file.
pub fn decode_jpeg(data: &[u8]) -> (r: Result<Rgb8Image, String>)
    ensures
        jpeg_to(data@, outcome(r)),
        full(r),
{
    let raw = jpeg_buffer(data);
    let ghost seen = given(raw);
    let r = carry("", raw);
    assert(jpeg_may_give(data@, seen) && carried(""@, seen, outcome(r)));
    r
}

/// The WebP decoder may give these bytes, width and height for the data.
pub uninterp spec fn webp_may_give(data: Seq<u8>, got: Result<(Seq<u8>, u32, u32), Seq<char>>) -> bool;

/// Calls `zenwebp::oneshot::decode_rgb`, which gives three bytes for each pixel.
/// The decoder picks its arithmetic by the machine it runs on, so beyond the
/// count the contract ties the bytes to the data and says no more of them.
#[verifier::external_body]
fn webp_pixels(data: &[u8]) -> (r: Result<(Vec<u8>, u32, u32), String>)
    ensures
        match r {
            Ok((bytes, w, h)) => bytes@.len() == w * h * 3 && webp_may_give(data@, Ok((bytes@, w, h))),
            Err(e) => webp_may_give(data@, Err(e@)),
        },
{
    zenwebp::oneshot::decode_rgb(data).map_err(|e| format!("{e}"))
}

/// What a WebP file may come out as.
pub open spec fn webp_to(data: Seq<u8>, got: Result<RgbView, Seq<char>>) -> bool {
    match got {
        Ok(x) => webp_may_give(data, Ok((x.pixels, x.width, x.height))),
        Err(e) => webp_may_give(data, Err(e)),
    }
}

/// Decodes a WebP file.
pub fn decode_webp(data: &[u8]) -> (r: Result<Rgb8Image, String>)
    ensures
        webp_to(data@, outcome(r)),
        full(r),
{
    match webp_pixels(data) {
        Ok((pixels, width, height)) => Ok(Rgb8Image { pixels, width, height }),
        Err(e) => Err(e),
    }
}

/// Decodes an AVIF file.
pub fn decode_avif(data: &[u8]) -> (r: Result<Rgb8Image, String>)
    ensures
        avif_to(data@, outcome(r)),
        full(r),
{
    let raw = avif_buffer(data);
    let ghost seen = given(raw);
    let r = carry("zenavif: ", raw);
    assert(avif_may_give(data@, seen) && carried("zenavif: "@, seen, outcome(r)));
    r
}

/// Decodes a JPEG XL file.
pub fn decode_jxl(data: &[u8]) -> (r: Result<Rgb8Image, String>)
    ensures
        jxl_to(data@, outcome(r)),
        full(r),
{
    let raw = jxl_buffer(data);
    let ghost seen = given(raw);
    let r = carry("zenjxl: ", raw);
    assert(jxl_may_give(data@, seen) && carried("zenjxl: "@, seen, outcome(r)));
    r
}

/// What data of a format may come out as.
pub open spec fn decodes_to(
    format: Option<ImageFormat>,
    data: Seq<u8>,
    got: Result<RgbView, Seq<char>>,
) -> bool {
    match format {
        None => got == Err::<RgbView, Seq<char>>(
            "could not detect image format from magic bytes or extension"@,
        ),
        Some(ImageFormat::Png) => png_to(data, got),
        Some(ImageFormat::Jpeg) => jpeg_to(data, got),
        Some(ImageFormat::Webp) => webp_to(data, got),
        Some(ImageFormat::Avif) => avif_to(data, got),
        Some(ImageFormat::Jxl) => jxl_to(data, got),
    }
}

/// Decodes data of a known format; without one nothing is tried.
pub fn decode_bytes_to_rgb8(data: &[u8], format: Option<ImageFormat>) -> (r: Result<Rgb8Image, String>)
    ensures
        decodes_to(format, data@, outcome(r)),
        full(r),
{
    match format {
        None => Err(copy("could not detect image format from magic bytes or extension")),
        Some(ImageFormat::Png) => decode_png(data),
        Some(ImageFormat::Jpeg) => decode_jpeg(data),
        Some(ImageFormat::Webp) => decode_webp(data),
        Some(ImageFormat::Avif) => decode_avif(data),
        Some(ImageFormat::Jxl) => decode_jxl(data),
    }
}

/// Decodes the contents of a file with this extension.
pub fn decode_image_to_rgb8(data: &[u8], ext: Option<&str>) -> (r: Result<Rgb8Image, String>)
    ensures
        decodes_to(format_of(data@, opt_text(ext)), data@, outcome(r)),
        full(r),
{
    let format = sniff_format(data, ext);
    decode_bytes_to_rgb8(data, format)
}

/// Each format is known by its bytes: the marks of PNG, JPEG and JPEG XL at the start,
/// `RIFF` and `WEBP` around the length of a WebP file, and `ftyp` with one of three
/// brands behind the length of an AVIF file.
pub proof fn law_signature_bytes(data: Seq<u8>)
    ensures
        signed(data, ImageFormat::Png) <==> data.len() >= 8 && data[0] == 137 && data[1] == 80
            && data[2] == 78 && data[3] == 71 && data[4] == 13 && data[5] == 10 && data[6] == 26
            && data[7] == 10,
        signed(data, ImageFormat::Jpeg) <==> data.len() >= 3 && data[0] == 255 && data[1] == 216
            && data[2] == 255,
        signed(data, ImageFormat::Webp) <==> spells(data, 0, "RIFF"@) && spells(data, 8, "WEBP"@),
        signed(data, ImageFormat::Avif) <==> spells(data, 4, "ftyp"@) && (spells(data, 8, "avif"@)
            || spells(data, 8, "avis"@) || spells(data, 8, "mif1"@)),
        signed(data, ImageFormat::Jxl) <==> (data.len() >= 2 && data[0] == 255 && data[1] == 10)
            || (data.len() >= 12 && data[0] == 0 && data[1] == 0 && data[2] == 0 && data[3] == 12
            && spells(data, 4, "JXL "@) && data[8] == 13 && data[9] == 10 && data[10] == 135
            && data[11] == 10),
{
    reveal_strlit("RIFF");
    reveal_strlit("WEBP");
    reveal_strlit("ftyp");
    reveal_strlit("avif");
    reveal_strlit("avis");
    reveal_strlit("mif1");
    reveal_strlit("JXL ");
    lemma_marked(data, 0, png_mark());
    lemma_marked(data, 0, jpeg_mark());
    lemma_marked(data, 0, jxl_mark());
    lemma_marked(data, 0, jxl_box_mark());
    lemma_marked(data, 0, riff_mark());
    lemma_marked(data, 8, webp_mark());
    lemma_marked(data, 4, ftyp_mark());
    lemma_marked(data, 8, avif_mark());
    lemma_marked(data, 8, avis_mark());
    lemma_marked(data, 8, mif1_mark());
    lemma_spelled(data, 0, riff_mark(), "RIFF"@);
    lemma_spelled(data, 8, webp_mark(), "WEBP"@);
    lemma_spelled(data, 4, ftyp_mark(), "ftyp"@);
    lemma_spelled(data, 8, avif_mark(), "avif"@);
    lemma_spelled(data, 8, avis_mark(), "avis"@);
    lemma_spelled(data, 8, mif1_mark(), "mif1"@);
    let p = png_mark();
    assert(p.len() == 8 && p[0] == 137 && p[1] == 80 && p[2] == 78 && p[3] == 71 && p[4] == 13
        && p[5] == 10 && p[6] == 26 && p[7] == 10);
    if data.len() >= 8 && data[0] == p[0] && data[1] == p[1] && data[2] == p[2] && data[3] == p[3]
        && data[4] == p[4] && data[5] == p[5] && data[6] == p[6] && data[7] == p[7] {
        assert forall|i: int| 0 <= i < p.len() implies data[0 + i] == #[trigger] p[i] by {
            assert(i == 0 || i == 1 || i == 2 || i == 3 || i == 4 || i == 5 || i == 6 || i == 7);
        }
    }
    let j = jpeg_mark();
    assert(j.len() == 3 && j[0] == 255 && j[1] == 216 && j[2] == 255);
    if data.len() >= 3 && data[0] == j[0] && data[1] == j[1] && data[2] == j[2] {
        assert forall|i: int| 0 <= i < j.len() implies data[0 + i] == #[trigger] j[i] by {
            assert(i == 0 || i == 1 || i == 2);
        }
    }
    let x = jxl_mark();
    assert(x.len() == 2 && x[0] == 255 && x[1] == 10);
    if data.len() >= 2 && data[0] == x[0] && data[1] == x[1] {
        assert forall|i: int| 0 <= i < x.len() implies data[0 + i] == #[trigger] x[i] by {
            assert(i == 0 || i == 1);
        }
    }
    let b = jxl_box_mark();
    assert(b.len() == 12 && b[0] == 0 && b[1] == 0 && b[2] == 0 && b[3] == 12 && b[4] == 74
        && b[5] == 88 && b[6] == 76 && b[7] == 32 && b[8] == 13 && b[9] == 10 && b[10] == 135
        && b[11] == 10);
    let w = "JXL "@;
    assert(w.len() == 4 && w[0] == 'J' && w[1] == 'X' && w[2] == 'L' && w[3] == ' ');
    if data.len() >= 12 && data[4] == b[4] && data[5] == b[5] && data[6] == b[6]
        && data[7] == b[7] {
        assert forall|i: int| 0 <= i < w.len() implies data[4 + i] == #[trigger] w[i] as u8 by {
            assert(i == 0 || i == 1 || i == 2 || i == 3);
        }
    }
    if data.len() >= 12 && data[0] == b[0] && data[1] == b[1] && data[2] == b[2]
        && data[3] == b[3] && data[4] == b[4] && data[5] == b[5] && data[6] == b[6]
        && data[7] == b[7] && data[8] == b[8] && data[9] == b[9] && data[10] == b[10]
        && data[11] == b[11] {
        assert forall|i: int| 0 <= i < b.len() implies data[0 + i] == #[trigger] b[i] by {
            assert(i == 0 || i == 1 || i == 2 || i == 3 || i == 4 || i == 5 || i == 6 || i == 7
                || i == 8 || i == 9 || i == 10 || i == 11);
        }
    }
}

/// Do the bytes from here on spell the text?
pub open spec fn spells(data: Seq<u8>, at: int, text: Seq<char>) -> bool {
    &&& at + text.len() <= data.len()
    &&& forall|i: int| 0 <= i < text.len() ==> data[at + i] == #[trigger] text[i] as u8
}

proof fn lemma_marked(data: Seq<u8>, at: int, mark: Seq<u8>)
    requires
        at >= 0,
    ensures
        marked(data, at, mark) <==> at + mark.len() <= data.len() && forall|i: int|
            0 <= i < mark.len() ==> data[at + i] == #[trigger] mark[i],
{
    if at + mark.len() <= data.len() {
        let part = data.subrange(at, at + mark.len());
        assert forall|i: int| 0 <= i < mark.len() implies #[trigger] part[i] == data[at + i] by {}
        if part == mark {
            assert forall|i: int| 0 <= i < mark.len() implies data[at + i]
                == #[trigger] mark[i] by {
                assert(part[i] == mark[i]);
            }
        } else if forall|i: int| 0 <= i < mark.len() ==> data[at + i]
            == #[trigger] mark[i] {
            assert forall|i: int| 0 <= i < mark.len() implies part[i] == mark[i] by {
                assert(data[at + i] == mark[i]);
            }
            assert(part =~= mark);
        }
    }
}

proof fn lemma_spelled(data: Seq<u8>, at: int, mark: Seq<u8>, text: Seq<char>)
    requires
        at >= 0,
        mark.len() == text.len(),
        forall|i: int| 0 <= i < mark.len() ==> #[trigger] mark[i] == text[i] as u8,
    ensures
        marked(data, at, mark) <==> spells(data, at, text),
{
    lemma_marked(data, at, mark);
    if at + mark.len() <= data.len() {
        if marked(data, at, mark) {
            assert forall|i: int| 0 <= i < text.len() implies data[at + i]
                == #[trigger] text[i] as u8 by {
                assert(data[at + i] == mark[i]);
            }
        }
        if spells(data, at, text) {
            assert forall|i: int| 0 <= i < mark.len() implies data[at + i]
                == #[trigger] mark[i] by {
                assert(data[at + i] == text[i] as u8);
            }
        }
    }
}

/// A format that is found in the bytes has its mark there, and one is found whenever
/// there is a mark.
pub proof fn law_found_format_is_signed(data: Seq<u8>, f: ImageFormat)
    ensures
        signed_format(data) matches Some(g) ==> signed(data, g),
        signed_format(data) is None ==> !signed(data, f),
{
}

/// Is this a file name's extension for the format, in lower case?
pub open spec fn extension_for(f: ImageFormat, e: Seq<char>) -> bool {
    match f {
        ImageFormat::Png => e == "png"@,
        ImageFormat::Jpeg => e == "jpg"@ || e == "jpeg"@,
        ImageFormat::Webp => e == "webp"@,
        ImageFormat::Avif => e == "avif"@ || e == "avis"@ || e == "heic"@ || e == "heif"@,
        ImageFormat::Jxl => e == "jxl"@,
    }
}

/// Without a mark the extension decides, whatever its case, and it gives the format
/// that it is an extension of.
pub proof fn law_extension_gives_its_format(ext: Seq<char>, f: ImageFormat)
    ensures
        extension_format(ext) matches Some(g) ==> extension_for(g, lowered(ext)),
        extension_for(f, lowered(ext)) ==> extension_format(ext) is Some,
{
}

/// The bytes go to the decoder of the format that was found.
pub proof fn law_format_goes_to_its_decoder(
    f: ImageFormat,
    data: Seq<u8>,
    got: Result<RgbView, Seq<char>>,
)
    requires
        decodes_to(Some(f), data, got),
    ensures
        match f {
            ImageFormat::Png => exists|raw: Result<PixelBuffer, Seq<char>>| #[trigger]
                png_may_give(data, raw),
            ImageFormat::Jpeg => exists|raw: Result<PixelBuffer, Seq<char>>| #[trigger]
                jpeg_may_give(data, raw),
            ImageFormat::Webp => exists|raw: Result<(Seq<u8>, u32, u32), Seq<char>>| #[trigger]
                webp_may_give(data, raw),
            ImageFormat::Avif => exists|raw: Result<PixelBuffer, Seq<char>>| #[trigger]
                avif_may_give(data, raw),
            ImageFormat::Jxl => exists|raw: Result<PixelBuffer, Seq<char>>| #[trigger]
                jxl_may_give(data, raw),
        },
{
}

} // verus!
