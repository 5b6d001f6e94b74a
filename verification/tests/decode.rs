use rgb::FromSlice;
use zencodec::encode::{EncodeJob, Encoder, EncoderConfig};
use zen_metrics::decode::{
    decode_bytes_to_rgb8, decode_image_to_rgb8, decode_png, sniff_format, ImageFormat, Rgb8Image,
};
use zen_metrics::sweep::encode::{CodecKind, PngCompression, PngPlan, PngPreset};
use zen_metrics::sweep::lossless::{png_effort, scratch_plan, write_jxl_lossless, write_png};
use zen_metrics::sweep::run::decode_encoded_bytes;

/// An image with many colours.
fn noise(width: u32, height: u32) -> Rgb8Image {
    let mut state: u32 = 12345;
    let mut pixels = Vec::new();
    for _ in 0..width * height * 3 {
        state = state.wrapping_mul(1664525).wrapping_add(1013904223);
        pixels.push((state >> 24) as u8);
    }
    Rgb8Image {
        pixels,
        width,
        height,
    }
}

/// A smooth image.
fn ramp(width: u32, height: u32) -> Rgb8Image {
    let mut pixels = Vec::new();
    for y in 0..height {
        for x in 0..width {
            pixels.push((x * 255 / width) as u8);
            pixels.push((y * 255 / height) as u8);
            pixels.push(128);
        }
    }
    Rgb8Image {
        pixels,
        width,
        height,
    }
}

fn plan() -> PngPlan {
    PngPlan {
        compression: None,
        near_lossless_bits: None,
        parallel: None,
        max_threads: None,
    }
}

fn close(a: &Rgb8Image, b: &Rgb8Image, by: i32) {
    assert_eq!((a.width, a.height), (b.width, b.height));
    assert_eq!(a.pixels.len(), b.pixels.len());
    for (x, y) in a.pixels.iter().zip(&b.pixels) {
        assert!((*x as i32 - *y as i32).abs() <= by, "{x} {y}");
    }
}

#[test]
fn signatures_tell_the_format() {
    let png = [0x89, b'P', b'N', b'G', 0x0D, 0x0A, 0x1A, 0x0A, 1];
    assert_eq!(sniff_format(&png, None), Some(ImageFormat::Png));
    assert_eq!(sniff_format(&png[..7], None), None);
    assert_eq!(
        sniff_format(&[0xFF, 0xD8, 0xFF], None),
        Some(ImageFormat::Jpeg)
    );
    assert_eq!(
        sniff_format(b"RIFF....WEBP", None),
        Some(ImageFormat::Webp)
    );
    assert_eq!(sniff_format(b"RIFF....WAVE", None), None);
    for brand in ["avif", "avis", "mif1"] {
        let data = format!("....ftyp{brand}");
        assert_eq!(
            sniff_format(data.as_bytes(), None),
            Some(ImageFormat::Avif)
        );
    }
    assert_eq!(sniff_format(b"....ftypisom", None), None);
    assert_eq!(sniff_format(&[0xFF, 0x0A], None), Some(ImageFormat::Jxl));
    assert_eq!(
        sniff_format(b"\x00\x00\x00\x0CJXL \r\n\x87\n", None),
        Some(ImageFormat::Jxl)
    );
}

#[test]
fn extensions_tell_the_rest() {
    for (ext, f) in [
        ("png", ImageFormat::Png),
        ("JPG", ImageFormat::Jpeg),
        ("jpeg", ImageFormat::Jpeg),
        ("WebP", ImageFormat::Webp),
        ("avif", ImageFormat::Avif),
        ("heic", ImageFormat::Avif),
        ("heif", ImageFormat::Avif),
        ("avis", ImageFormat::Avif),
        ("jxl", ImageFormat::Jxl),
    ] {
        assert_eq!(sniff_format(b"", Some(ext)), Some(f), "{ext}");
    }
    assert_eq!(sniff_format(b"", Some("gif")), None);
    assert_eq!(sniff_format(b"", None), None);
    // A signature beats an extension.
    assert_eq!(
        sniff_format(&[0xFF, 0xD8, 0xFF], Some("png")),
        Some(ImageFormat::Jpeg)
    );
}

#[test]
fn png_gives_back_what_was_written() {
    let mut gray = ramp(17, 9);
    for i in 0..gray.pixels.len() {
        gray.pixels[i] = (i / 3) as u8;
    }
    let mut two = ramp(16, 16);
    for i in 0..two.pixels.len() {
        two.pixels[i] = if (i / 3) % 2 == 0 { 10 } else { 250 };
    }
    for img in [noise(33, 21), ramp(40, 30), gray, two, noise(1, 1)] {
        for p in [plan(), scratch_plan()] {
            let bytes = write_png(&p, &img).unwrap();
            assert_eq!(sniff_format(&bytes, None), Some(ImageFormat::Png));
            let back = decode_png(&bytes).unwrap();
            close(&back, &img, 0);
        }
    }
}

#[test]
fn png_settings_reach_the_encoder() {
    let img = ramp(64, 64);
    let stored = write_png(
        &PngPlan {
            compression: Some(PngCompression::Preset(PngPreset::Store)),
            ..plan()
        },
        &img,
    )
    .unwrap();
    let small = write_png(
        &PngPlan {
            compression: Some(PngCompression::Effort(13)),
            ..plan()
        },
        &img,
    )
    .unwrap();
    assert!(stored.len() > small.len());
    let rounded = write_png(
        &PngPlan {
            near_lossless_bits: Some(4),
            ..plan()
        },
        &noise(16, 16),
    )
    .unwrap();
    let back = decode_png(&rounded).unwrap();
    assert!(back.pixels != noise(16, 16).pixels);
    close(&back, &noise(16, 16), 16);
    assert_eq!(png_effort(&plan()), 13);
    assert_eq!(png_effort(&scratch_plan()), 1);
    assert_eq!(
        png_effort(&PngPlan {
            compression: Some(PngCompression::Preset(PngPreset::Minutes)),
            ..plan()
        }),
        200
    );
}

#[test]
fn png_presets_have_the_efforts_of_the_encoder() {
    for (p, c) in [
        (PngPreset::Store, zenpng::Compression::None),
        (PngPreset::Fastest, zenpng::Compression::Fastest),
        (PngPreset::Turbo, zenpng::Compression::Turbo),
        (PngPreset::Fast, zenpng::Compression::Fast),
        (PngPreset::Balanced, zenpng::Compression::Balanced),
        (PngPreset::Thorough, zenpng::Compression::Thorough),
        (PngPreset::High, zenpng::Compression::High),
        (PngPreset::Aggressive, zenpng::Compression::Aggressive),
        (PngPreset::Intense, zenpng::Compression::Intense),
        (PngPreset::Crush, zenpng::Compression::Crush),
        (PngPreset::Maniac, zenpng::Compression::Maniac),
        (PngPreset::Brag, zenpng::Compression::Brag),
        (PngPreset::Minutes, zenpng::Compression::Minutes),
    ] {
        assert_eq!(
            png_effort(&PngPlan {
                compression: Some(PngCompression::Preset(p)),
                ..plan()
            }),
            c.effort()
        );
    }
}

#[test]
fn jxl_gives_back_what_was_written_losslessly() {
    let img = noise(24, 18);
    let bytes = write_jxl_lossless(Some(3), &img).unwrap();
    assert_eq!(sniff_format(&bytes, None), Some(ImageFormat::Jxl));
    let back = decode_encoded_bytes(&bytes, CodecKind::Zenjxl).unwrap();
    close(&back, &img, 0);
}

#[test]
fn jpeg_files_are_decoded() {
    let img = ramp(48, 32);
    let slice = zenpixels::PixelSlice::new(
        &img.pixels,
        img.width,
        img.height,
        img.width as usize * 3,
        zenpixels::PixelDescriptor::RGB8_SRGB,
    )
    .unwrap();
    let bytes = zenjpeg::JpegEncoderConfig::new()
        .with_generic_quality(95.0)
        .job()
        .encoder()
        .unwrap()
        .encode(slice)
        .unwrap()
        .into_vec();
    assert_eq!(sniff_format(&bytes, None), Some(ImageFormat::Jpeg));
    let back = decode_image_to_rgb8(&bytes, None).unwrap();
    close(&back, &img, 24);
}

#[test]
fn webp_files_are_decoded() {
    let img = noise(20, 12);
    let cfg = zenwebp::EncoderConfig::new_lossless();
    let bytes = zenwebp::EncodeRequest::new(
        &cfg,
        &img.pixels,
        zenwebp::PixelLayout::Rgb8,
        img.width,
        img.height,
    )
    .encode()
    .unwrap();
    assert_eq!(sniff_format(&bytes, None), Some(ImageFormat::Webp));
    let back = decode_encoded_bytes(&bytes, CodecKind::Zenwebp).unwrap();
    close(&back, &img, 0);
}

#[test]
fn avif_files_are_decoded() {
    let img = ramp(32, 32);
    let px = imgref::ImgRef::new(
        img.pixels.as_rgb(),
        img.width as usize,
        img.height as usize,
    );
    let cfg = zenavif::EncoderConfig::new().quality(95.0).speed(10);
    let bytes = zenavif::encode_rgb8(
        px,
        &cfg,
        almost_enough::StopToken::new(enough::Unstoppable),
    )
    .unwrap()
    .avif_file;
    assert_eq!(sniff_format(&bytes, None), Some(ImageFormat::Avif));
    let back = decode_image_to_rgb8(&bytes, Some("avif")).unwrap();
    close(&back, &img, 24);
}

#[test]
fn what_is_no_image_is_an_error() {
    assert_eq!(
        decode_bytes_to_rgb8(b"hello", None).unwrap_err(),
        "could not detect image format from magic bytes or extension"
    );
    assert!(decode_image_to_rgb8(b"hello", Some("png")).is_err());
    assert!(decode_image_to_rgb8(b"hello", Some("jpg")).is_err());
    assert!(decode_image_to_rgb8(b"hello", Some("webp")).is_err());
    assert!(decode_image_to_rgb8(b"hello", Some("avif"))
        .unwrap_err()
        .starts_with("zenavif: "));
    assert!(decode_image_to_rgb8(b"hello", Some("jxl"))
        .unwrap_err()
        .starts_with("zenjxl: "));
}
