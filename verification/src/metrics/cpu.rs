//! Getting images ready for the metrics of the processor.
//!
//! Some metrics need at least eight pixels each way. Smaller images are continued
//! by mirroring them at their edges.

use crate::text::copy;
use vstd::prelude::*;

verus! {

/// The place in a line of `n` that place `i` of the mirrored line shows. The line
/// is run through to its end and back again, and an end is not repeated.
pub open spec fn mirrored(i: nat, n: nat) -> nat {
    if n <= 1 {
        0
    } else {
        let p = i % ((2 * (n - 1)) as nat);
        if p < n {
            p
        } else {
            (2 * (n - 1) - p) as nat
        }
    }
}

/// The place in a line of `n` that place `i` of the mirrored line shows.
fn mirror(i: usize, n: usize) -> (r: usize)
    requires
        n >= 1,
        2 * n <= usize::MAX,
    ensures
        r == mirrored(i as nat, n as nat),
        r < n,
{
    if n == 1 {
        return 0;
    }
    let period: usize = 2 * (n - 1);
    let p: usize = i % period;
    if p < n {
        p
    } else {
        period - p
    }
}

/// A mirrored line shows the line itself first, never leaves it, and repeats.
pub proof fn law_mirror(i: nat, n: nat)
    requires
        n >= 1,
    ensures
        mirrored(i, n) < n,
        i < n ==> mirrored(i, n) == i,
        n > 1 ==> mirrored(i + (2 * (n - 1)) as nat, n) == mirrored(i, n),
{
    if n > 1 {
        let period = 2 * (n - 1);
        assert((i + period) % period == i as int % period) by (nonlinear_arith)
            requires
                period > 0,
                i >= 0,
        ;
        if i < n {
            if i < period {
                assert(i as int % period == i) by (nonlinear_arith)
                    requires
                        0 <= i < period,
                ;
            }
        }
    }
}

/// The larger of two numbers.
pub open spec fn at_least(n: u32, min: u32) -> u32 {
    if n < min {
        min
    } else {
        n
    }
}

/// One byte of the padded image.
pub open spec fn padded_byte(pixels: Seq<u8>, w: nat, h: nat, x: nat, y: nat, c: nat) -> u8 {
    pixels[((mirrored(y, h) * w + mirrored(x, w)) * 3 + c) as int]
}

/// An image of three bytes for each pixel, and its size.
#[derive(Debug)]
pub struct Padded {
    pub pixels: Vec<u8>,
    pub width: u32,
    pub height: u32,
}

/// Is this the padded image?
pub open spec fn padded_for(p: Padded, pixels: Seq<u8>, w: u32, h: u32, min: u32) -> bool {
    &&& p.width == at_least(w, min)
    &&& p.height == at_least(h, min)
    &&& p.pixels@.len() == p.width * p.height * 3
    &&& forall|k: int|
        0 <= k < p.pixels@.len() ==> #[trigger] p.pixels@[k] == padded_byte(
            pixels,
            w as nat,
            h as nat,
            (((k / 3) % (p.width as int)) as nat),
            (((k / 3) / (p.width as int)) as nat),
            (k % 3) as nat,
        )
}

/// Continues an image by mirroring it, until it has at least `min` pixels each way.
pub fn pad_rgb8_to_min(pixels: &Vec<u8>, w: u32, h: u32, min: u32) -> (r: Padded)
    requires
        w > 0,
        h > 0,
        pixels@.len() == w * h * 3,
        at_least(w, min) * at_least(h, min) * 3 <= usize::MAX,
        2 * w <= usize::MAX,
        2 * h <= usize::MAX,
    ensures
        padded_for(r, pixels@, w, h, min),
{
    let width: u32 = if w < min {
        min
    } else {
        w
    };
    let height: u32 = if h < min {
        min
    } else {
        h
    };
    let total: usize = (width as usize) * (height as usize) * 3;
    let ghost pw = width as int;
    let ghost ph = height as int;
    let mut out: Vec<u8> = Vec::new();
    let mut k: usize = 0;
    while k < total
        invariant
            w > 0,
            h > 0,
            width > 0,
            pixels@.len() == w * h * 3,
            pixels.len() == pixels@.len(),
            2 * w <= usize::MAX,
            2 * h <= usize::MAX,
            pw == width,
            ph == height,
            total == pw * ph * 3,
            k <= total,
            out@.len() == k,
            forall|j: int|
                0 <= j < k ==> #[trigger] out@[j] == padded_byte(
                    pixels@,
                    w as nat,
                    h as nat,
                    (((j / 3) % pw) as nat),
                    (((j / 3) / pw) as nat),
                    (j % 3) as nat,
                ),
        decreases total - k,
    {
        let cell: usize = k / 3;
        let x: usize = cell % (width as usize);
        let y: usize = cell / (width as usize);
        let mx: usize = mirror(x, w as usize);
        let my: usize = mirror(y, h as usize);
        proof {
            let wi = w as int;
            let hi = h as int;
            let mxi = mx as int;
            let myi = my as int;
            assert(0 <= myi * wi + mxi && (myi * wi + mxi) * 3 + 3 <= wi * hi * 3) by (
                nonlinear_arith)
                requires
                    0 <= mxi < wi,
                    0 <= myi < hi,
            ;
            assert(0 <= myi * wi) by (nonlinear_arith)
                requires
                    0 <= myi,
                    0 <= wi,
            ;
        }
        let at: usize = (my * (w as usize) + mx) * 3 + k % 3;
        out.push(pixels[at]);
        k += 1;
    }
    Padded { pixels: out, width, height }
}

/// An image that is large enough stays as it is.
pub proof fn law_large_image_unpadded(p: Padded, pixels: Seq<u8>, w: u32, h: u32, min: u32, k: int)
    requires
        padded_for(p, pixels, w, h, min),
        pixels.len() == w * h * 3,
        w >= min,
        h >= min,
        0 <= k < pixels.len(),
    ensures
        p.width == w,
        p.height == h,
        p.pixels@[k] == pixels[k],
{
    let c = k / 3;
    let wi = w as int;
    let hi = h as int;
    assert(wi > 0 && hi > 0) by (nonlinear_arith)
        requires
            0 <= k < wi * hi * 3,
            wi >= 0,
            hi >= 0,
    ;
    assert(c < wi * hi);
    assert(0 <= c / wi < hi) by (nonlinear_arith)
        requires
            0 <= c < wi * hi,
            wi > 0,
    ;
    assert(0 <= c % wi < wi);
    law_mirror((c % wi) as nat, w as nat);
    law_mirror((c / wi) as nat, h as nat);
    assert((c / wi) * wi + c % wi == c) by (nonlinear_arith)
        requires
            wi > 0,
    ;
    assert(c * 3 + k % 3 == k);
}

// ── What each metric asks of its images ────────────────────────────────

/// What is wrong with an image for SSIMULACRA2.
pub open spec fn ssim2_fault(w: u32, h: u32, len: nat) -> Option<Seq<char>> {
    if w == 0 || h == 0 {
        Some("ssim2: image has zero dimension"@)
    } else if len != w * h * 3 {
        Some("ssim2: pixel buffer is not packed w*h*3 RGB8"@)
    } else {
        None
    }
}

/// Is the size of an image small enough to be counted in bytes, with room for the
/// padding?
pub open spec fn countable(w: u32, h: u32, min: u32) -> bool {
    &&& at_least(w, min) * at_least(h, min) * 3 <= usize::MAX
    &&& 2 * w <= usize::MAX
    &&& 2 * h <= usize::MAX
}

/// Gets an image ready for SSIMULACRA2.
pub fn ssim2_image(pixels: &Vec<u8>, w: u32, h: u32) -> (r: Result<Padded, String>)
    requires
        countable(w, h, 8),
    ensures
        match r {
            Ok(p) => ssim2_fault(w, h, pixels@.len()) is None && padded_for(p, pixels@, w, h, 8),
            Err(e) => ssim2_fault(w, h, pixels@.len()) == Some(e@),
        },
{
    if w == 0 || h == 0 {
        return Err(copy("ssim2: image has zero dimension"));
    }
    proof {
        lemma_area(w, h, 8);
    }
    if pixels.len() != (w as usize) * (h as usize) * 3 {
        return Err(copy("ssim2: pixel buffer is not packed w*h*3 RGB8"));
    }
    Ok(pad_rgb8_to_min(pixels, w, h, 8))
}

proof fn lemma_area(w: u32, h: u32, min: u32)
    requires
        countable(w, h, min),
    ensures
        0 <= w * h <= usize::MAX,
        0 <= w * h * 3 <= usize::MAX,
{
    let a = at_least(w, min) as int;
    let b = at_least(h, min) as int;
    let wi = w as int;
    let hi = h as int;
    assert(0 <= wi * hi <= a * b) by (nonlinear_arith)
        requires
            0 <= wi <= a,
            0 <= hi <= b,
    ;
}

/// What is wrong with a pair of images for Butteraugli.
pub open spec fn butteraugli_fault(rw: u32, rh: u32, rlen: nat, dw: u32, dh: u32, dlen: nat) -> Option<
    Seq<char>,
> {
    if rlen != rw * rh * 3 || dlen != dw * dh * 3 {
        Some("butteraugli: pixel buffer is not packed w*h*3 RGB8"@)
    } else {
        None
    }
}

/// Gets a pair of images ready for Butteraugli. Neither of them is empty.
pub fn butteraugli_images(
    reference: &Vec<u8>,
    rw: u32,
    rh: u32,
    distorted: &Vec<u8>,
    dw: u32,
    dh: u32,
) -> (r: Result<(Padded, Padded), String>)
    requires
        countable(rw, rh, 8),
        countable(dw, dh, 8),
        rw > 0 && rh > 0 && dw > 0 && dh > 0,
    ensures
        match r {
            Ok(p) => {
                &&& butteraugli_fault(rw, rh, reference@.len(), dw, dh, distorted@.len()) is None
                &&& padded_for(p.0, reference@, rw, rh, 8)
                &&& padded_for(p.1, distorted@, dw, dh, 8)
            },
            Err(e) => butteraugli_fault(rw, rh, reference@.len(), dw, dh, distorted@.len())
                == Some(e@),
        },
{
    proof {
        lemma_area(rw, rh, 8);
        lemma_area(dw, dh, 8);
    }
    if reference.len() != (rw as usize) * (rh as usize) * 3 || distorted.len() != (dw as usize) * (
    dh as usize) * 3 {
        return Err(copy("butteraugli: pixel buffer is not packed w*h*3 RGB8"));
    }
    let a = pad_rgb8_to_min(reference, rw, rh, 8);
    let b = pad_rgb8_to_min(distorted, dw, dh, 8);
    Ok((a, b))
}

/// What is wrong with a pair of images for DSSIM.
pub open spec fn dssim_fault(rw: u32, rh: u32, rlen: nat, dw: u32, dh: u32, dlen: nat) -> Option<
    Seq<char>,
> {
    if rlen / 3 != rw * rh || dlen / 3 != rw * rh {
        Some("dssim: pixel count != width*height"@)
    } else if rw != dw || rh != dh {
        Some("dssim: reference and distorted dimensions differ"@)
    } else {
        None
    }
}

/// May a pair of images be given to DSSIM? Bytes after the last whole pixel do not
/// count.
pub fn check_dssim(rw: u32, rh: u32, rlen: usize, dw: u32, dh: u32, dlen: usize) -> (r: Result<
    (),
    String,
>)
    requires
        rw * rh <= usize::MAX,
    ensures
        match r {
            Ok(_) => dssim_fault(rw, rh, rlen as nat, dw, dh, dlen as nat) is None,
            Err(e) => dssim_fault(rw, rh, rlen as nat, dw, dh, dlen as nat) == Some(e@),
        },
{
    let area: usize = (rw as usize) * (rh as usize);
    if rlen / 3 != area || dlen / 3 != area {
        return Err(copy("dssim: pixel count != width*height"));
    }
    if rw != dw || rh != dh {
        return Err(copy("dssim: reference and distorted dimensions differ"));
    }
    Ok(())
}

/// Behind the edge the image goes back the way it came, without doubling the edge.
pub proof fn law_mirror_turns_back(d: nat, n: nat)
    requires
        n > 1,
        d < n,
    ensures
        mirrored((n - 1 + d) as nat, n) == n - 1 - d,
{
    let i = (n - 1 + d) as nat;
    let m = (2 * (n - 1)) as nat;
    if d < n - 1 {
        vstd::arithmetic::div_mod::lemma_small_mod(i, m);
    } else {
        assert(i == m);
        vstd::arithmetic::div_mod::lemma_mod_self_0(m as int);
    }
}

/// A padded image has the original in its corner.
pub proof fn law_padding_keeps_image(
    p: Padded,
    pixels: Seq<u8>,
    w: u32,
    h: u32,
    min: u32,
    x: int,
    y: int,
    c: int,
)
    requires
        padded_for(p, pixels, w, h, min),
        0 <= x < w,
        0 <= y < h,
        0 <= c < 3,
    ensures
        p.width >= w,
        p.height >= h,
        p.width >= min,
        p.height >= min,
        p.width == w || p.width == min,
        p.height == h || p.height == min,
        p.pixels@[(y * p.width + x) * 3 + c] == pixels[(y * w + x) * 3 + c],
{
    let pw = p.width as int;
    let ph = p.height as int;
    let k = (y * pw + x) * 3 + c;
    let cell = y * pw + x;
    assert(k / 3 == cell && k % 3 == c);
    assert(cell % pw == x && cell / pw == y) by (nonlinear_arith)
        requires
            0 <= x < pw,
            cell == y * pw + x,
    ;
    assert(0 <= cell < pw * ph) by (nonlinear_arith)
        requires
            0 <= x < pw,
            0 <= y < ph,
            cell == y * pw + x,
    ;
    assert(0 <= k < p.pixels@.len());
    law_mirror(x as nat, w as nat);
    law_mirror(y as nat, h as nat);
}

/// Images are scored exactly when their bytes are three for each pixel; one measure needs
/// images that are not empty, and one needs two images of one size.
pub proof fn law_images_refused(rw: u32, rh: u32, rlen: nat, dw: u32, dh: u32, dlen: nat)
    ensures
        ssim2_fault(rw, rh, rlen) is None <==> rw > 0 && rh > 0 && rlen == rw * rh * 3,
        butteraugli_fault(rw, rh, rlen, dw, dh, dlen) is None <==> rlen == rw * rh * 3 && dlen == dw
            * dh * 3,
        dssim_fault(rw, rh, rlen, dw, dh, dlen) is None <==> rw == dw && rh == dh && rlen / 3 == rw
            * rh && dlen / 3 == dw * dh,
{
}

} // verus!
