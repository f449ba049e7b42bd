//! The compositor: preprocessing, per-pixel combination of the two input
//! images under a selected mode, and the final premultiplied-alpha
//! conversion.
//!
//! Floating-point work — blur radii, the fractal noise behind the Divide
//! and Mix decisions, the polar warp offsets — happens outside the
//! library; it reaches the compositor as plain values: a boolean selection
//! mask, or fixed-point source coordinates. Every per-pixel decision made
//! from those values is verified here.

use vstd::prelude::*;

use crate::blend::{blend, blend_of};
use crate::common::{BlendMode, Pixel, Raster, SortBy, SortKey, SortOrder};
use crate::matrix::{lemma_row_major_bound, Matrix};
use crate::sorting::unsort_entry;
use crate::sorting::unsort_images;
use crate::warp::{spec_reflect, warp_sample};

verus! {

/// The RGBA tuples of an image buffer, in row-major order.
pub open spec fn rgba_seq(m: Raster) -> Seq<(u8, u8, u8, u8)> {
    Seq::new(m.data@.len(), |i: int| m.data@[i].rgba())
}

pub uninterp spec fn hue_rotated(p: (u8, u8, u8, u8), deg: i32) -> (u8, u8, u8, u8);

/// Each pixel of an image buffer after a hue rotation by `deg` degrees.
pub open spec fn hue_rotated_seq(m: Raster, deg: i32) -> Seq<(u8, u8, u8, u8)> {
    Seq::new(m.data@.len(), |i: int| hue_rotated(m.data@[i].rgba(), deg))
}

pub uninterp spec fn resized(
    src: Seq<(u8, u8, u8, u8)>,
    sw: int,
    sh: int,
    dw: int,
    dh: int,
) -> Seq<(u8, u8, u8, u8)>;

/// Relies on image's `imageops::huerotate`: the hue of every pixel
/// rotated by `deg` degrees, pixel by pixel, in place in the grid.
#[verifier::external_body]
fn huerotate_raster(m: &Raster, deg: i32) -> (r: Raster)
    requires
        m.wf(),
        m.width <= u32::MAX,
        m.height <= u32::MAX,
    ensures
        r.wf(),
        r.width == m.width,
        r.height == m.height,
        r.data@.len() == m.data@.len(),
        forall|i: int|
            0 <= i < m.data@.len() ==> (#[trigger] r.data@[i]).rgba() == hue_rotated(
                m.data@[i].rgba(),
                deg,
            ),
{
    let mut v: Vec<u8> = Vec::with_capacity(4 * m.data.len());
    for p in &m.data {
        v.extend_from_slice(&[p.r, p.g, p.b, p.a]);
    }
    let buf = image::RgbaImage::from_raw(m.width as u32, m.height as u32, v).unwrap();
    let out = image::imageops::huerotate(&buf, deg);
    let data = out.pixels().map(
        |p| Pixel { r: p.0[0], g: p.0[1], b: p.0[2], a: p.0[3] },
    ).collect();
    Matrix { width: m.width, height: m.height, data }
}

/// Relies on image's `imageops::resize` with the Lanczos3 filter: a
/// high-quality resampling of the pixel grid to the target dimensions.
#[verifier::external_body]
fn resize_raster(m: &Raster, w: u32, h: u32) -> (r: Raster)
    requires
        m.wf(),
        m.width <= u32::MAX,
        m.height <= u32::MAX,
        m.width > 0,
        m.height > 0,
        w > 0,
        h > 0,
        w * h <= usize::MAX,
    ensures
        r.wf(),
        r.width == w,
        r.height == h,
        rgba_seq(r) == resized(rgba_seq(*m), m.width as int, m.height as int, w as int, h as int),
{
    let mut v: Vec<u8> = Vec::with_capacity(4 * m.data.len());
    for p in &m.data {
        v.extend_from_slice(&[p.r, p.g, p.b, p.a]);
    }
    let buf = image::RgbaImage::from_raw(m.width as u32, m.height as u32, v).unwrap();
    let out = image::imageops::resize(&buf, w, h, image::imageops::FilterType::Lanczos3);
    let data = out.pixels().map(
        |p| Pixel { r: p.0[0], g: p.0[1], b: p.0[2], a: p.0[3] },
    ).collect();
    Matrix { width: w as usize, height: h as usize, data }
}

/// Preprocess one input image: rotate its hue by the configured degrees,
/// then resample it to the output dimensions with the Lanczos3 filter.
/// (Gaussian blur, the remaining preprocessing step, is the caller's.)
pub fn prepare_image(img: &Raster, hue_deg: i32, w: u32, h: u32) -> (r: Raster)
    requires
        img.wf(),
        img.width <= u32::MAX,
        img.height <= u32::MAX,
        img.width > 0,
        img.height > 0,
        w > 0,
        h > 0,
        w * h <= usize::MAX,
    ensures
        r.wf(),
        r.width == w,
        r.height == h,
        rgba_seq(r) == resized(
            hue_rotated_seq(*img, hue_deg),
            img.width as int,
            img.height as int,
            w as int,
            h as int,
        ),
{
    let hr = huerotate_raster(img, hue_deg);
    proof {
        assert(rgba_seq(hr) =~= hue_rotated_seq(*img, hue_deg));
    }
    resize_raster(&hr, w, h)
}

/// Per-pixel blend of two equal-sized images under one blend sub-mode.
#[verifier::loop_isolation(false)]
pub fn blend_images(a: &Raster, b: &Raster, mode: BlendMode) -> (out: Raster)
    requires
        a.wf(),
        b.wf(),
        b.width == a.width,
        b.height == a.height,
    ensures
        out.wf(),
        out.width == a.width,
        out.height == a.height,
        forall|x: int, y: int|
            0 <= x < a.width && 0 <= y < a.height ==> (#[trigger] out.at(x, y)).rgba() == blend_of(
                mode,
                a.at(x, y).rgba(),
                b.at(x, y).rgba(),
            ),
{
    let w = a.width;
    let h = a.height;
    let mut data: Vec<Pixel> = Vec::new();
    let mut y: usize = 0;
    while y < h
        invariant
            y <= h,
            data.len() == y * w,
            forall|yy: int, xx: int|
                0 <= yy < y && 0 <= xx < w ==> (#[trigger] data[yy * (w as int) + xx]).rgba()
                    == blend_of(mode, a.at(xx, yy).rgba(), b.at(xx, yy).rgba()),
        decreases h - y,
    {
        let mut x: usize = 0;
        while x < w
            invariant
                x <= w,
                data.len() == y * w + x,
                forall|yy: int, xx: int|
                    0 <= yy < y && 0 <= xx < w ==> (#[trigger] data[yy * (w as int) + xx]).rgba()
                        == blend_of(mode, a.at(xx, yy).rgba(), b.at(xx, yy).rgba()),
                forall|t: int|
                    0 <= t < x ==> (#[trigger] data[(y as int) * (w as int) + t]).rgba()
                        == blend_of(mode, a.at(t, y as int).rgba(), b.at(t, y as int).rgba()),
            decreases w - x,
        {
            let pa = a.get(x, y).unwrap();
            let pb = b.get(x, y).unwrap();
            let px = blend(pa, pb, mode);
            data.push(px);
            proof {
                assert forall|yy: int, xx: int|
                    0 <= yy < y && 0 <= xx < w implies (#[trigger] data[yy * (w as int)
                    + xx]).rgba() == blend_of(mode, a.at(xx, yy).rgba(), b.at(xx, yy).rgba()) by {
                    lemma_row_major_bound(xx, yy, w as int, y as int);
                }
            }
            x = x + 1;
        }
        proof {
            assert(((y + 1) as int) * (w as int) == (y as int) * (w as int) + (w as int))
                by (nonlinear_arith);
        }
        y = y + 1;
    }
    let out = Matrix { width: w, height: h, data };
    proof {
        assert((w as int) * (h as int) == (h as int) * (w as int)) by (nonlinear_arith);
        assert forall|x: int, y2: int| 0 <= x < w && 0 <= y2 < h implies (#[trigger] out.at(
            x,
            y2,
        )).rgba() == blend_of(mode, a.at(x, y2).rgba(), b.at(x, y2).rgba()) by {
            lemma_row_major_bound(x, y2, w as int, h as int);
        }
    }
    out
}

/// Noise-driven hard selection: where the mask holds, take image 1's
/// pixel, else image 2's — no interpolation.
#[verifier::loop_isolation(false)]
pub fn divide_images(a: &Raster, b: &Raster, mask: &Matrix<bool>) -> (out: Raster)
    requires
        a.wf(),
        b.wf(),
        mask.wf(),
        b.width == a.width,
        b.height == a.height,
        mask.width == a.width,
        mask.height == a.height,
    ensures
        out.wf(),
        out.width == a.width,
        out.height == a.height,
        forall|x: int, y: int|
            0 <= x < a.width && 0 <= y < a.height ==> #[trigger] out.at(x, y) == (if mask.at(x, y) {
                a.at(x, y)
            } else {
                b.at(x, y)
            }),
{
    let w = a.width;
    let h = a.height;
    let mut data: Vec<Pixel> = Vec::new();
    let mut y: usize = 0;
    while y < h
        invariant
            y <= h,
            data.len() == y * w,
            forall|yy: int, xx: int|
                0 <= yy < y && 0 <= xx < w ==> #[trigger] data[yy * (w as int) + xx] == (if mask.at(
                    xx,
                    yy,
                ) {
                    a.at(xx, yy)
                } else {
                    b.at(xx, yy)
                }),
        decreases h - y,
    {
        let mut x: usize = 0;
        while x < w
            invariant
                x <= w,
                data.len() == y * w + x,
                forall|yy: int, xx: int|
                    0 <= yy < y && 0 <= xx < w ==> #[trigger] data[yy * (w as int) + xx] == (
                    if mask.at(xx, yy) {
                        a.at(xx, yy)
                    } else {
                        b.at(xx, yy)
                    }),
                forall|t: int|
                    0 <= t < x ==> #[trigger] data[(y as int) * (w as int) + t] == (if mask.at(
                        t,
                        y as int,
                    ) {
                        a.at(t, y as int)
                    } else {
                        b.at(t, y as int)
                    }),
            decreases w - x,
        {
            let m = mask.get(x, y).unwrap();
            let px = if m {
                a.get(x, y).unwrap()
            } else {
                b.get(x, y).unwrap()
            };
            data.push(px);
            proof {
                assert forall|yy: int, xx: int|
                    0 <= yy < y && 0 <= xx < w implies #[trigger] data[yy * (w as int) + xx] == (
                if mask.at(xx, yy) {
                    a.at(xx, yy)
                } else {
                    b.at(xx, yy)
                }) by {
                    lemma_row_major_bound(xx, yy, w as int, y as int);
                }
            }
            x = x + 1;
        }
        proof {
            assert(((y + 1) as int) * (w as int) == (y as int) * (w as int) + (w as int))
                by (nonlinear_arith);
        }
        y = y + 1;
    }
    let out = Matrix { width: w, height: h, data };
    proof {
        assert((w as int) * (h as int) == (h as int) * (w as int)) by (nonlinear_arith);
        assert forall|x: int, y2: int| 0 <= x < w && 0 <= y2 < h implies #[trigger] out.at(x, y2)
            == (if mask.at(x, y2) {
            a.at(x, y2)
        } else {
            b.at(x, y2)
        }) by {
            lemma_row_major_bound(x, y2, w as int, h as int);
        }
    }
    out
}

/// Noise-driven blend-direction switching: where the mask holds, blend
/// image 1 over image 2, else image 2 over image 1, under the same mode.
#[verifier::loop_isolation(false)]
pub fn mix_images(a: &Raster, b: &Raster, mask: &Matrix<bool>, mode: BlendMode) -> (out: Raster)
    requires
        a.wf(),
        b.wf(),
        mask.wf(),
        b.width == a.width,
        b.height == a.height,
        mask.width == a.width,
        mask.height == a.height,
    ensures
        out.wf(),
        out.width == a.width,
        out.height == a.height,
        forall|x: int, y: int|
            0 <= x < a.width && 0 <= y < a.height ==> (#[trigger] out.at(x, y)).rgba() == (
            if mask.at(x, y) {
                blend_of(mode, a.at(x, y).rgba(), b.at(x, y).rgba())
            } else {
                blend_of(mode, b.at(x, y).rgba(), a.at(x, y).rgba())
            }),
{
    let w = a.width;
    let h = a.height;
    let mut data: Vec<Pixel> = Vec::new();
    let mut y: usize = 0;
    while y < h
        invariant
            y <= h,
            data.len() == y * w,
            forall|yy: int, xx: int|
                0 <= yy < y && 0 <= xx < w ==> (#[trigger] data[yy * (w as int) + xx]).rgba() == (
                if mask.at(xx, yy) {
                    blend_of(mode, a.at(xx, yy).rgba(), b.at(xx, yy).rgba())
                } else {
                    blend_of(mode, b.at(xx, yy).rgba(), a.at(xx, yy).rgba())
                }),
        decreases h - y,
    {
        let mut x: usize = 0;
        while x < w
            invariant
                x <= w,
                data.len() == y * w + x,
                forall|yy: int, xx: int|
                    0 <= yy < y && 0 <= xx < w ==> (#[trigger] data[yy * (w as int) + xx]).rgba()
                        == (if mask.at(xx, yy) {
                        blend_of(mode, a.at(xx, yy).rgba(), b.at(xx, yy).rgba())
                    } else {
                        blend_of(mode, b.at(xx, yy).rgba(), a.at(xx, yy).rgba())
                    }),
                forall|t: int|
                    0 <= t < x ==> (#[trigger] data[(y as int) * (w as int) + t]).rgba() == (
                    if mask.at(t, y as int) {
                        blend_of(mode, a.at(t, y as int).rgba(), b.at(t, y as int).rgba())
                    } else {
                        blend_of(mode, b.at(t, y as int).rgba(), a.at(t, y as int).rgba())
                    }),
            decreases w - x,
        {
            let m = mask.get(x, y).unwrap();
            let pa = a.get(x, y).unwrap();
            let pb = b.get(x, y).unwrap();
            let px = if m {
                blend(pa, pb, mode)
            } else {
                blend(pb, pa, mode)
            };
            data.push(px);
            proof {
                assert forall|yy: int, xx: int|
                    0 <= yy < y && 0 <= xx < w implies (#[trigger] data[yy * (w as int)
                    + xx]).rgba() == (if mask.at(xx, yy) {
                    blend_of(mode, a.at(xx, yy).rgba(), b.at(xx, yy).rgba())
                } else {
                    blend_of(mode, b.at(xx, yy).rgba(), a.at(xx, yy).rgba())
                }) by {
                    lemma_row_major_bound(xx, yy, w as int, y as int);
                }
            }
            x = x + 1;
        }
        proof {
            assert(((y + 1) as int) * (w as int) == (y as int) * (w as int) + (w as int))
                by (nonlinear_arith);
        }
        y = y + 1;
    }
    let out = Matrix { width: w, height: h, data };
    proof {
        assert((w as int) * (h as int) == (h as int) * (w as int)) by (nonlinear_arith);
        assert forall|x: int, y2: int| 0 <= x < w && 0 <= y2 < h implies (#[trigger] out.at(
            x,
            y2,
        )).rgba() == (if mask.at(x, y2) {
            blend_of(mode, a.at(x, y2).rgba(), b.at(x, y2).rgba())
        } else {
            blend_of(mode, b.at(x, y2).rgba(), a.at(x, y2).rgba())
        }) by {
            lemma_row_major_bound(x, y2, w as int, h as int);
        }
    }
    out
}


/// The mode-specific input of one composite: each variant carries exactly
/// the data its mode needs, so no dispatch can reach an unmatched branch.
pub enum CompositeOp {
    /// Per-pixel blend under the given sub-mode.
    Blend(BlendMode),
    /// Hard selection by a noise mask: the caller evaluates the combined
    /// noise signal against the cutoff and hands in the outcome per pixel.
    Divide(Matrix<bool>),
    /// Blend-direction switching by a noise mask, under the sub-mode.
    Mix(Matrix<bool>, BlendMode),
    /// Polar warp: the caller computes each destination pixel's
    /// fixed-point source coordinates from the noise fields.
    Warp(Matrix<(i64, i64)>),
    /// Pixel unsort: scramble image 2 by the permutation found by
    /// sorting image 1 along the configured axes.
    Unsort(SortKey, SortBy, SortOrder, SortOrder),
}

/// Why a composite request was rejected.
#[derive(PartialEq, Eq, Structural, Clone, Copy, Debug)]
pub enum RenderError {
    /// The output would have zero area.
    EmptyOutput,
    /// The second image or the mode's auxiliary grid does not match the
    /// first image's dimensions.
    DimensionMismatch,
}

/// The second image and the mode's auxiliary grid agree with the first
/// image's dimensions.
pub open spec fn op_dims_ok(a: Raster, b: Raster, op: CompositeOp) -> bool {
    b.width == a.width && b.height == a.height && match op {
        CompositeOp::Blend(_) => true,
        CompositeOp::Divide(m) => m.wf() && m.width == a.width && m.height == a.height,
        CompositeOp::Mix(m, _) => m.wf() && m.width == a.width && m.height == a.height,
        CompositeOp::Warp(c) => c.wf() && c.width == a.width && c.height == a.height,
        CompositeOp::Unsort(_, _, _, _) => true,
    }
}

/// What the composite of the two images is, per mode, pixel for pixel.
pub open spec fn composite_spec(a: Raster, b: Raster, op: CompositeOp, out: Raster) -> bool {
    match op {
        CompositeOp::Blend(mode) => forall|x: int, y: int|
            0 <= x < a.width && 0 <= y < a.height ==> (#[trigger] out.at(x, y)).rgba() == blend_of(
                mode,
                a.at(x, y).rgba(),
                b.at(x, y).rgba(),
            ),
        CompositeOp::Divide(m) => forall|x: int, y: int|
            0 <= x < a.width && 0 <= y < a.height ==> #[trigger] out.at(x, y) == (if m.at(x, y) {
                a.at(x, y)
            } else {
                b.at(x, y)
            }),
        CompositeOp::Mix(m, mode) => forall|x: int, y: int|
            0 <= x < a.width && 0 <= y < a.height ==> (#[trigger] out.at(x, y)).rgba() == (
            if m.at(x, y) {
                blend_of(mode, a.at(x, y).rgba(), b.at(x, y).rgba())
            } else {
                blend_of(mode, b.at(x, y).rgba(), a.at(x, y).rgba())
            }),
        CompositeOp::Warp(c) => forall|x: int, y: int|
            0 <= x < a.width && 0 <= y < a.height ==> #[trigger] out.at(x, y) == a.at(
                spec_reflect(c.at(x, y).0 as int, a.width as int),
                spec_reflect(c.at(x, y).1 as int, a.height as int),
            ),
        CompositeOp::Unsort(key, by, ro, co) => forall|x: int, y: int|
            0 <= x < a.width && 0 <= y < a.height ==> #[trigger] out.at(x, y) == b.at(
                unsort_entry(a, key, by, ro, co, x, y).0 as int,
                unsort_entry(a, key, by, ro, co, x, y).1 as int,
            ),
    }
}

/// One composite: validate, then dispatch on the mode. The call succeeds
/// exactly when the output has area and every input agrees in size, and
/// the output then matches the mode's per-pixel specification; each error
/// names the check that failed, and nothing is partially built.
pub fn composite(a: &Raster, b: &Raster, op: CompositeOp) -> (r: Result<Raster, RenderError>)
    requires
        a.wf(),
        b.wf(),
        a.width <= 0x7fff_ffff_ffff_ffffi64,
        a.height <= 0x7fff_ffff_ffff_ffffi64,
        a.width * a.height <= usize::MAX,
    ensures
        r == Result::<Raster, RenderError>::Err(RenderError::EmptyOutput) <==> (a.width == 0
            || a.height == 0),
        r == Result::<Raster, RenderError>::Err(RenderError::DimensionMismatch) <==> (a.width > 0
            && a.height > 0 && !op_dims_ok(*a, *b, op)),
        r is Ok <==> (a.width > 0 && a.height > 0 && op_dims_ok(*a, *b, op)),
        r matches Ok(out) ==> out.wf() && out.width == a.width && out.height == a.height
            && composite_spec(*a, *b, op, out),
{
    if a.width == 0 || a.height == 0 {
        return Err(RenderError::EmptyOutput);
    }
    if b.width != a.width || b.height != a.height {
        return Err(RenderError::DimensionMismatch);
    }
    match op {
        CompositeOp::Blend(mode) => Ok(blend_images(a, b, mode)),
        CompositeOp::Divide(m) => {
            if m.width != a.width || m.height != a.height || m.data.len() != a.data.len() {
                return Err(RenderError::DimensionMismatch);
            }
            Ok(divide_images(a, b, &m))
        },
        CompositeOp::Mix(m, mode) => {
            if m.width != a.width || m.height != a.height || m.data.len() != a.data.len() {
                return Err(RenderError::DimensionMismatch);
            }
            Ok(mix_images(a, b, &m, mode))
        },
        CompositeOp::Warp(c) => {
            if c.width != a.width || c.height != a.height || c.data.len() != a.data.len() {
                return Err(RenderError::DimensionMismatch);
            }
            Ok(warp_sample(a, &c))
        },
        CompositeOp::Unsort(key, by, ro, co) => Ok(unsort_images(a, b, key, by, ro, co)),
    }
}

/// One channel un-premultiplied: `c * 255 / a` truncated to a byte when
/// the alpha is positive, zero otherwise.
pub open spec fn unpremult_channel(c: u8, a: u8) -> u8 {
    if a == 0 {
        0
    } else {
        (((c as int) * 255 / (a as int)) % 256) as u8
    }
}

fn unpremult(c: u8, al: u8) -> (r: u8)
    ensures
        r == unpremult_channel(c, al),
{
    if al == 0 {
        0
    } else {
        let v: u32 = (c as u32) * 255 / (al as u32);
        (v % 256) as u8
    }
}

/// The straight-alpha pixel a premultiplied RGBA quadruple converts to.
pub open spec fn unpremult_pixel(r: u8, g: u8, b: u8, a: u8) -> Pixel {
    Pixel {
        r: unpremult_channel(r, a),
        g: unpremult_channel(g, a),
        b: unpremult_channel(b, a),
        a,
    }
}

/// Convert a premultiplied-alpha RGBA byte buffer, as a drawing surface
/// hands it out, into an image with straight alpha: each colour channel
/// is scaled back by `255 / alpha`, and fully transparent pixels go
/// black.
#[verifier::loop_isolation(false)]
pub fn unpremultiply_image(data: &Vec<u8>, width: usize, height: usize) -> (out: Raster)
    requires
        data@.len() == 4 * (width * height),
    ensures
        out.wf(),
        out.width == width,
        out.height == height,
        forall|x: int, y: int|
            0 <= x < width && 0 <= y < height ==> #[trigger] out.at(x, y) == ({
                let i = 4 * (y * (width as int) + x);
                unpremult_pixel(data@[i], data@[i + 1], data@[i + 2], data@[i + 3])
            }),
{
    let w = width;
    let h = height;
    let n = data.len();
    let mut pixels: Vec<Pixel> = Vec::new();
    let mut idx: usize = 0;
    let mut y: usize = 0;
    while y < h
        invariant
            y <= h,
            idx == 4 * (y * w),
            pixels.len() == y * w,
            forall|yy: int, xx: int|
                0 <= yy < y && 0 <= xx < w ==> #[trigger] pixels[yy * (w as int) + xx] == ({
                    let i = 4 * (yy * (w as int) + xx);
                    unpremult_pixel(data@[i], data@[i + 1], data@[i + 2], data@[i + 3])
                }),
        decreases h - y,
    {
        let mut x: usize = 0;
        while x < w
            invariant
                x <= w,
                idx == 4 * (y * w + x),
                pixels.len() == y * w + x,
                forall|yy: int, xx: int|
                    0 <= yy < y && 0 <= xx < w ==> #[trigger] pixels[yy * (w as int) + xx] == ({
                        let i = 4 * (yy * (w as int) + xx);
                        unpremult_pixel(data@[i], data@[i + 1], data@[i + 2], data@[i + 3])
                    }),
                forall|t: int|
                    0 <= t < x ==> #[trigger] pixels[(y as int) * (w as int) + t] == ({
                        let i = 4 * ((y as int) * (w as int) + t);
                        unpremult_pixel(data@[i], data@[i + 1], data@[i + 2], data@[i + 3])
                    }),
            decreases w - x,
        {
            proof {
                lemma_row_major_bound(x as int, y as int, w as int, h as int);
                assert(idx + 4 <= n);
            }
            let al = data[idx + 3];
            let pr = unpremult(data[idx], al);
            let pg = unpremult(data[idx + 1], al);
            let pb = unpremult(data[idx + 2], al);
            pixels.push(Pixel { r: pr, g: pg, b: pb, a: al });
            proof {
                assert forall|yy: int, xx: int|
                    0 <= yy < y && 0 <= xx < w implies #[trigger] pixels[yy * (w as int) + xx] == ({
                    let i = 4 * (yy * (w as int) + xx);
                    unpremult_pixel(data@[i], data@[i + 1], data@[i + 2], data@[i + 3])
                }) by {
                    lemma_row_major_bound(xx, yy, w as int, y as int);
                }
            }
            idx = idx + 4;
            x = x + 1;
        }
        proof {
            assert(((y + 1) as int) * (w as int) == (y as int) * (w as int) + (w as int))
                by (nonlinear_arith);
        }
        y = y + 1;
    }
    let out = Matrix { width: w, height: h, data: pixels };
    proof {
        assert((w as int) * (h as int) == (h as int) * (w as int)) by (nonlinear_arith);
        assert forall|x: int, y2: int| 0 <= x < w && 0 <= y2 < h implies #[trigger] out.at(x, y2)
            == ({
            let i = 4 * (y2 * (w as int) + x);
            unpremult_pixel(data@[i], data@[i + 1], data@[i + 2], data@[i + 3])
        }) by {
            lemma_row_major_bound(x, y2, w as int, h as int);
        }
    }
    out
}


/// A mask that never selects image 1 — as when the noise cutoff sits
/// above every value the noise can take — hands back image 2 exactly,
/// pixel for pixel.
pub proof fn lemma_divide_unselected_is_image_two(
    a: Raster,
    b: Raster,
    m: Matrix<bool>,
    out: Raster,
)
    requires
        forall|x: int, y: int| 0 <= x < a.width && 0 <= y < a.height ==> !(#[trigger] m.at(x, y)),
        composite_spec(a, b, CompositeOp::Divide(m), out),
    ensures
        forall|x: int, y: int|
            0 <= x < a.width && 0 <= y < a.height ==> #[trigger] out.at(x, y) == b.at(x, y),
{
}

/// A mask that always selects image 1 hands back image 1 exactly.
pub proof fn lemma_divide_selected_is_image_one(
    a: Raster,
    b: Raster,
    m: Matrix<bool>,
    out: Raster,
)
    requires
        forall|x: int, y: int| 0 <= x < a.width && 0 <= y < a.height ==> #[trigger] m.at(x, y),
        composite_spec(a, b, CompositeOp::Divide(m), out),
    ensures
        forall|x: int, y: int|
            0 <= x < a.width && 0 <= y < a.height ==> #[trigger] out.at(x, y) == a.at(x, y),
{
}

} // verus!
