//! The warp engine's verified half: reflective boundary sampling.
//!
//! The polar, noise-driven source positions are floating-point work done
//! by the caller, handed in as fixed-point subpixel coordinates (4096
//! units per pixel). This module reflects each coordinate back into the
//! image — mirroring once at either edge, then clamping — and samples the
//! image, so no lookup is ever out of bounds.

use vstd::prelude::*;

use crate::common::{Pixel, Raster};
use crate::matrix::{lemma_row_major_bound, Matrix};

verus! {

/// Reflect a fixed-point coordinate into an axis of `n` pixels: a
/// negative value mirrors at the near edge, a value past the far edge
/// mirrors there, and the pixel index is clamped into `[0, n)`.
pub open spec fn spec_reflect(c: int, n: int) -> int {
    let nf = n * 4096;
    let m = if c < 0 {
        -c
    } else if c > nf {
        2 * nf - c
    } else {
        c
    };
    let i = if m < 0 {
        0
    } else {
        m / 4096
    };
    if i >= n {
        n - 1
    } else {
        i
    }
}

/// Reflection lands inside the axis, whatever the coordinate.
pub proof fn lemma_reflect_in_range(c: int, n: int)
    requires
        n > 0,
    ensures
        0 <= spec_reflect(c, n) < n,
{
}

/// A coordinate already inside the image samples its own pixel: the
/// reflection is the identity on in-range positions.
pub proof fn lemma_reflect_identity(c: int, n: int)
    requires
        n > 0,
        0 <= c < n * 4096,
    ensures
        spec_reflect(c, n) == c / 4096,
        0 <= c / 4096 < n,
{
    assert(c / 4096 < n) by (nonlinear_arith)
        requires
            0 <= c < n * 4096,
    ;
}

fn reflect_coord(c: i64, n: usize) -> (i: usize)
    requires
        n > 0,
    ensures
        i == spec_reflect(c as int, n as int),
{
    let nf: i128 = (n as i128) * 4096;
    let cc: i128 = c as i128;
    let m: i128 = if cc < 0 {
        -cc
    } else if cc > nf {
        2 * nf - cc
    } else {
        cc
    };
    let i: i128 = if m < 0 {
        0
    } else {
        m / 4096
    };
    if i >= n as i128 {
        n - 1
    } else {
        i as usize
    }
}

/// Sample an image at caller-supplied fixed-point source coordinates with
/// reflective boundary handling: the output pixel at `(x, y)` is the
/// input pixel at the reflection of `coords(x, y)`, so every output pixel
/// is assigned exactly once and no sample is out of bounds.
#[verifier::loop_isolation(false)]
pub fn warp_sample(img: &Raster, coords: &Matrix<(i64, i64)>) -> (out: Raster)
    requires
        img.wf(),
        coords.wf(),
        coords.width == img.width,
        coords.height == img.height,
        img.width > 0,
        img.height > 0,
    ensures
        out.wf(),
        out.width == img.width,
        out.height == img.height,
        forall|x: int, y: int|
            0 <= x < out.width && 0 <= y < out.height ==> #[trigger] out.at(x, y) == img.at(
                spec_reflect(coords.at(x, y).0 as int, img.width as int),
                spec_reflect(coords.at(x, y).1 as int, img.height as int),
            ),
{
    let w = img.width;
    let h = img.height;
    let mut data: Vec<Pixel> = Vec::new();
    let mut y: usize = 0;
    while y < h
        invariant
            y <= h,
            data.len() == y * w,
            forall|yy: int, xx: int|
                0 <= yy < y && 0 <= xx < w ==> #[trigger] data[yy * (w as int) + xx] == img.at(
                    spec_reflect(coords.at(xx, yy).0 as int, w as int),
                    spec_reflect(coords.at(xx, yy).1 as int, h as int),
                ),
        decreases h - y,
    {
        let mut x: usize = 0;
        while x < w
            invariant
                x <= w,
                data.len() == y * w + x,
                forall|yy: int, xx: int|
                    0 <= yy < y && 0 <= xx < w ==> #[trigger] data[yy * (w as int) + xx] == img.at(
                        spec_reflect(coords.at(xx, yy).0 as int, w as int),
                        spec_reflect(coords.at(xx, yy).1 as int, h as int),
                    ),
                forall|t: int|
                    0 <= t < x ==> #[trigger] data[(y as int) * (w as int) + t] == img.at(
                        spec_reflect(coords.at(t, y as int).0 as int, w as int),
                        spec_reflect(coords.at(t, y as int).1 as int, h as int),
                    ),
            decreases w - x,
        {
            let c = coords.get(x, y).unwrap();
            let sx = reflect_coord(c.0, w);
            let sy = reflect_coord(c.1, h);
            proof {
                lemma_reflect_in_range(c.0 as int, w as int);
                lemma_reflect_in_range(c.1 as int, h as int);
            }
            let px = img.get(sx, sy).unwrap();
            data.push(px);
            proof {
                assert forall|yy: int, xx: int|
                    0 <= yy < y && 0 <= xx < w implies #[trigger] data[yy * (w as int) + xx]
                    == img.at(
                    spec_reflect(coords.at(xx, yy).0 as int, w as int),
                    spec_reflect(coords.at(xx, yy).1 as int, h as int),
                ) by {
                    lemma_row_major_bound(xx, yy, w as int, y as int);
                }
            }
            x = x + 1;
        }
        proof {
            assert(((y + 1) as int) * (w as int) == (y as int) * (w as int) + (w as int))
                by (nonlinear_arith);
        }
        y = y + 1;
    }
    let out = Matrix { width: w, height: h, data };
    proof {
        assert((w as int) * (h as int) == (h as int) * (w as int)) by (nonlinear_arith);
        assert forall|x: int, y2: int| 0 <= x < w && 0 <= y2 < h implies #[trigger] out.at(x, y2)
            == img.at(
            spec_reflect(coords.at(x, y2).0 as int, w as int),
            spec_reflect(coords.at(x, y2).1 as int, h as int),
        ) by {
            lemma_row_major_bound(x, y2, w as int, h as int);
        }
    }
    out
}

} // verus!
