//! Pixel-to-scalar sort keys.
//!
//! Every key is a pure, total function over the 8-bit RGBA domain. The
//! hue/saturation family follows the standard HSL conversion, carried out
//! in exact integer arithmetic: lightness `< 1/2` compares `max + min`
//! against 255, saturation is `255 * delta` over the branch denominator,
//! and hue is the six-way channel-dominance formula wrapped into a single
//! turn, rounded half-up to centidegrees, then rescaled by `255 / 360`.

use vstd::prelude::*;

use crate::common::Pixel;
use crate::common::SortKey;

verus! {

/// A nonnegative value below `b * c` divides by `b` to below `c`.
proof fn lemma_div_bound(a: int, b: int, c: int) by (nonlinear_arith)
    requires
        b > 0,
        0 <= a < b * c,
    ensures
        0 <= a / b < c,
{
}

/// A nonnegative value of at most `b * c` divides by `b` to at most `c`.
proof fn lemma_div_le(a: int, b: int, c: int) by (nonlinear_arith)
    requires
        b > 0,
        0 <= a <= b * c,
    ensures
        0 <= a / b <= c,
{
}

/// The largest of the three colour channels.
pub open spec fn spec_max_rgb(c: Pixel) -> int {
    if c.r >= c.g && c.r >= c.b {
        c.r as int
    } else if c.g >= c.b {
        c.g as int
    } else {
        c.b as int
    }
}

/// The smallest of the three colour channels.
pub open spec fn spec_min_rgb(c: Pixel) -> int {
    if c.r <= c.g && c.r <= c.b {
        c.r as int
    } else if c.g <= c.b {
        c.g as int
    } else {
        c.b as int
    }
}

/// Perceptual brightness of `(r, g, b)`: the rec-709 weighted average
/// `(2126 r + 7152 g + 722 b) / 10000`, in `[0, 255]`.
pub open spec fn spec_luma_rgb(r: u8, g: u8, b: u8) -> int {
    (2126 * r + 7152 * g + 722 * b) / 10000
}

/// Perceptual brightness of a pixel (the alpha channel is ignored).
pub open spec fn spec_luma(c: Pixel) -> int {
    spec_luma_rgb(c.r, c.g, c.b)
}

/// HSL saturation scaled to `[0, 255]` and truncated: zero for grays,
/// else `255 * delta` over `max + min` when lightness is below one half,
/// over `510 - max - min` otherwise.
pub open spec fn spec_sat(c: Pixel) -> int {
    let mx = spec_max_rgb(c);
    let mn = spec_min_rgb(c);
    let d = mx - mn;
    let s = mx + mn;
    if d == 0 {
        0
    } else if s < 255 {
        255 * d / s
    } else {
        255 * d / (510 - s)
    }
}

/// HSL hue in centidegrees `[0, 36000)`, zero for grays: the six-way
/// channel-dominance formula as an exact fraction `num / (6 delta)` of a
/// turn, rounded half-up after scaling to centidegrees.
pub open spec fn spec_hue_cd(c: Pixel) -> int {
    let mx = spec_max_rgb(c);
    let mn = spec_min_rgb(c);
    let d = mx - mn;
    if d == 0 {
        0
    } else {
        let num0 = if c.r as int == mx {
            c.g - c.b
        } else if c.g as int == mx {
            2 * d + (c.b - c.r)
        } else {
            4 * d + (c.r - c.g)
        };
        let num = if num0 < 0 {
            num0 + 6 * d
        } else {
            num0
        };
        (12000 * num + d) / (2 * d)
    }
}

/// Hue rescaled from degrees to `[0, 255]` and truncated.
pub open spec fn spec_hue(c: Pixel) -> int {
    spec_hue_cd(c) * 255 / 36000
}

/// Hue folded to the shortest angular distance from zero degrees, then
/// rescaled to `[0, 127]` and truncated.
pub open spec fn spec_wrapped_hue(c: Pixel) -> int {
    let cd = spec_hue_cd(c);
    let w = if cd <= 36000 - cd {
        cd
    } else {
        36000 - cd
    };
    w * 255 / 36000
}

/// Chroma: the spread `max - min` of the colour channels.
pub open spec fn spec_chroma(c: Pixel) -> int {
    spec_max_rgb(c) - spec_min_rgb(c)
}

/// The key selected by a [`SortKey`]; every variant lands in `[0, 255]`.
pub open spec fn spec_key(k: SortKey, c: Pixel) -> int {
    match k {
        SortKey::Lightness => spec_luma(c),
        SortKey::Hue => spec_hue(c),
        SortKey::Saturation => spec_sat(c),
    }
}

/// The hue numerator stays inside `[0, 6 delta)`, so the centidegree hue
/// stays inside `[0, 36000)`.
pub proof fn lemma_hue_cd_range(c: Pixel)
    ensures
        0 <= spec_hue_cd(c) < 36000,
{
    let mx = spec_max_rgb(c);
    let mn = spec_min_rgb(c);
    let d = mx - mn;
    if d != 0 {
        let num0 = if c.r as int == mx {
            c.g - c.b
        } else if c.g as int == mx {
            2 * d + (c.b - c.r)
        } else {
            4 * d + (c.r - c.g)
        };
        let num = if num0 < 0 {
            num0 + 6 * d
        } else {
            num0
        };
        assert(0 <= num < 6 * d);
        assert(12000 * num + d < (2 * d) * 36000) by (nonlinear_arith)
            requires
                0 < d <= 255,
                num < 6 * d,
        ;
        lemma_div_bound(12000 * num + d, 2 * d, 36000);
    }
}

/// Every [`SortKey`] projection stays inside `[0, 255]`.
pub proof fn lemma_key_range(k: SortKey, c: Pixel)
    ensures
        0 <= spec_key(k, c) <= 255,
{
    match k {
        SortKey::Lightness => {},
        SortKey::Hue => {
            lemma_hue_cd_range(c);
            lemma_div_bound(spec_hue_cd(c) * 255, 36000, 256);
        },
        SortKey::Saturation => {
            lemma_sat_range(c);
        },
    }
}

/// Saturation stays inside `[0, 255]`.
pub proof fn lemma_sat_range(c: Pixel)
    ensures
        0 <= spec_sat(c) <= 255,
{
    let mx = spec_max_rgb(c);
    let mn = spec_min_rgb(c);
    let d = mx - mn;
    let s = mx + mn;
    if d != 0 {
        if s < 255 {
            assert(255 * d <= s * 255) by (nonlinear_arith)
                requires
                    0 < d <= s,
            ;
            lemma_div_le(255 * d, s, 255);
        } else {
            assert(d <= 510 - s);
            assert(255 * d <= (510 - s) * 255) by (nonlinear_arith)
                requires
                    0 < d <= 510 - s,
            ;
            lemma_div_le(255 * d, 510 - s, 255);
        }
    }
}

/// Relies on image's `Pixel::to_luma` for `Rgba<u8>`, which computes the
/// integer rec-709 weighted average `(2126 r + 7152 g + 722 b) / 10000`.
#[verifier::external_body]
fn luma_u8(r: u8, g: u8, b: u8, a: u8) -> (l: u8)
    ensures
        l == spec_luma_rgb(r, g, b),
{
    image::Pixel::to_luma(&image::Rgba([r, g, b, a])).0[0]
}

/// Perceptual brightness, in `[0, 255]`.
pub fn luma(c: Pixel) -> (k: i32)
    ensures
        k == spec_luma(c),
        0 <= k <= 255,
{
    let l = luma_u8(c.r, c.g, c.b, c.a);
    l as i32
}

fn max_min_rgb(c: Pixel) -> (m: (u8, u8))
    ensures
        m.0 == spec_max_rgb(c),
        m.1 == spec_min_rgb(c),
{
    let mut mx = c.r;
    let mut mn = c.r;
    if c.g > mx {
        mx = c.g;
    }
    if c.b > mx {
        mx = c.b;
    }
    if c.g < mn {
        mn = c.g;
    }
    if c.b < mn {
        mn = c.b;
    }
    (mx, mn)
}

/// HSL hue scaled to `[0, 255]`.
pub fn hue(c: Pixel) -> (k: i32)
    ensures
        k == spec_hue(c),
        0 <= k <= 255,
{
    proof {
        lemma_hue_cd_range(c);
        lemma_div_bound(spec_hue_cd(c) * 255, 36000, 256);
    }
    let (mx, mn) = max_min_rgb(c);
    let d: i32 = mx as i32 - mn as i32;
    if d == 0 {
        return 0;
    }
    let r: i32 = c.r as i32;
    let g: i32 = c.g as i32;
    let b: i32 = c.b as i32;
    let num0: i32 = if mx == c.r {
        g - b
    } else if mx == c.g {
        2 * d + (b - r)
    } else {
        4 * d + (r - g)
    };
    let num: i32 = if num0 < 0 {
        num0 + 6 * d
    } else {
        num0
    };
    let cd: i32 = (12000 * num + d) / (2 * d);
    cd * 255 / 36000
}

/// HSL saturation scaled to `[0, 255]`.
pub fn sat(c: Pixel) -> (k: i32)
    ensures
        k == spec_sat(c),
        0 <= k <= 255,
{
    proof {
        lemma_sat_range(c);
    }
    let (mx, mn) = max_min_rgb(c);
    let d: i32 = mx as i32 - mn as i32;
    let s: i32 = mx as i32 + mn as i32;
    if d == 0 {
        0
    } else if s < 255 {
        255 * d / s
    } else {
        255 * d / (510 - s)
    }
}

/// The largest colour channel, in `[0, 255]`.
pub fn max_rgb(c: Pixel) -> (k: i32)
    ensures
        k == spec_max_rgb(c),
        0 <= k <= 255,
{
    let (mx, _) = max_min_rgb(c);
    mx as i32
}

/// The smallest colour channel, in `[0, 255]`.
pub fn min_rgb(c: Pixel) -> (k: i32)
    ensures
        k == spec_min_rgb(c),
        0 <= k <= 255,
{
    let (_, mn) = max_min_rgb(c);
    mn as i32
}

/// Signed channel difference red minus green, in `[-255, 255]`.
pub fn r_g(c: Pixel) -> (k: i32)
    ensures
        k == c.r - c.g,
        -255 <= k <= 255,
{
    c.r as i32 - c.g as i32
}

/// Signed channel difference green minus blue, in `[-255, 255]`.
pub fn g_b(c: Pixel) -> (k: i32)
    ensures
        k == c.g - c.b,
        -255 <= k <= 255,
{
    c.g as i32 - c.b as i32
}

/// Signed channel difference blue minus red, in `[-255, 255]`.
pub fn b_r(c: Pixel) -> (k: i32)
    ensures
        k == c.b - c.r,
        -255 <= k <= 255,
{
    c.b as i32 - c.r as i32
}

/// Hue folded to the shortest angular distance from zero, in `[0, 127]`.
pub fn wrapped_hue(c: Pixel) -> (k: i32)
    ensures
        k == spec_wrapped_hue(c),
        0 <= k <= 127,
{
    proof {
        lemma_hue_cd_range(c);
    }
    let (mx, mn) = max_min_rgb(c);
    let d: i32 = mx as i32 - mn as i32;
    let cd: i32 = if d == 0 {
        0
    } else {
        let r: i32 = c.r as i32;
        let g: i32 = c.g as i32;
        let b: i32 = c.b as i32;
        let num0: i32 = if mx == c.r {
            g - b
        } else if mx == c.g {
            2 * d + (b - r)
        } else {
            4 * d + (r - g)
        };
        let num: i32 = if num0 < 0 {
            num0 + 6 * d
        } else {
            num0
        };
        (12000 * num + d) / (2 * d)
    };
    let w: i32 = if cd <= 36000 - cd {
        cd
    } else {
        36000 - cd
    };
    proof {
        lemma_div_bound(w * 255, 36000, 128);
    }
    w * 255 / 36000
}

/// Product of the hue and saturation keys, in `[0, 65025]`.
pub fn hue_sat(c: Pixel) -> (k: i32)
    ensures
        k == spec_hue(c) * spec_sat(c),
        0 <= k <= 65025,
{
    let h = hue(c);
    let s = sat(c);
    proof {
        assert(h * s <= 65025) by (nonlinear_arith)
            requires
                0 <= h <= 255,
                0 <= s <= 255,
        ;
    }
    h * s
}

/// Product of the luma and saturation keys, in `[0, 65025]`.
pub fn luma_sat(c: Pixel) -> (k: i32)
    ensures
        k == spec_luma(c) * spec_sat(c),
        0 <= k <= 65025,
{
    let l = luma(c);
    let s = sat(c);
    proof {
        assert(l * s <= 65025) by (nonlinear_arith)
            requires
                0 <= l <= 255,
                0 <= s <= 255,
        ;
    }
    l * s
}

/// Chroma `max - min`, in `[0, 255]`.
pub fn chroma(c: Pixel) -> (k: i32)
    ensures
        k == spec_chroma(c),
        0 <= k <= 255,
{
    let (mx, mn) = max_min_rgb(c);
    mx as i32 - mn as i32
}

/// The key a [`SortKey`] selects, always in `[0, 255]`.
pub fn sort_key_value(k: SortKey, c: Pixel) -> (v: i32)
    ensures
        v == spec_key(k, c),
        0 <= v <= 255,
{
    match k {
        SortKey::Lightness => luma(c),
        SortKey::Hue => hue(c),
        SortKey::Saturation => sat(c),
    }
}

} // verus!
