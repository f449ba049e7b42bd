//! The per-pixel blend operator.
//!
//! Two RGBA8 pixels are combined in linear colour space: the 8-bit sRGB
//! channels are gamma-decoded, one of the standard photographic blend
//! formulas is applied, and the result is re-encoded to 8 bits. The colour
//! mathematics is palette's; each mode's outcome is named by a spec
//! function of the two pixels, and the dispatch over [`BlendMode`] is
//! verified against those names.

use vstd::prelude::*;

use crate::common::{BlendMode, Pixel};

verus! {

pub uninterp spec fn over_of(a: (u8, u8, u8, u8), b: (u8, u8, u8, u8)) -> (u8, u8, u8, u8);

pub uninterp spec fn multiply_of(a: (u8, u8, u8, u8), b: (u8, u8, u8, u8)) -> (u8, u8, u8, u8);

pub uninterp spec fn screen_of(a: (u8, u8, u8, u8), b: (u8, u8, u8, u8)) -> (u8, u8, u8, u8);

pub uninterp spec fn overlay_of(a: (u8, u8, u8, u8), b: (u8, u8, u8, u8)) -> (u8, u8, u8, u8);

pub uninterp spec fn darken_of(a: (u8, u8, u8, u8), b: (u8, u8, u8, u8)) -> (u8, u8, u8, u8);

pub uninterp spec fn lighten_of(a: (u8, u8, u8, u8), b: (u8, u8, u8, u8)) -> (u8, u8, u8, u8);

pub uninterp spec fn dodge_of(a: (u8, u8, u8, u8), b: (u8, u8, u8, u8)) -> (u8, u8, u8, u8);

pub uninterp spec fn burn_of(a: (u8, u8, u8, u8), b: (u8, u8, u8, u8)) -> (u8, u8, u8, u8);

pub uninterp spec fn hard_light_of(a: (u8, u8, u8, u8), b: (u8, u8, u8, u8)) -> (u8, u8, u8, u8);

pub uninterp spec fn soft_light_of(a: (u8, u8, u8, u8), b: (u8, u8, u8, u8)) -> (u8, u8, u8, u8);

pub uninterp spec fn difference_of(a: (u8, u8, u8, u8), b: (u8, u8, u8, u8)) -> (u8, u8, u8, u8);

pub uninterp spec fn exclusion_of(a: (u8, u8, u8, u8), b: (u8, u8, u8, u8)) -> (u8, u8, u8, u8);

/// What each blend sub-mode computes from two pixels, by name.
pub open spec fn blend_of(mode: BlendMode, a: (u8, u8, u8, u8), b: (u8, u8, u8, u8)) -> (
    u8,
    u8,
    u8,
    u8,
) {
    match mode {
        BlendMode::Normal => over_of(a, b),
        BlendMode::Multiply => multiply_of(a, b),
        BlendMode::Screen => screen_of(a, b),
        BlendMode::Overlay => overlay_of(a, b),
        BlendMode::Darken => darken_of(a, b),
        BlendMode::Lighten => lighten_of(a, b),
        BlendMode::Dodge => dodge_of(a, b),
        BlendMode::Burn => burn_of(a, b),
        BlendMode::HardLight => hard_light_of(a, b),
        BlendMode::SoftLight => soft_light_of(a, b),
        BlendMode::Difference => difference_of(a, b),
        BlendMode::Exclusion => exclusion_of(a, b),
    }
}

/// Relies on palette's `Compose::over` on linear sRGBA: source-over alpha
/// compositing, the plain blend.
#[verifier::external_body]
fn blend_normal(p: Pixel, q: Pixel) -> (r: Pixel)
    ensures
        r.rgba() == over_of(p.rgba(), q.rgba()),
{
    let a: palette::LinSrgba = palette::Srgba::from_components((p.r, p.g, p.b, p.a)).into_linear();
    let b: palette::LinSrgba = palette::Srgba::from_components((q.r, q.g, q.b, q.a)).into_linear();
    let out = palette::Srgba::<u8>::from_linear(palette::blend::Compose::over(a, b));
    let (r8, g8, b8, a8) = out.into_components();
    Pixel { r: r8, g: g8, b: b8, a: a8 }
}

/// Relies on palette's `Blend::multiply` on linear sRGBA.
#[verifier::external_body]
fn blend_multiply(p: Pixel, q: Pixel) -> (r: Pixel)
    ensures
        r.rgba() == multiply_of(p.rgba(), q.rgba()),
{
    let a: palette::LinSrgba = palette::Srgba::from_components((p.r, p.g, p.b, p.a)).into_linear();
    let b: palette::LinSrgba = palette::Srgba::from_components((q.r, q.g, q.b, q.a)).into_linear();
    let out = palette::Srgba::<u8>::from_linear(palette::blend::Blend::multiply(a, b));
    let (r8, g8, b8, a8) = out.into_components();
    Pixel { r: r8, g: g8, b: b8, a: a8 }
}

/// Relies on palette's `Blend::screen` on linear sRGBA.
#[verifier::external_body]
fn blend_screen(p: Pixel, q: Pixel) -> (r: Pixel)
    ensures
        r.rgba() == screen_of(p.rgba(), q.rgba()),
{
    let a: palette::LinSrgba = palette::Srgba::from_components((p.r, p.g, p.b, p.a)).into_linear();
    let b: palette::LinSrgba = palette::Srgba::from_components((q.r, q.g, q.b, q.a)).into_linear();
    let out = palette::Srgba::<u8>::from_linear(palette::blend::Blend::screen(a, b));
    let (r8, g8, b8, a8) = out.into_components();
    Pixel { r: r8, g: g8, b: b8, a: a8 }
}

/// Relies on palette's `Blend::overlay` on linear sRGBA.
#[verifier::external_body]
fn blend_overlay(p: Pixel, q: Pixel) -> (r: Pixel)
    ensures
        r.rgba() == overlay_of(p.rgba(), q.rgba()),
{
    let a: palette::LinSrgba = palette::Srgba::from_components((p.r, p.g, p.b, p.a)).into_linear();
    let b: palette::LinSrgba = palette::Srgba::from_components((q.r, q.g, q.b, q.a)).into_linear();
    let out = palette::Srgba::<u8>::from_linear(palette::blend::Blend::overlay(a, b));
    let (r8, g8, b8, a8) = out.into_components();
    Pixel { r: r8, g: g8, b: b8, a: a8 }
}

/// Relies on palette's `Blend::darken` on linear sRGBA.
#[verifier::external_body]
fn blend_darken(p: Pixel, q: Pixel) -> (r: Pixel)
    ensures
        r.rgba() == darken_of(p.rgba(), q.rgba()),
{
    let a: palette::LinSrgba = palette::Srgba::from_components((p.r, p.g, p.b, p.a)).into_linear();
    let b: palette::LinSrgba = palette::Srgba::from_components((q.r, q.g, q.b, q.a)).into_linear();
    let out = palette::Srgba::<u8>::from_linear(palette::blend::Blend::darken(a, b));
    let (r8, g8, b8, a8) = out.into_components();
    Pixel { r: r8, g: g8, b: b8, a: a8 }
}

/// Relies on palette's `Blend::lighten` on linear sRGBA.
#[verifier::external_body]
fn blend_lighten(p: Pixel, q: Pixel) -> (r: Pixel)
    ensures
        r.rgba() == lighten_of(p.rgba(), q.rgba()),
{
    let a: palette::LinSrgba = palette::Srgba::from_components((p.r, p.g, p.b, p.a)).into_linear();
    let b: palette::LinSrgba = palette::Srgba::from_components((q.r, q.g, q.b, q.a)).into_linear();
    let out = palette::Srgba::<u8>::from_linear(palette::blend::Blend::lighten(a, b));
    let (r8, g8, b8, a8) = out.into_components();
    Pixel { r: r8, g: g8, b: b8, a: a8 }
}

/// Relies on palette's `Blend::dodge` on linear sRGBA.
#[verifier::external_body]
fn blend_dodge(p: Pixel, q: Pixel) -> (r: Pixel)
    ensures
        r.rgba() == dodge_of(p.rgba(), q.rgba()),
{
    let a: palette::LinSrgba = palette::Srgba::from_components((p.r, p.g, p.b, p.a)).into_linear();
    let b: palette::LinSrgba = palette::Srgba::from_components((q.r, q.g, q.b, q.a)).into_linear();
    let out = palette::Srgba::<u8>::from_linear(palette::blend::Blend::dodge(a, b));
    let (r8, g8, b8, a8) = out.into_components();
    Pixel { r: r8, g: g8, b: b8, a: a8 }
}

/// Relies on palette's `Blend::burn` on linear sRGBA.
#[verifier::external_body]
fn blend_burn(p: Pixel, q: Pixel) -> (r: Pixel)
    ensures
        r.rgba() == burn_of(p.rgba(), q.rgba()),
{
    let a: palette::LinSrgba = palette::Srgba::from_components((p.r, p.g, p.b, p.a)).into_linear();
    let b: palette::LinSrgba = palette::Srgba::from_components((q.r, q.g, q.b, q.a)).into_linear();
    let out = palette::Srgba::<u8>::from_linear(palette::blend::Blend::burn(a, b));
    let (r8, g8, b8, a8) = out.into_components();
    Pixel { r: r8, g: g8, b: b8, a: a8 }
}

/// Relies on palette's `Blend::hard_light` on linear sRGBA.
#[verifier::external_body]
fn blend_hard_light(p: Pixel, q: Pixel) -> (r: Pixel)
    ensures
        r.rgba() == hard_light_of(p.rgba(), q.rgba()),
{
    let a: palette::LinSrgba = palette::Srgba::from_components((p.r, p.g, p.b, p.a)).into_linear();
    let b: palette::LinSrgba = palette::Srgba::from_components((q.r, q.g, q.b, q.a)).into_linear();
    let out = palette::Srgba::<u8>::from_linear(palette::blend::Blend::hard_light(a, b));
    let (r8, g8, b8, a8) = out.into_components();
    Pixel { r: r8, g: g8, b: b8, a: a8 }
}

/// Relies on palette's `Blend::soft_light` on linear sRGBA.
#[verifier::external_body]
fn blend_soft_light(p: Pixel, q: Pixel) -> (r: Pixel)
    ensures
        r.rgba() == soft_light_of(p.rgba(), q.rgba()),
{
    let a: palette::LinSrgba = palette::Srgba::from_components((p.r, p.g, p.b, p.a)).into_linear();
    let b: palette::LinSrgba = palette::Srgba::from_components((q.r, q.g, q.b, q.a)).into_linear();
    let out = palette::Srgba::<u8>::from_linear(palette::blend::Blend::soft_light(a, b));
    let (r8, g8, b8, a8) = out.into_components();
    Pixel { r: r8, g: g8, b: b8, a: a8 }
}

/// Relies on palette's `Blend::difference` on linear sRGBA.
#[verifier::external_body]
fn blend_difference(p: Pixel, q: Pixel) -> (r: Pixel)
    ensures
        r.rgba() == difference_of(p.rgba(), q.rgba()),
{
    let a: palette::LinSrgba = palette::Srgba::from_components((p.r, p.g, p.b, p.a)).into_linear();
    let b: palette::LinSrgba = palette::Srgba::from_components((q.r, q.g, q.b, q.a)).into_linear();
    let out = palette::Srgba::<u8>::from_linear(palette::blend::Blend::difference(a, b));
    let (r8, g8, b8, a8) = out.into_components();
    Pixel { r: r8, g: g8, b: b8, a: a8 }
}

/// Relies on palette's `Blend::exclusion` on linear sRGBA.
#[verifier::external_body]
fn blend_exclusion(p: Pixel, q: Pixel) -> (r: Pixel)
    ensures
        r.rgba() == exclusion_of(p.rgba(), q.rgba()),
{
    let a: palette::LinSrgba = palette::Srgba::from_components((p.r, p.g, p.b, p.a)).into_linear();
    let b: palette::LinSrgba = palette::Srgba::from_components((q.r, q.g, q.b, q.a)).into_linear();
    let out = palette::Srgba::<u8>::from_linear(palette::blend::Blend::exclusion(a, b));
    let (r8, g8, b8, a8) = out.into_components();
    Pixel { r: r8, g: g8, b: b8, a: a8 }
}

/// Combine two pixels under the selected blend sub-mode, in linear colour
/// space. Deterministic and total: every mode is handled.
pub fn blend(c1: Pixel, c2: Pixel, mode: BlendMode) -> (r: Pixel)
    ensures
        r.rgba() == blend_of(mode, c1.rgba(), c2.rgba()),
{
    match mode {
        BlendMode::Normal => blend_normal(c1, c2),
        BlendMode::Multiply => blend_multiply(c1, c2),
        BlendMode::Screen => blend_screen(c1, c2),
        BlendMode::Overlay => blend_overlay(c1, c2),
        BlendMode::Darken => blend_darken(c1, c2),
        BlendMode::Lighten => blend_lighten(c1, c2),
        BlendMode::Dodge => blend_dodge(c1, c2),
        BlendMode::Burn => blend_burn(c1, c2),
        BlendMode::HardLight => blend_hard_light(c1, c2),
        BlendMode::SoftLight => blend_soft_light(c1, c2),
        BlendMode::Difference => blend_difference(c1, c2),
        BlendMode::Exclusion => blend_exclusion(c1, c2),
    }
}

} // verus!
