//! Shared vocabulary of the renderer: pixels, grids and the configuration
//! enums that select a compositing mode, blend sub-mode, sort behaviour and
//! overlay colour.

use vstd::prelude::*;

use crate::matrix::Matrix;

verus! {

/// One RGBA pixel with 8-bit channels.
#[derive(Clone, Copy, PartialEq, Eq, Structural, Debug)]
pub struct Pixel {
    pub r: u8,
    pub g: u8,
    pub b: u8,
    pub a: u8,
}

impl Pixel {
    /// The channels as a plain tuple `(r, g, b, a)`.
    pub open spec fn rgba(self) -> (u8, u8, u8, u8) {
        (self.r, self.g, self.b, self.a)
    }

    pub fn new(r: u8, g: u8, b: u8, a: u8) -> (p: Pixel)
        ensures
            p == (Pixel { r, g, b, a }),
    {
        Pixel { r, g, b, a }
    }
}

/// An owned RGBA raster: a matrix of pixels.
pub type Raster = Matrix<Pixel>;

/// For each output cell, the input cell whose pixel should appear there.
pub type ImgGrid = Matrix<(usize, usize)>;

/// Top-level strategy for merging the two images.
#[derive(PartialEq, Eq, Structural, Debug, Clone, Copy)]
pub enum Combine {
    Blend,
    Divide,
    Mix,
    Warp,
    Unsort,
}

/// Colour of the optional overlay line-art.
#[derive(PartialEq, Eq, Structural, Debug, Clone, Copy)]
pub enum LineColor {
    Black,
    White,
}

/// Photographic per-pixel blend sub-modes, applied in linear colour space.
#[derive(PartialEq, Eq, Structural, Debug, Clone, Copy)]
pub enum BlendMode {
    Normal,
    Multiply,
    Screen,
    Overlay,
    Darken,
    Lighten,
    Dodge,
    Burn,
    HardLight,
    SoftLight,
    Difference,
    Exclusion,
}

/// Which axis (or ordered pair of axes) the pixel sort runs along.
#[derive(PartialEq, Eq, Structural, Debug, Clone, Copy)]
pub enum SortBy {
    Row,
    Column,
    ColRow,
    RowCol,
}

/// The pixel-to-scalar projection that orders pixels during a sort.
#[derive(PartialEq, Eq, Structural, Debug, Clone, Copy)]
pub enum SortKey {
    Lightness,
    Hue,
    Saturation,
}

/// Sort by increasing or decreasing value of the sort key.
#[derive(PartialEq, Eq, Structural, Debug, Clone, Copy)]
pub enum SortOrder {
    Ascending,
    Descending,
}

/// The sign a sort order contributes to a comparison key.
pub open spec fn spec_dir(o: SortOrder) -> int {
    match o {
        SortOrder::Ascending => 1,
        SortOrder::Descending => -1,
    }
}

impl SortOrder {
    /// `+1` for ascending, `-1` for descending.
    pub fn dir(self) -> (d: i16)
        ensures
            d == spec_dir(self),
    {
        match self {
            SortOrder::Ascending => 1,
            SortOrder::Descending => -1,
        }
    }

    /// The opposite order.
    pub fn neg(self) -> (o: SortOrder)
        ensures
            spec_dir(o) == -spec_dir(self),
    {
        match self {
            SortOrder::Ascending => SortOrder::Descending,
            SortOrder::Descending => SortOrder::Ascending,
        }
    }
}

} // verus!
