//! A deterministic two-image compositing engine.
//!
//! The library combines two RGBA images into one output under a selectable
//! compositing mode: per-pixel photographic blending, a noise-driven hard
//! selection, a noise-driven blend-direction mix, a polar warp with
//! reflective edge sampling, or a pixel unsort that scrambles the second
//! image with the permutation discovered by sorting the first.

pub mod blend;
pub mod common;
pub mod compose;
pub mod matrix;
pub mod sortfns;
pub mod sorting;
pub mod warp;
