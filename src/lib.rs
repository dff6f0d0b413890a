//! Shifts every pixel of an RGB image toward the nearest color of a fixed
//! palette, by a chosen fraction of the way.
//!
//! Colors are exact: a channel is a fraction of full intensity, and the
//! engine works with whole numbers throughout, so every result below is
//! stated and proved exactly.
//!
//! - `hex`: reading `rrggbb` / `#rrggbb` strings and writing `#rrggbb`.
//! - `color`: byte colors, exact fractional colors, their arithmetic, and
//!   the rounding and truncating conversions back to bytes.
//! - `shift`: the nearest-palette search and the per-pixel blend over a
//!   buffer of three bytes per pixel.
use vstd::prelude::*;

pub mod color;
pub mod hex;
pub mod shift;

verus! {

} // verus!
