//! Rendering of typed text runs into a simulated dot-matrix display:
//! colors and their algebra, named color sets, pixel grids built from glyphs,
//! dot expansion through a stencil, and windowed slices for scrolling.

pub mod error;
pub mod color;
pub mod color_set;
pub mod array;
pub mod dot_array;
pub mod font;
pub mod source;
pub mod builder;
pub mod scroll;
