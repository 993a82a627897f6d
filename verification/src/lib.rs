//! Core of a small 2D arcade shooter that renders into a raw pixel buffer,
//! together with the offline codec that turns a monochrome glyph atlas into a
//! bit-packed, run-length-compressed byte stream embedded in the game binary.
//!
//! The heart of the crate is the font codec: 8 binary samples are packed into
//! one byte (most-significant bit first) and runs of zero bytes are collapsed
//! into `(0x00, count)` marker pairs.  The runtime expands that stream back
//! into a one-byte-per-sample alpha mask and stamps glyphs from it into the
//! display, clipping every write to the buffer bounds.

use vstd::prelude::*;

pub mod codec;
pub mod display;
pub mod entity;
pub mod font;
pub mod geom;
pub mod label;
pub mod pixel;
pub mod rng;
pub mod state;

verus! {

/// Width of the display buffer in pixels.
pub const DISPLAY_WIDTH: usize = 800;

/// Height of the display buffer in pixels.
pub const DISPLAY_HEIGHT: usize = 600;

/// Width of the glyph atlas in samples.
pub const FONT_IMAGE_WIDTH: usize = 128;

/// Height of the glyph atlas in samples.
pub const FONT_IMAGE_HEIGHT: usize = 64;

/// Number of glyph cells per atlas row.
pub const FONT_IMAGE_COLS: usize = 18;

/// Number of glyph cell rows in the atlas.
pub const FONT_IMAGE_ROWS: usize = 7;

/// Width of one glyph cell in samples: the atlas width divided by the
/// number of cell columns.
pub const FONT_CHAR_WIDTH: usize = 7;

/// Height of one glyph cell in samples: the atlas height divided by the
/// number of cell rows.
pub const FONT_CHAR_HEIGHT: usize = 9;

/// Samples packed into one byte by the codec.
pub const BITS_IN_BYTE: usize = 8;

/// Greatest number of glyph codes a label can hold.
pub const LABEL_CAPACITY: usize = 64;

/// How far, in pixels, a drop shadow sits right of and below its shape.
pub const SHADOW_OFFSET: i32 = 4;

/// Packed pixel word of the drop-shadow color.
pub const SHADOW_COLOR_WORD: u32 = 0xFF2B2B2B;

} // verus!
