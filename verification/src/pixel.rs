//! 32-bit packed-channel pixels.

use vstd::prelude::*;

verus! {

/// A 32-bit pixel packing 8-bit R, G, B, A channels, with A in the most
/// significant byte and R in the least significant byte.
#[derive(Clone, Copy, PartialEq, Eq, Structural, Debug)]
pub struct Pixel(pub u32);

impl Pixel {
    /// Packs four channel values into one pixel word.
    pub fn rgba(r: u8, g: u8, b: u8, a: u8) -> (p: Pixel)
        ensures
            p.0 == (a as u32) * 0x100_0000 + (b as u32) * 0x1_0000 + (g as u32) * 0x100 + (
            r as u32),
    {
        let word = ((a as u32) << 24u32) | ((b as u32) << 16u32) | ((g as u32) << 8u32) | (
        r as u32);
        proof {
            assert(((a as u32) << 24u32) | ((b as u32) << 16u32) | ((g as u32) << 8u32) | (
            r as u32) == (a as u32) * 0x100_0000 + (b as u32) * 0x1_0000 + (g as u32) * 0x100 + (
            r as u32)) by (bit_vector);
        }
        Pixel(word)
    }
}

} // verus!
