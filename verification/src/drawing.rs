//! Renderer-facing primitives produced by the simulation.

use vstd::prelude::*;

verus! {

/// The colour of every body: opaque white.
pub const BODY_COLOR: u32 = 0xFFFF_FFFF;

/// A filled disc handed to the renderer. Coordinates and radius are
/// fixed-point values; the third coordinate of a planar body is zero.
#[derive(Clone, Copy, Debug, PartialEq, Eq)]
pub struct Circle {
    pub world_pos: [i64; 3],
    pub radius: i64,
    pub color: u32,
}

/// Packs four colour channels into one word, red in the highest byte and
/// alpha in the lowest.
pub fn pack_rgba_into_u32(r: u8, g: u8, b: u8, a: u8) -> (result: u32)
    ensures
        result == r * 0x100_0000 + g * 0x1_0000 + b * 0x100 + a,
{
    let result = (r as u32) << 24 | (g as u32) << 16 | (b as u32) << 8 | a as u32;
    assert(((r as u32) << 24 | (g as u32) << 16 | (b as u32) << 8 | a as u32) == r * 0x100_0000
        + g * 0x1_0000 + b * 0x100 + a) by (bit_vector);
    result
}

} // verus!
