//! Packing of red/green/blue components into a single pixel word.

use vstd::prelude::*;

verus! {

/// A component larger than 255 saturates to 255.
pub open spec fn clamp_255(v: usize) -> int {
    if v > 255 {
        255
    } else {
        v as int
    }
}

/// Packs three colour components into one `0x00RRGGBB` pixel word,
/// saturating each component at 255.
pub fn rgb_to_u32(red: usize, green: usize, blue: usize) -> (c: u32)
    ensures
        c == clamp_255(red) * 0x10000 + clamp_255(green) * 0x100 + clamp_255(blue),
{
    let r: u32 = if red > 255 { 255 } else { red as u32 };
    let g: u32 = if green > 255 { 255 } else { green as u32 };
    let b: u32 = if blue > 255 { 255 } else { blue as u32 };
    r * 0x10000 + g * 0x100 + b
}

} // verus!
