//! The palette mapper: an iteration count picks a color by its remainder by
//! the size of the palette.

use vstd::prelude::*;

verus! {

/// The place in a palette of `palette_size` colors that an iteration count maps to.
pub open spec fn palette_slot(iterations: u32, palette_size: nat) -> int {
    (iterations as int) % (palette_size as int)
}

/// The index into a palette of `palette_size` colors for an iteration count.
pub fn palette_index(iterations: u32, palette_size: usize) -> (index: usize)
    requires
        palette_size > 0,
    ensures
        index == palette_slot(iterations, palette_size as nat),
        index < palette_size,
{
    (iterations as usize) % palette_size
}

/// The color of a palette for an iteration count.
pub fn palette_color<C: Copy>(palette: &[C], iterations: u32) -> (color: C)
    requires
        palette@.len() > 0,
    ensures
        color == palette@[palette_slot(iterations, palette@.len())],
{
    palette[palette_index(iterations, palette.len())]
}

} // verus!
