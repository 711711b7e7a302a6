//! Colours that tell the players apart.
use vstd::prelude::*;

verus! {

/// A colour as hue (degrees), saturation and lightness (percent).
pub type HSLColor = (usize, usize, usize);

/// The colour of player `id` out of `total`: hues spread evenly round the
/// colour wheel, at half saturation and half lightness.
pub fn get_hsl_player_color(id: u8, total: u8) -> (r: HSLColor)
    requires
        total > 0,
    ensures
        r == ((id as int * 360 / total as int) as usize, 50usize, 50usize),
{
    ((id as usize) * 360 / (total as usize), 50, 50)
}

} // verus!
