use vstd::prelude::*;

verus! {

/// The fixed display palette: six cycling highlight colors plus a neutral
/// default used for bytes that no highlight covers.
#[derive(Debug, Copy, Clone, PartialEq, Eq, Structural)]
pub enum Colors {
    Red,
    Green,
    Blue,
    Yellow,
    Cyan,
    Magenta,
    Normal,
}

impl Default for Colors {
    fn default() -> (c: Colors)
        ensures
            c == Colors::Normal,
    {
        Colors::Normal
    }
}

/// How many colors the cyclic palette holds (the neutral default is not part
/// of the cycle).
pub const PALETTE_SIZE: usize = 6;

/// The palette color handed to the highlight of rank `k` within its chunk:
/// the six colors repeat in a fixed order.
pub open spec fn spec_palette_color(k: nat) -> Colors {
    let r = k % 6;
    if r == 0 {
        Colors::Red
    } else if r == 1 {
        Colors::Green
    } else if r == 2 {
        Colors::Blue
    } else if r == 3 {
        Colors::Yellow
    } else if r == 4 {
        Colors::Cyan
    } else {
        Colors::Magenta
    }
}

/// Cyclic palette lookup: rank `k` maps to palette entry `k % 6`.
pub fn palette_color(k: usize) -> (c: Colors)
    ensures
        c == spec_palette_color(k as nat),
{
    let r: usize = k % PALETTE_SIZE;
    if r == 0 {
        Colors::Red
    } else if r == 1 {
        Colors::Green
    } else if r == 2 {
        Colors::Blue
    } else if r == 3 {
        Colors::Yellow
    } else if r == 4 {
        Colors::Cyan
    } else {
        Colors::Magenta
    }
}

} // verus!
