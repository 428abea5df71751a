//! Sides from which a loc may not be approached.
use vstd::prelude::*;

verus! {

pub const NORTH: u8 = 0x1;
pub const EAST: u8 = 0x2;
pub const SOUTH: u8 = 0x4;
pub const WEST: u8 = 0x8;

} // verus!
