//! Directions recorded by the breadth-first search: the side a tile was
//! entered *from*.
use vstd::prelude::*;

verus! {

pub const NORTH: i8 = 0x1;
pub const EAST: i8 = 0x2;
pub const SOUTH: i8 = 0x4;
pub const WEST: i8 = 0x8;
pub const SOUTH_WEST: i8 = 0xC;
pub const NORTH_WEST: i8 = 0x9;
pub const SOUTH_EAST: i8 = 0x6;
pub const NORTH_EAST: i8 = 0x3;

} // verus!
