//! Tile collision bitmasks.
//!
//! Bits 0-8 are movement flags, bits 9-17 the projectile blockers (movement
//! flags shifted left by 9) and bits 22-30 the route blockers (movement flags
//! shifted left by 22).
use vstd::prelude::*;

verus! {

pub const OPEN: u32 = 0x0;
pub const WALL_NORTH_WEST: u32 = 0x1;
pub const WALL_NORTH: u32 = 0x2;
pub const WALL_NORTH_EAST: u32 = 0x4;
pub const WALL_EAST: u32 = 0x8;
pub const WALL_SOUTH_EAST: u32 = 0x10;
pub const WALL_SOUTH: u32 = 0x20;
pub const WALL_SOUTH_WEST: u32 = 0x40;
pub const WALL_WEST: u32 = 0x80;
pub const LOC: u32 = 0x100;

pub const WALL_NORTH_WEST_PROJ_BLOCKER: u32 = 0x200;
pub const WALL_NORTH_PROJ_BLOCKER: u32 = 0x400;
pub const WALL_NORTH_EAST_PROJ_BLOCKER: u32 = 0x800;
pub const WALL_EAST_PROJ_BLOCKER: u32 = 0x1000;
pub const WALL_SOUTH_EAST_PROJ_BLOCKER: u32 = 0x2000;
pub const WALL_SOUTH_PROJ_BLOCKER: u32 = 0x4000;
pub const WALL_SOUTH_WEST_PROJ_BLOCKER: u32 = 0x8000;
pub const WALL_WEST_PROJ_BLOCKER: u32 = 0x10000;
pub const LOC_PROJ_BLOCKER: u32 = 0x20000;

pub const FLOOR_DECORATION: u32 = 0x40000;
pub const NPC: u32 = 0x80000;
pub const PLAYER: u32 = 0x100000;
pub const FLOOR: u32 = 0x200000;

pub const WALL_NORTH_WEST_ROUTE_BLOCKER: u32 = 0x400000;
pub const WALL_NORTH_ROUTE_BLOCKER: u32 = 0x800000;
pub const WALL_NORTH_EAST_ROUTE_BLOCKER: u32 = 0x1000000;
pub const WALL_EAST_ROUTE_BLOCKER: u32 = 0x2000000;
pub const WALL_SOUTH_EAST_ROUTE_BLOCKER: u32 = 0x4000000;
pub const WALL_SOUTH_ROUTE_BLOCKER: u32 = 0x8000000;
pub const WALL_SOUTH_WEST_ROUTE_BLOCKER: u32 = 0x10000000;
pub const WALL_WEST_ROUTE_BLOCKER: u32 = 0x20000000;
pub const LOC_ROUTE_BLOCKER: u32 = 0x40000000;

pub const ROOF: u32 = 0x80000000;
/// What a tile of an unallocated zone reads as: blocks everything.
pub const NULL: u32 = 0x7FFFFFFF;

/// `FLOOR | FLOOR_DECORATION`
pub const FLOOR_BLOCKED: u32 = 0x240000;
/// `FLOOR_BLOCKED | LOC`
pub const WALK_BLOCKED: u32 = 0x240100;

pub const BLOCK_WEST: u32 = 0x240108;
pub const BLOCK_EAST: u32 = 0x240180;
pub const BLOCK_SOUTH: u32 = 0x240102;
pub const BLOCK_NORTH: u32 = 0x240120;
pub const BLOCK_SOUTH_WEST: u32 = 0x24010E;
pub const BLOCK_SOUTH_EAST: u32 = 0x240183;
pub const BLOCK_NORTH_WEST: u32 = 0x240138;
pub const BLOCK_NORTH_EAST: u32 = 0x2401E0;
pub const BLOCK_NORTH_AND_SOUTH_EAST: u32 = 0x24013E;
pub const BLOCK_NORTH_AND_SOUTH_WEST: u32 = 0x2401E3;
pub const BLOCK_NORTH_EAST_AND_WEST: u32 = 0x24018F;
pub const BLOCK_SOUTH_EAST_AND_WEST: u32 = 0x2401F8;

/// The movement tier: the eight wall directions and `LOC`.
pub const MOVEMENT: u32 = 0x1FF;
/// The route-blocker tier.
pub const ROUTE: u32 = 0x7FC00000;

/// A wall on one side of a tile is caught by the mask that blocks crossing
/// that side, whatever other bits are added to the mask: a west wall by
/// `BLOCK_EAST` (entered moving east), an east wall by `BLOCK_WEST`, a south
/// wall by `BLOCK_NORTH` and a north wall by `BLOCK_SOUTH`. No wall bit is the
/// floor bit.
pub proof fn lemma_wall_caught(f: u32, extra: u32)
    by (bit_vector)
    ensures
        f & WALL_WEST != 0 ==> f & (BLOCK_EAST | extra) != 0,
        f & WALL_EAST != 0 ==> f & (BLOCK_WEST | extra) != 0,
        f & WALL_SOUTH != 0 ==> f & (BLOCK_NORTH | extra) != 0,
        f & WALL_NORTH != 0 ==> f & (BLOCK_SOUTH | extra) != 0,
        (BLOCK_EAST | extra) & WALL_WEST == WALL_WEST,
        (BLOCK_WEST | extra) & WALL_EAST == WALL_EAST,
        (BLOCK_NORTH | extra) & WALL_SOUTH == WALL_SOUTH,
        (BLOCK_SOUTH | extra) & WALL_NORTH == WALL_NORTH,
        WALL_WEST & FLOOR == 0 && WALL_EAST & FLOOR == 0,
        WALL_SOUTH & FLOOR == 0 && WALL_NORTH & FLOOR == 0,
{
}

} // verus!
