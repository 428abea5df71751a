//! Constants and fixed-point helpers for casting rays across tiles.
use vstd::prelude::*;

verus! {

/// `LOC_PROJ_BLOCKER | WALL_NORTH_PROJ_BLOCKER`
pub const SIGHT_BLOCKED_NORTH: u32 = 0x20400;
/// `LOC_PROJ_BLOCKER | WALL_EAST_PROJ_BLOCKER`
pub const SIGHT_BLOCKED_EAST: u32 = 0x21000;
/// `LOC_PROJ_BLOCKER | WALL_SOUTH_PROJ_BLOCKER`
pub const SIGHT_BLOCKED_SOUTH: u32 = 0x24000;
/// `LOC_PROJ_BLOCKER | WALL_WEST_PROJ_BLOCKER`
pub const SIGHT_BLOCKED_WEST: u32 = 0x30000;

/// `WALL_NORTH | WALK_BLOCKED`
pub const WALK_BLOCKED_NORTH: u32 = 0x240102;
/// `WALL_EAST | WALK_BLOCKED`
pub const WALK_BLOCKED_EAST: u32 = 0x240108;
/// `WALL_SOUTH | WALK_BLOCKED`
pub const WALK_BLOCKED_SOUTH: u32 = 0x240120;
/// `WALL_WEST | WALK_BLOCKED`
pub const WALK_BLOCKED_WEST: u32 = 0x240180;

/// Half a tile in 16.16 fixed point.
pub const HALF_TILE: i32 = 32768;

/// `b` clamped to the tiles `a ..= a + size - 1`; `a` itself when `size` is 0.
pub open spec fn clamped(a: int, b: int, size: int) -> int {
    let upper = a + size - 1;
    let r = if upper < b { upper } else { b };
    if a > r { a } else { r }
}

pub struct Line;

impl Line {
    pub fn scale_up(tiles: i32) -> (r: i32)
        requires
            -0x8000 <= tiles < 0x8000,
        ensures
            r == tiles * 65536,
    {
        assert(-0x8000 <= tiles < 0x8000 ==> tiles << 16 == tiles * 65536) by (bit_vector);
        tiles << 16
    }

    pub fn scale_down(tiles: i32) -> (r: i32)
        ensures
            r == tiles as int / 65536,
    {
        proof {
            lemma_shr16_is_floor_div(tiles);
        }
        tiles >> 16
    }

    pub fn coordinate(a: i32, b: i32, size: u8) -> (r: i32)
        requires
            i32::MIN < a + size <= i32::MAX,
        ensures
            r == clamped(a as int, b as int, size as int),
    {
        let upper = a + size as i32 - 1;
        let mut result = b;
        if upper < result {
            result = upper;
        }
        if a > result {
            result = a;
        }
        result
    }
}

/// An arithmetic shift right by 16 is floor division by 65536.
pub proof fn lemma_shr16_is_floor_div(t: i32)
    ensures
        (t >> 16) as int == t as int / 65536,
{
    let q = t >> 16;
    assert(q * 65536 <= t && t < q * 65536 + 65536) by (bit_vector)
        requires
            q == t >> 16,
    ;
}

} // verus!
