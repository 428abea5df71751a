//! Whether a tile with given collision flags can be entered when a given set of
//! blocking bits must be clear.
use crate::rsmod::flag::collision_flag::{FLOOR, MOVEMENT, NULL, OPEN, ROOF, ROUTE};
use vstd::prelude::*;

verus! {

#[derive(Clone, Copy, PartialEq, Eq, Structural, Debug)]
pub enum CollisionType {
    Normal,
    Blocked,
    Indoors,
    Outdoors,
    LineOfSight,
}

/// None of the blocking bits is set.
pub open spec fn normal_allows(tile_flag: u32, block_flag: u32) -> bool {
    tile_flag & block_flag == OPEN
}

/// The tile has a floor and none of the blocking bits other than the floor bit.
pub open spec fn blocked_allows(tile_flag: u32, block_flag: u32) -> bool {
    tile_flag & (block_flag & !FLOOR) == OPEN && tile_flag & FLOOR != OPEN
}

/// None of the blocking bits is set and the tile has a roof.
pub open spec fn indoors_allows(tile_flag: u32, block_flag: u32) -> bool {
    tile_flag & block_flag == OPEN && tile_flag & ROOF != OPEN
}

/// None of the blocking bits is set and the tile has no roof.
pub open spec fn outdoors_allows(tile_flag: u32, block_flag: u32) -> bool {
    tile_flag & (block_flag | ROOF) == OPEN
}

/// The movement bits of the blocking mask are checked as projectile blockers,
/// the route-blocker bits likewise; nothing else is checked.
pub open spec fn line_of_sight_allows(tile_flag: u32, block_flag: u32) -> bool {
    tile_flag & (((block_flag & MOVEMENT) << 9u32) | ((block_flag & ROUTE) >> 13u32)) == OPEN
}

pub open spec fn collision_allows(collision: CollisionType, tile_flag: u32, block_flag: u32) -> bool {
    match collision {
        CollisionType::Normal => normal_allows(tile_flag, block_flag),
        CollisionType::Blocked => blocked_allows(tile_flag, block_flag),
        CollisionType::Indoors => indoors_allows(tile_flag, block_flag),
        CollisionType::Outdoors => outdoors_allows(tile_flag, block_flag),
        CollisionType::LineOfSight => line_of_sight_allows(tile_flag, block_flag),
    }
}

/// The flag of a tile whose zone is absent blocks every strategy, for any
/// blocking mask with a movement bit, whatever else the mask holds.
pub proof fn lemma_null_blocks(c: CollisionType, mask: u32, extra: u32)
    requires
        mask & MOVEMENT != 0,
    ensures
        !collision_allows(c, NULL, mask | extra),
{
    let m = mask | extra;
    assert(mask & 0x1ffu32 != 0 ==> (mask | extra) & 0x1ffu32 != 0) by (bit_vector);
    assert(m & 0x1ffu32 != 0 ==> (0x7fffffffu32 & m != 0 && 0x7fffffffu32 & (m & !0x200000u32) != 0
        && 0x7fffffffu32 & (m | 0x80000000u32) != 0 && 0x7fffffffu32 & (((m & 0x1ffu32) << 9u32) | ((
    m & 0x7fc00000u32) >> 13u32)) != 0)) by (bit_vector);
}

/// A tile carrying any bit `bit` that the mask blocks (a wall, a loc; not the
/// floor bit) is refused by every strategy but the line of sight, which looks
/// at projectile blockers only.
pub proof fn lemma_blocking_bit_refuses(c: CollisionType, tile_flag: u32, bit: u32, mask: u32)
    requires
        c != CollisionType::LineOfSight,
        tile_flag & bit != 0,
        mask & bit == bit,
        bit & FLOOR == 0,
    ensures
        !collision_allows(c, tile_flag, mask),
{
    assert(tile_flag & mask != 0 && tile_flag & (mask & !FLOOR) != 0 && tile_flag & (mask | ROOF)
        != 0) by (bit_vector)
        requires
            tile_flag & bit != 0,
            mask & bit == bit,
            bit & FLOOR == 0,
    ;
}

pub trait CollisionStrategy {
    /// Whether a tile flagged `tile_flag` may be entered when the bits of
    /// `block_flag` block.
    spec fn allows(&self, tile_flag: u32, block_flag: u32) -> bool;

    fn can_move(&self, tile_flag: u32, block_flag: u32) -> (r: bool)
        ensures
            r == self.allows(tile_flag, block_flag),
    ;
}

pub struct Normal;

pub struct Blocked;

pub struct Indoors;

pub struct Outdoors;

pub struct LineOfSight;

impl CollisionStrategy for Normal {
    open spec fn allows(&self, tile_flag: u32, block_flag: u32) -> bool {
        normal_allows(tile_flag, block_flag)
    }

    fn can_move(&self, tile_flag: u32, block_flag: u32) -> (r: bool) {
        (tile_flag & block_flag) == OPEN
    }
}

impl CollisionStrategy for Blocked {
    open spec fn allows(&self, tile_flag: u32, block_flag: u32) -> bool {
        blocked_allows(tile_flag, block_flag)
    }

    fn can_move(&self, tile_flag: u32, block_flag: u32) -> (r: bool) {
        let flag = block_flag & !FLOOR;
        (tile_flag & flag) == OPEN && (tile_flag & FLOOR) != OPEN
    }
}

impl CollisionStrategy for Indoors {
    open spec fn allows(&self, tile_flag: u32, block_flag: u32) -> bool {
        indoors_allows(tile_flag, block_flag)
    }

    fn can_move(&self, tile_flag: u32, block_flag: u32) -> (r: bool) {
        (tile_flag & block_flag) == OPEN && (tile_flag & ROOF) != OPEN
    }
}

impl CollisionStrategy for Outdoors {
    open spec fn allows(&self, tile_flag: u32, block_flag: u32) -> bool {
        outdoors_allows(tile_flag, block_flag)
    }

    fn can_move(&self, tile_flag: u32, block_flag: u32) -> (r: bool) {
        (tile_flag & (block_flag | ROOF)) == OPEN
    }
}

impl CollisionStrategy for LineOfSight {
    open spec fn allows(&self, tile_flag: u32, block_flag: u32) -> bool {
        line_of_sight_allows(tile_flag, block_flag)
    }

    fn can_move(&self, tile_flag: u32, block_flag: u32) -> (r: bool) {
        let movement_flags = (block_flag & MOVEMENT) << 9u32;
        let route_flags = (block_flag & ROUTE) >> 13u32;
        (tile_flag & (movement_flags | route_flags)) == OPEN
    }
}

impl CollisionStrategy for CollisionType {
    open spec fn allows(&self, tile_flag: u32, block_flag: u32) -> bool {
        collision_allows(*self, tile_flag, block_flag)
    }

    fn can_move(&self, tile_flag: u32, block_flag: u32) -> (r: bool) {
        match self {
            CollisionType::Normal => Normal.can_move(tile_flag, block_flag),
            CollisionType::Blocked => Blocked.can_move(tile_flag, block_flag),
            CollisionType::Indoors => Indoors.can_move(tile_flag, block_flag),
            CollisionType::Outdoors => Outdoors.can_move(tile_flag, block_flag),
            CollisionType::LineOfSight => LineOfSight.can_move(tile_flag, block_flag),
        }
    }
}

} // verus!
