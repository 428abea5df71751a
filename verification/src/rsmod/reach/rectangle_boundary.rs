//! Adjacency of an entity to a rectangular loc, with walls and approach
//! restrictions taken into account.
use crate::rsmod::collision::collision::CollisionFlagMap;
use crate::rsmod::coord_grid::within_world;
use crate::rsmod::flag::block_flag;
use crate::rsmod::flag::collision_flag::{OPEN, WALL_EAST, WALL_NORTH, WALL_SOUTH, WALL_WEST};
use vstd::prelude::*;

verus! {

/// The two rectangles share at least one tile.
pub open spec fn rectangles_overlap(
    src_x: int,
    src_z: int,
    dest_x: int,
    dest_z: int,
    src_width: int,
    src_height: int,
    dest_width: int,
    dest_height: int,
) -> bool {
    &&& src_x < dest_x + dest_width
    &&& dest_x < src_x + src_width
    &&& src_z < dest_z + dest_height
    &&& dest_z < src_z + src_height
}

/// None of the bits of `mask` is set in `flag`.
pub open spec fn free_of(flag: u32, mask: u32) -> bool {
    flag & mask == OPEN
}

/// The approach side `side` is not closed off in `block_access_flags`.
pub open spec fn side_open(block_access_flags: u8, side: u8) -> bool {
    block_access_flags & side == 0
}

/// A single-tile entity touches a side of the rectangle and nothing on its own
/// tile blocks it from that side, nor is that side closed off.
pub open spec fn rectangle_1_reached(
    flags: &CollisionFlagMap,
    y: int,
    src_x: int,
    src_z: int,
    dest_x: int,
    dest_z: int,
    dest_width: int,
    dest_height: int,
    block_access_flags: u8,
) -> bool {
    let east = dest_x + dest_width - 1;
    let north = dest_z + dest_height - 1;
    let f = flags.tile_flag(src_x, src_z, y);
    ||| src_x == dest_x - 1 && dest_z <= src_z <= north && free_of(f, WALL_EAST) && side_open(
        block_access_flags,
        block_flag::WEST,
    )
    ||| src_x == east + 1 && dest_z <= src_z <= north && free_of(f, WALL_WEST) && side_open(
        block_access_flags,
        block_flag::EAST,
    )
    ||| src_z + 1 == dest_z && dest_x <= src_x <= east && free_of(f, WALL_NORTH) && side_open(
        block_access_flags,
        block_flag::SOUTH,
    )
    ||| src_z == north + 1 && dest_x <= src_x <= east && free_of(f, WALL_SOUTH) && side_open(
        block_access_flags,
        block_flag::NORTH,
    )
}

/// Some tile along the shared edge of the two rectangles is free of the wall
/// that would separate them. Only the first side (in the order east, west,
/// north, south of the destination) that the entity touches and that is not
/// closed off is considered.
pub open spec fn rectangle_n_reached(
    flags: &CollisionFlagMap,
    y: int,
    src_x: int,
    src_z: int,
    dest_x: int,
    dest_z: int,
    src_width: int,
    src_height: int,
    dest_width: int,
    dest_height: int,
    block_access_flags: u8,
) -> bool {
    let src_east = src_x + src_width;
    let src_north = src_height + src_z;
    let dest_east = dest_width + dest_x;
    let dest_north = dest_height + dest_z;
    let from_z = if src_z > dest_z { src_z } else { dest_z };
    let to_z = if src_north < dest_north { src_north } else { dest_north };
    let from_x = if src_x > dest_x { src_x } else { dest_x };
    let to_x = if src_east < dest_east { src_east } else { dest_east };
    if dest_east == src_x && side_open(block_access_flags, block_flag::EAST) {
        exists|side_z: int|
            from_z <= side_z < to_z && free_of(
                #[trigger] flags.tile_flag(dest_east - 1, side_z, y),
                WALL_EAST,
            )
    } else if src_east == dest_x && side_open(block_access_flags, block_flag::WEST) {
        exists|side_z: int|
            from_z <= side_z < to_z && free_of(#[trigger] flags.tile_flag(dest_x, side_z, y), WALL_WEST)
    } else if src_z == dest_north && side_open(block_access_flags, block_flag::NORTH) {
        exists|side_x: int|
            from_x <= side_x < to_x && free_of(
                #[trigger] flags.tile_flag(side_x, dest_north - 1, y),
                WALL_NORTH,
            )
    } else if dest_z == src_north && side_open(block_access_flags, block_flag::SOUTH) {
        exists|side_x: int|
            from_x <= side_x < to_x && free_of(#[trigger] flags.tile_flag(side_x, dest_z, y), WALL_SOUTH)
    } else {
        false
    }
}

pub fn collides(
    src_x: i32,
    src_z: i32,
    dest_x: i32,
    dest_z: i32,
    src_width: u8,
    src_height: u8,
    dest_width: u8,
    dest_height: u8,
) -> (r: bool)
    requires
        within_world(src_x as int),
        within_world(src_z as int),
        within_world(dest_x as int),
        within_world(dest_z as int),
    ensures
        r == rectangles_overlap(
            src_x as int,
            src_z as int,
            dest_x as int,
            dest_z as int,
            src_width as int,
            src_height as int,
            dest_width as int,
            dest_height as int,
        ),
{
    if src_x >= dest_x + dest_width as i32 || src_x + src_width as i32 <= dest_x {
        false
    } else {
        src_z < dest_z + dest_height as i32 && dest_z < src_height as i32 + src_z
    }
}

pub fn reach_rectangle_1(
    flags: &CollisionFlagMap,
    y: i32,
    src_x: i32,
    src_z: i32,
    dest_x: i32,
    dest_z: i32,
    dest_width: u8,
    dest_height: u8,
    block_access_flags: u8,
) -> (r: bool)
    requires
        within_world(src_x as int),
        within_world(src_z as int),
        within_world(dest_x as int),
        within_world(dest_z as int),
    ensures
        r == rectangle_1_reached(
            flags,
            y as int,
            src_x as int,
            src_z as int,
            dest_x as int,
            dest_z as int,
            dest_width as int,
            dest_height as int,
            block_access_flags,
        ),
{
    let east: i32 = dest_x + dest_width as i32 - 1;
    let north: i32 = dest_z + dest_height as i32 - 1;

    if src_x == dest_x - 1 && src_z >= dest_z && src_z <= north && (flags.get(src_x, src_z, y)
        & WALL_EAST) == OPEN && (block_access_flags & block_flag::WEST) == 0 {
        return true;
    }
    if src_x == east + 1 && src_z >= dest_z && src_z <= north && (flags.get(src_x, src_z, y)
        & WALL_WEST) == OPEN && (block_access_flags & block_flag::EAST) == 0 {
        return true;
    }
    if src_z + 1 == dest_z && src_x >= dest_x && src_x <= east && (flags.get(src_x, src_z, y)
        & WALL_NORTH) == OPEN && (block_access_flags & block_flag::SOUTH) == 0 {
        return true;
    }
    src_z == north + 1 && src_x >= dest_x && src_x <= east && (flags.get(src_x, src_z, y)
        & WALL_SOUTH) == OPEN && (block_access_flags & block_flag::NORTH) == 0
}

#[verifier::loop_isolation(false)]
pub fn reach_rectangle_n(
    flags: &CollisionFlagMap,
    y: i32,
    src_x: i32,
    src_z: i32,
    dest_x: i32,
    dest_z: i32,
    src_width: u8,
    src_height: u8,
    dest_width: u8,
    dest_height: u8,
    block_access_flags: u8,
) -> (r: bool)
    requires
        within_world(src_x as int),
        within_world(src_z as int),
        within_world(dest_x as int),
        within_world(dest_z as int),
    ensures
        r == rectangle_n_reached(
            flags,
            y as int,
            src_x as int,
            src_z as int,
            dest_x as int,
            dest_z as int,
            src_width as int,
            src_height as int,
            dest_width as int,
            dest_height as int,
            block_access_flags,
        ),
{
    let src_east: i32 = src_x + src_width as i32;
    let src_north: i32 = src_height as i32 + src_z;
    let dest_east: i32 = dest_width as i32 + dest_x;
    let dest_north: i32 = dest_height as i32 + dest_z;
    let from_z: i32 = if src_z > dest_z { src_z } else { dest_z };
    let to_z: i32 = if src_north < dest_north { src_north } else { dest_north };
    let from_x: i32 = if src_x > dest_x { src_x } else { dest_x };
    let to_x: i32 = if src_east < dest_east { src_east } else { dest_east };

    if dest_east == src_x && (block_access_flags & block_flag::EAST) == 0 {
        let mut side_z: i32 = from_z;
        while side_z < to_z
            invariant
                from_z <= side_z,
                side_z <= to_z || side_z == from_z,
                within_world(dest_x as int),
                dest_east == dest_width + dest_x,
                forall|s: int|
                    from_z <= s < side_z ==> !free_of(
                        #[trigger] flags.tile_flag(dest_east - 1, s, y as int),
                        WALL_EAST,
                    ),
            decreases to_z - side_z,
        {
            if (flags.get(dest_east - 1, side_z, y) & WALL_EAST) == OPEN {
                assert(free_of(flags.tile_flag(dest_east - 1, side_z as int, y as int), WALL_EAST));
                return true;
            }
            side_z += 1;
        }
    } else if src_east == dest_x && (block_access_flags & block_flag::WEST) == 0 {
        let mut side_z: i32 = from_z;
        while side_z < to_z
            invariant
                from_z <= side_z,
                side_z <= to_z || side_z == from_z,
                forall|s: int|
                    from_z <= s < side_z ==> !free_of(
                        #[trigger] flags.tile_flag(dest_x as int, s, y as int),
                        WALL_WEST,
                    ),
            decreases to_z - side_z,
        {
            if (flags.get(dest_x, side_z, y) & WALL_WEST) == OPEN {
                assert(free_of(flags.tile_flag(dest_x as int, side_z as int, y as int), WALL_WEST));
                return true;
            }
            side_z += 1;
        }
    } else if src_z == dest_north && (block_access_flags & block_flag::NORTH) == 0 {
        let mut side_x: i32 = from_x;
        while side_x < to_x
            invariant
                from_x <= side_x,
                side_x <= to_x || side_x == from_x,
                within_world(dest_z as int),
                dest_north == dest_height + dest_z,
                forall|s: int|
                    from_x <= s < side_x ==> !free_of(
                        #[trigger] flags.tile_flag(s, dest_north - 1, y as int),
                        WALL_NORTH,
                    ),
            decreases to_x - side_x,
        {
            if (flags.get(side_x, dest_north - 1, y) & WALL_NORTH) == OPEN {
                assert(free_of(flags.tile_flag(side_x as int, dest_north - 1, y as int), WALL_NORTH));
                return true;
            }
            side_x += 1;
        }
    } else if dest_z == src_north && (block_access_flags & block_flag::SOUTH) == 0 {
        let mut side_x: i32 = from_x;
        while side_x < to_x
            invariant
                from_x <= side_x,
                side_x <= to_x || side_x == from_x,
                forall|s: int|
                    from_x <= s < side_x ==> !free_of(
                        #[trigger] flags.tile_flag(s, dest_z as int, y as int),
                        WALL_SOUTH,
                    ),
            decreases to_x - side_x,
        {
            if (flags.get(side_x, dest_z, y) & WALL_SOUTH) == OPEN {
                assert(free_of(flags.tile_flag(side_x as int, dest_z as int, y as int), WALL_SOUTH));
                return true;
            }
            side_x += 1;
        }
    }
    false
}

} // verus!
