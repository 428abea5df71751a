//! Whether an entity of a given size may take one step in one of the eight
//! directions.
use crate::rsmod::collision::collision::CollisionFlagMap;
use crate::rsmod::collision::collision_strategy::{
    lemma_null_blocks,
    lemma_blocking_bit_refuses,
    CollisionStrategy,
    CollisionType,
};
use crate::rsmod::coord_grid::within_world;
use crate::rsmod::flag::collision_flag::{
    lemma_wall_caught, FLOOR, LOC, NULL, WALL_EAST, WALL_NORTH, WALL_SOUTH, WALL_WEST,
};
use crate::rsmod::flag::collision_flag::{
    BLOCK_EAST, BLOCK_NORTH, BLOCK_NORTH_AND_SOUTH_EAST, BLOCK_NORTH_AND_SOUTH_WEST,
    BLOCK_NORTH_EAST, BLOCK_NORTH_EAST_AND_WEST, BLOCK_NORTH_WEST, BLOCK_SOUTH,
    BLOCK_SOUTH_EAST, BLOCK_SOUTH_EAST_AND_WEST, BLOCK_SOUTH_WEST, BLOCK_WEST,
};
use vstd::prelude::*;

verus! {

/// Tile `(x, z, y)` may be entered while the bits of `mask` block.
pub open spec fn tile_clear<C: CollisionStrategy>(
    flags: &CollisionFlagMap,
    collision: &C,
    x: int,
    z: int,
    y: int,
    mask: u32,
) -> bool {
    collision.allows(flags.tile_flag(x, z, y), mask)
}

pub open spec fn south_clear<C: CollisionStrategy>(
    flags: &CollisionFlagMap,
    c: &C,
    y: int,
    x: int,
    z: int,
    size: int,
    extra: u32,
) -> bool {
    if size == 1 {
        tile_clear(flags, c, x, z - 1, y, BLOCK_SOUTH | extra)
    } else if size == 2 {
        &&& tile_clear(flags, c, x, z - 1, y, BLOCK_SOUTH_WEST | extra)
        &&& tile_clear(flags, c, x + 1, z - 1, y, BLOCK_SOUTH_EAST | extra)
    } else {
        &&& tile_clear(flags, c, x, z - 1, y, BLOCK_SOUTH_WEST | extra)
        &&& tile_clear(flags, c, x + size - 1, z - 1, y, BLOCK_SOUTH_EAST | extra)
        &&& forall|mid: int|
            x + 1 <= mid < x + size - 1 ==> #[trigger] tile_clear(
                flags,
                c,
                mid,
                z - 1,
                y,
                BLOCK_NORTH_EAST_AND_WEST | extra,
            )
    }
}

pub open spec fn north_clear<C: CollisionStrategy>(
    flags: &CollisionFlagMap,
    c: &C,
    y: int,
    x: int,
    z: int,
    size: int,
    extra: u32,
) -> bool {
    if size == 1 {
        tile_clear(flags, c, x, z + 1, y, BLOCK_NORTH | extra)
    } else if size == 2 {
        &&& tile_clear(flags, c, x, z + 2, y, BLOCK_NORTH_WEST | extra)
        &&& tile_clear(flags, c, x + 1, z + 2, y, BLOCK_NORTH_EAST | extra)
    } else {
        &&& tile_clear(flags, c, x, z + size, y, BLOCK_NORTH_WEST | extra)
        &&& tile_clear(flags, c, x + size - 1, z + size, y, BLOCK_NORTH_EAST | extra)
        &&& forall|mid: int|
            x + 1 <= mid < x + size - 1 ==> #[trigger] tile_clear(
                flags,
                c,
                mid,
                z + size,
                y,
                BLOCK_SOUTH_EAST_AND_WEST | extra,
            )
    }
}

pub open spec fn west_clear<C: CollisionStrategy>(
    flags: &CollisionFlagMap,
    c: &C,
    y: int,
    x: int,
    z: int,
    size: int,
    extra: u32,
) -> bool {
    if size == 1 {
        tile_clear(flags, c, x - 1, z, y, BLOCK_WEST | extra)
    } else if size == 2 {
        &&& tile_clear(flags, c, x - 1, z, y, BLOCK_SOUTH_WEST | extra)
        &&& tile_clear(flags, c, x - 1, z + 1, y, BLOCK_NORTH_WEST | extra)
    } else {
        &&& tile_clear(flags, c, x - 1, z, y, BLOCK_SOUTH_WEST | extra)
        &&& tile_clear(flags, c, x - 1, z + size - 1, y, BLOCK_NORTH_WEST | extra)
        &&& forall|mid: int|
            z + 1 <= mid < z + size - 1 ==> #[trigger] tile_clear(
                flags,
                c,
                x - 1,
                mid,
                y,
                BLOCK_NORTH_AND_SOUTH_EAST | extra,
            )
    }
}

pub open spec fn east_clear<C: CollisionStrategy>(
    flags: &CollisionFlagMap,
    c: &C,
    y: int,
    x: int,
    z: int,
    size: int,
    extra: u32,
) -> bool {
    if size == 1 {
        tile_clear(flags, c, x + 1, z, y, BLOCK_EAST | extra)
    } else if size == 2 {
        &&& tile_clear(flags, c, x + 2, z, y, BLOCK_SOUTH_EAST | extra)
        &&& tile_clear(flags, c, x + 2, z + 1, y, BLOCK_NORTH_EAST | extra)
    } else {
        &&& tile_clear(flags, c, x + size, z, y, BLOCK_SOUTH_EAST | extra)
        &&& tile_clear(flags, c, x + size, z + size - 1, y, BLOCK_NORTH_EAST | extra)
        &&& forall|mid: int|
            z + 1 <= mid < z + size - 1 ==> #[trigger] tile_clear(
                flags,
                c,
                x + size,
                mid,
                y,
                BLOCK_NORTH_AND_SOUTH_WEST | extra,
            )
    }
}

pub open spec fn south_west_clear<C: CollisionStrategy>(
    flags: &CollisionFlagMap,
    c: &C,
    y: int,
    x: int,
    z: int,
    size: int,
    extra: u32,
) -> bool {
    if size == 1 {
        &&& tile_clear(flags, c, x - 1, z - 1, y, BLOCK_SOUTH_WEST | extra)
        &&& tile_clear(flags, c, x - 1, z, y, BLOCK_WEST | extra)
        &&& tile_clear(flags, c, x, z - 1, y, BLOCK_SOUTH | extra)
    } else if size == 2 {
        &&& tile_clear(flags, c, x - 1, z, y, BLOCK_NORTH_AND_SOUTH_EAST | extra)
        &&& tile_clear(flags, c, x - 1, z - 1, y, BLOCK_SOUTH_WEST | extra)
        &&& tile_clear(flags, c, x, z - 1, y, BLOCK_NORTH_EAST_AND_WEST | extra)
    } else {
        &&& tile_clear(flags, c, x - 1, z - 1, y, BLOCK_SOUTH_WEST | extra)
        &&& forall|mid: int|
            1 <= mid < size ==> #[trigger] tile_clear(
                flags,
                c,
                x - 1,
                z + mid - 1,
                y,
                BLOCK_NORTH_AND_SOUTH_EAST | extra,
            )
        &&& forall|mid: int|
            1 <= mid < size ==> #[trigger] tile_clear(
                flags,
                c,
                x + mid - 1,
                z - 1,
                y,
                BLOCK_NORTH_EAST_AND_WEST | extra,
            )
    }
}

pub open spec fn north_west_clear<C: CollisionStrategy>(
    flags: &CollisionFlagMap,
    c: &C,
    y: int,
    x: int,
    z: int,
    size: int,
    extra: u32,
) -> bool {
    if size == 1 {
        &&& tile_clear(flags, c, x - 1, z + 1, y, BLOCK_NORTH_WEST | extra)
        &&& tile_clear(flags, c, x - 1, z, y, BLOCK_WEST | extra)
        &&& tile_clear(flags, c, x, z + 1, y, BLOCK_NORTH | extra)
    } else if size == 2 {
        &&& tile_clear(flags, c, x - 1, z + 1, y, BLOCK_NORTH_AND_SOUTH_EAST | extra)
        &&& tile_clear(flags, c, x - 1, z + 2, y, BLOCK_NORTH_WEST | extra)
        &&& tile_clear(flags, c, x, z + 2, y, BLOCK_SOUTH_EAST_AND_WEST | extra)
    } else {
        &&& tile_clear(flags, c, x - 1, z + size, y, BLOCK_NORTH_WEST | extra)
        &&& forall|mid: int|
            1 <= mid < size ==> #[trigger] tile_clear(
                flags,
                c,
                x - 1,
                z + mid,
                y,
                BLOCK_NORTH_AND_SOUTH_EAST | extra,
            )
        &&& forall|mid: int|
            1 <= mid < size ==> #[trigger] tile_clear(
                flags,
                c,
                x + mid - 1,
                z + size,
                y,
                BLOCK_SOUTH_EAST_AND_WEST | extra,
            )
    }
}

pub open spec fn south_east_clear<C: CollisionStrategy>(
    flags: &CollisionFlagMap,
    c: &C,
    y: int,
    x: int,
    z: int,
    size: int,
    extra: u32,
) -> bool {
    if size == 1 {
        &&& tile_clear(flags, c, x + 1, z - 1, y, BLOCK_SOUTH_EAST | extra)
        &&& tile_clear(flags, c, x + 1, z, y, BLOCK_EAST | extra)
        &&& tile_clear(flags, c, x, z - 1, y, BLOCK_SOUTH | extra)
    } else if size == 2 {
        &&& tile_clear(flags, c, x + 1, z - 1, y, BLOCK_NORTH_EAST_AND_WEST | extra)
        &&& tile_clear(flags, c, x + 2, z - 1, y, BLOCK_SOUTH_EAST | extra)
        &&& tile_clear(flags, c, x + 2, z, y, BLOCK_NORTH_AND_SOUTH_WEST | extra)
    } else {
        &&& tile_clear(flags, c, x + size, z - 1, y, BLOCK_SOUTH_EAST | extra)
        &&& forall|mid: int|
            1 <= mid < size ==> #[trigger] tile_clear(
                flags,
                c,
                x + size,
                z + mid - 1,
                y,
                BLOCK_NORTH_AND_SOUTH_WEST | extra,
            )
        &&& forall|mid: int|
            1 <= mid < size ==> #[trigger] tile_clear(
                flags,
                c,
                x + mid,
                z - 1,
                y,
                BLOCK_NORTH_EAST_AND_WEST | extra,
            )
    }
}

pub open spec fn north_east_clear<C: CollisionStrategy>(
    flags: &CollisionFlagMap,
    c: &C,
    y: int,
    x: int,
    z: int,
    size: int,
    extra: u32,
) -> bool {
    if size == 1 {
        &&& tile_clear(flags, c, x + 1, z + 1, y, BLOCK_NORTH_EAST | extra)
        &&& tile_clear(flags, c, x + 1, z, y, BLOCK_EAST | extra)
        &&& tile_clear(flags, c, x, z + 1, y, BLOCK_NORTH | extra)
    } else if size == 2 {
        &&& tile_clear(flags, c, x + 1, z + 2, y, BLOCK_SOUTH_EAST_AND_WEST | extra)
        &&& tile_clear(flags, c, x + 2, z + 2, y, BLOCK_NORTH_EAST | extra)
        &&& tile_clear(flags, c, x + 2, z + 1, y, BLOCK_NORTH_AND_SOUTH_WEST | extra)
    } else {
        &&& tile_clear(flags, c, x + size, z + size, y, BLOCK_NORTH_EAST | extra)
        &&& forall|mid: int|
            1 <= mid < size ==> #[trigger] tile_clear(
                flags,
                c,
                x + mid,
                z + size,
                y,
                BLOCK_SOUTH_EAST_AND_WEST | extra,
            )
        &&& forall|mid: int|
            1 <= mid < size ==> #[trigger] tile_clear(
                flags,
                c,
                x + size,
                z + mid,
                y,
                BLOCK_NORTH_AND_SOUTH_WEST | extra,
            )
    }
}

/// Whether an entity of `size` at `(x, z)` may step by `(dx, dz)`; only the
/// eight unit steps are ever allowed.
pub open spec fn travel_allowed<C: CollisionStrategy>(
    flags: &CollisionFlagMap,
    c: &C,
    y: int,
    x: int,
    z: int,
    dx: int,
    dz: int,
    size: int,
    extra: u32,
) -> bool {
    if dx == 0 && dz == -1 {
        south_clear(flags, c, y, x, z, size, extra)
    } else if dx == 0 && dz == 1 {
        north_clear(flags, c, y, x, z, size, extra)
    } else if dx == -1 && dz == 0 {
        west_clear(flags, c, y, x, z, size, extra)
    } else if dx == 1 && dz == 0 {
        east_clear(flags, c, y, x, z, size, extra)
    } else if dx == -1 && dz == -1 {
        south_west_clear(flags, c, y, x, z, size, extra)
    } else if dx == -1 && dz == 1 {
        north_west_clear(flags, c, y, x, z, size, extra)
    } else if dx == 1 && dz == -1 {
        south_east_clear(flags, c, y, x, z, size, extra)
    } else if dx == 1 && dz == 1 {
        north_east_clear(flags, c, y, x, z, size, extra)
    } else {
        false
    }
}

fn clear<C: CollisionStrategy>(
    flags: &CollisionFlagMap,
    collision: &C,
    x: i32,
    z: i32,
    y: i32,
    mask: u32,
) -> (r: bool)
    ensures
        r == tile_clear(flags, collision, x as int, z as int, y as int, mask),
{
    collision.can_move(flags.get(x, z, y), mask)
}

pub fn can_travel<C: CollisionStrategy>(
    flags: &CollisionFlagMap,
    y: i32,
    x: i32,
    z: i32,
    offset_x: i8,
    offset_z: i8,
    size: u8,
    extra_flag: u32,
    collision: &C,
) -> (r: bool)
    requires
        within_world(x as int),
        within_world(z as int),
    ensures
        r == travel_allowed(
            flags,
            collision,
            y as int,
            x as int,
            z as int,
            offset_x as int,
            offset_z as int,
            size as int,
            extra_flag,
        ),
{
    match (offset_x, offset_z) {
        (0, -1) => !is_blocked_south(flags, y, x, z, size, extra_flag, collision),
        (0, 1) => !is_blocked_north(flags, y, x, z, size, extra_flag, collision),
        (-1, 0) => !is_blocked_west(flags, y, x, z, size, extra_flag, collision),
        (1, 0) => !is_blocked_east(flags, y, x, z, size, extra_flag, collision),
        (-1, -1) => !is_blocked_southwest(flags, y, x, z, size, extra_flag, collision),
        (-1, 1) => !is_blocked_northwest(flags, y, x, z, size, extra_flag, collision),
        (1, -1) => !is_blocked_southeast(flags, y, x, z, size, extra_flag, collision),
        (1, 1) => !is_blocked_northeast(flags, y, x, z, size, extra_flag, collision),
        _ => false,
    }
}

fn is_blocked_south<C: CollisionStrategy>(
    flags: &CollisionFlagMap,
    y: i32,
    x: i32,
    z: i32,
    size: u8,
    extra_flag: u32,
    collision: &C,
) -> (r: bool)
    requires
        within_world(x as int),
        within_world(z as int),
    ensures
        r == !south_clear(flags, collision, y as int, x as int, z as int, size as int, extra_flag),
{
    match size {
        1 => !clear(flags, collision, x, z - 1, y, BLOCK_SOUTH | extra_flag),
        2 => {
            !clear(flags, collision, x, z - 1, y, BLOCK_SOUTH_WEST | extra_flag) || !clear(
                flags,
                collision,
                x + 1,
                z - 1,
                y,
                BLOCK_SOUTH_EAST | extra_flag,
            )
        },
        _ => {
            if !clear(flags, collision, x, z - 1, y, BLOCK_SOUTH_WEST | extra_flag) || !clear(
                flags,
                collision,
                x + size as i32 - 1,
                z - 1,
                y,
                BLOCK_SOUTH_EAST | extra_flag,
            ) {
                return true;
            }
            let end: i32 = x + size as i32 - 1;
            let mut mid: i32 = x + 1;
            while mid < end
                invariant
                    within_world(x as int),
                    within_world(z as int),
                    end == x + size - 1,
                    x + 1 <= mid,
                    mid <= end || mid == x + 1,
                    forall|m: int|
                        x + 1 <= m < mid ==> #[trigger] tile_clear(
                            flags,
                            collision,
                            m,
                            z - 1,
                            y as int,
                            BLOCK_NORTH_EAST_AND_WEST | extra_flag,
                        ),
                decreases end - mid,
            {
                if !clear(flags, collision, mid, z - 1, y, BLOCK_NORTH_EAST_AND_WEST | extra_flag) {
                    return true;
                }
                mid += 1;
            }
            false
        },
    }
}

fn is_blocked_north<C: CollisionStrategy>(
    flags: &CollisionFlagMap,
    y: i32,
    x: i32,
    z: i32,
    size: u8,
    extra_flag: u32,
    collision: &C,
) -> (r: bool)
    requires
        within_world(x as int),
        within_world(z as int),
    ensures
        r == !north_clear(flags, collision, y as int, x as int, z as int, size as int, extra_flag),
{
    match size {
        1 => !clear(flags, collision, x, z + 1, y, BLOCK_NORTH | extra_flag),
        2 => {
            !clear(flags, collision, x, z + 2, y, BLOCK_NORTH_WEST | extra_flag) || !clear(
                flags,
                collision,
                x + 1,
                z + 2,
                y,
                BLOCK_NORTH_EAST | extra_flag,
            )
        },
        _ => {
            if !clear(flags, collision, x, z + size as i32, y, BLOCK_NORTH_WEST | extra_flag)
                || !clear(
                flags,
                collision,
                x + size as i32 - 1,
                z + size as i32,
                y,
                BLOCK_NORTH_EAST | extra_flag,
            ) {
                return true;
            }
            let end: i32 = x + size as i32 - 1;
            let mut mid: i32 = x + 1;
            while mid < end
                invariant
                    within_world(x as int),
                    within_world(z as int),
                    end == x + size - 1,
                    x + 1 <= mid,
                    mid <= end || mid == x + 1,
                    forall|m: int|
                        x + 1 <= m < mid ==> #[trigger] tile_clear(
                            flags,
                            collision,
                            m,
                            z + size,
                            y as int,
                            BLOCK_SOUTH_EAST_AND_WEST | extra_flag,
                        ),
                decreases end - mid,
            {
                if !clear(
                    flags,
                    collision,
                    mid,
                    z + size as i32,
                    y,
                    BLOCK_SOUTH_EAST_AND_WEST | extra_flag,
                ) {
                    return true;
                }
                mid += 1;
            }
            false
        },
    }
}

fn is_blocked_west<C: CollisionStrategy>(
    flags: &CollisionFlagMap,
    y: i32,
    x: i32,
    z: i32,
    size: u8,
    extra_flag: u32,
    collision: &C,
) -> (r: bool)
    requires
        within_world(x as int),
        within_world(z as int),
    ensures
        r == !west_clear(flags, collision, y as int, x as int, z as int, size as int, extra_flag),
{
    match size {
        1 => !clear(flags, collision, x - 1, z, y, BLOCK_WEST | extra_flag),
        2 => {
            !clear(flags, collision, x - 1, z, y, BLOCK_SOUTH_WEST | extra_flag) || !clear(
                flags,
                collision,
                x - 1,
                z + 1,
                y,
                BLOCK_NORTH_WEST | extra_flag,
            )
        },
        _ => {
            if !clear(flags, collision, x - 1, z, y, BLOCK_SOUTH_WEST | extra_flag) || !clear(
                flags,
                collision,
                x - 1,
                z + size as i32 - 1,
                y,
                BLOCK_NORTH_WEST | extra_flag,
            ) {
                return true;
            }
            let end: i32 = z + size as i32 - 1;
            let mut mid: i32 = z + 1;
            while mid < end
                invariant
                    within_world(x as int),
                    within_world(z as int),
                    end == z + size - 1,
                    z + 1 <= mid,
                    mid <= end || mid == z + 1,
                    forall|m: int|
                        z + 1 <= m < mid ==> #[trigger] tile_clear(
                            flags,
                            collision,
                            x - 1,
                            m,
                            y as int,
                            BLOCK_NORTH_AND_SOUTH_EAST | extra_flag,
                        ),
                decreases end - mid,
            {
                if !clear(flags, collision, x - 1, mid, y, BLOCK_NORTH_AND_SOUTH_EAST | extra_flag) {
                    return true;
                }
                mid += 1;
            }
            false
        },
    }
}

fn is_blocked_east<C: CollisionStrategy>(
    flags: &CollisionFlagMap,
    y: i32,
    x: i32,
    z: i32,
    size: u8,
    extra_flag: u32,
    collision: &C,
) -> (r: bool)
    requires
        within_world(x as int),
        within_world(z as int),
    ensures
        r == !east_clear(flags, collision, y as int, x as int, z as int, size as int, extra_flag),
{
    match size {
        1 => !clear(flags, collision, x + 1, z, y, BLOCK_EAST | extra_flag),
        2 => {
            !clear(flags, collision, x + 2, z, y, BLOCK_SOUTH_EAST | extra_flag) || !clear(
                flags,
                collision,
                x + 2,
                z + 1,
                y,
                BLOCK_NORTH_EAST | extra_flag,
            )
        },
        _ => {
            if !clear(flags, collision, x + size as i32, z, y, BLOCK_SOUTH_EAST | extra_flag)
                || !clear(
                flags,
                collision,
                x + size as i32,
                z + size as i32 - 1,
                y,
                BLOCK_NORTH_EAST | extra_flag,
            ) {
                return true;
            }
            let end: i32 = z + size as i32 - 1;
            let mut mid: i32 = z + 1;
            while mid < end
                invariant
                    within_world(x as int),
                    within_world(z as int),
                    end == z + size - 1,
                    z + 1 <= mid,
                    mid <= end || mid == z + 1,
                    forall|m: int|
                        z + 1 <= m < mid ==> #[trigger] tile_clear(
                            flags,
                            collision,
                            x + size,
                            m,
                            y as int,
                            BLOCK_NORTH_AND_SOUTH_WEST | extra_flag,
                        ),
                decreases end - mid,
            {
                if !clear(
                    flags,
                    collision,
                    x + size as i32,
                    mid,
                    y,
                    BLOCK_NORTH_AND_SOUTH_WEST | extra_flag,
                ) {
                    return true;
                }
                mid += 1;
            }
            false
        },
    }
}

fn is_blocked_southwest<C: CollisionStrategy>(
    flags: &CollisionFlagMap,
    y: i32,
    x: i32,
    z: i32,
    size: u8,
    extra_flag: u32,
    collision: &C,
) -> (r: bool)
    requires
        within_world(x as int),
        within_world(z as int),
    ensures
        r == !south_west_clear(
            flags,
            collision,
            y as int,
            x as int,
            z as int,
            size as int,
            extra_flag,
        ),
{
    match size {
        1 => {
            !clear(flags, collision, x - 1, z - 1, y, BLOCK_SOUTH_WEST | extra_flag) || !clear(
                flags,
                collision,
                x - 1,
                z,
                y,
                BLOCK_WEST | extra_flag,
            ) || !clear(flags, collision, x, z - 1, y, BLOCK_SOUTH | extra_flag)
        },
        2 => {
            !clear(flags, collision, x - 1, z, y, BLOCK_NORTH_AND_SOUTH_EAST | extra_flag)
                || !clear(flags, collision, x - 1, z - 1, y, BLOCK_SOUTH_WEST | extra_flag)
                || !clear(flags, collision, x, z - 1, y, BLOCK_NORTH_EAST_AND_WEST | extra_flag)
        },
        _ => {
            if !clear(flags, collision, x - 1, z - 1, y, BLOCK_SOUTH_WEST | extra_flag) {
                return true;
            }
            let mut mid: u8 = 1;
            while mid < size
                invariant
                    within_world(x as int),
                    within_world(z as int),
                    1 <= mid,
                    mid <= size || mid == 1,
                    forall|m: int|
                        1 <= m < mid ==> #[trigger] tile_clear(
                            flags,
                            collision,
                            x - 1,
                            z + m - 1,
                            y as int,
                            BLOCK_NORTH_AND_SOUTH_EAST | extra_flag,
                        ),
                    forall|m: int|
                        1 <= m < mid ==> #[trigger] tile_clear(
                            flags,
                            collision,
                            x + m - 1,
                            z - 1,
                            y as int,
                            BLOCK_NORTH_EAST_AND_WEST | extra_flag,
                        ),
                decreases size - mid,
            {
                if !clear(
                    flags,
                    collision,
                    x - 1,
                    z + mid as i32 - 1,
                    y,
                    BLOCK_NORTH_AND_SOUTH_EAST | extra_flag,
                ) || !clear(
                    flags,
                    collision,
                    x + mid as i32 - 1,
                    z - 1,
                    y,
                    BLOCK_NORTH_EAST_AND_WEST | extra_flag,
                ) {
                    return true;
                }
                mid += 1;
            }
            false
        },
    }
}

fn is_blocked_northwest<C: CollisionStrategy>(
    flags: &CollisionFlagMap,
    y: i32,
    x: i32,
    z: i32,
    size: u8,
    extra_flag: u32,
    collision: &C,
) -> (r: bool)
    requires
        within_world(x as int),
        within_world(z as int),
    ensures
        r == !north_west_clear(
            flags,
            collision,
            y as int,
            x as int,
            z as int,
            size as int,
            extra_flag,
        ),
{
    match size {
        1 => {
            !clear(flags, collision, x - 1, z + 1, y, BLOCK_NORTH_WEST | extra_flag) || !clear(
                flags,
                collision,
                x - 1,
                z,
                y,
                BLOCK_WEST | extra_flag,
            ) || !clear(flags, collision, x, z + 1, y, BLOCK_NORTH | extra_flag)
        },
        2 => {
            !clear(flags, collision, x - 1, z + 1, y, BLOCK_NORTH_AND_SOUTH_EAST | extra_flag)
                || !clear(flags, collision, x - 1, z + 2, y, BLOCK_NORTH_WEST | extra_flag)
                || !clear(flags, collision, x, z + 2, y, BLOCK_SOUTH_EAST_AND_WEST | extra_flag)
        },
        _ => {
            if !clear(flags, collision, x - 1, z + size as i32, y, BLOCK_NORTH_WEST | extra_flag) {
                return true;
            }
            let mut mid: u8 = 1;
            while mid < size
                invariant
                    within_world(x as int),
                    within_world(z as int),
                    1 <= mid,
                    mid <= size || mid == 1,
                    forall|m: int|
                        1 <= m < mid ==> #[trigger] tile_clear(
                            flags,
                            collision,
                            x - 1,
                            z + m,
                            y as int,
                            BLOCK_NORTH_AND_SOUTH_EAST | extra_flag,
                        ),
                    forall|m: int|
                        1 <= m < mid ==> #[trigger] tile_clear(
                            flags,
                            collision,
                            x + m - 1,
                            z + size,
                            y as int,
                            BLOCK_SOUTH_EAST_AND_WEST | extra_flag,
                        ),
                decreases size - mid,
            {
                if !clear(
                    flags,
                    collision,
                    x - 1,
                    z + mid as i32,
                    y,
                    BLOCK_NORTH_AND_SOUTH_EAST | extra_flag,
                ) || !clear(
                    flags,
                    collision,
                    x + mid as i32 - 1,
                    z + size as i32,
                    y,
                    BLOCK_SOUTH_EAST_AND_WEST | extra_flag,
                ) {
                    return true;
                }
                mid += 1;
            }
            false
        },
    }
}

fn is_blocked_southeast<C: CollisionStrategy>(
    flags: &CollisionFlagMap,
    y: i32,
    x: i32,
    z: i32,
    size: u8,
    extra_flag: u32,
    collision: &C,
) -> (r: bool)
    requires
        within_world(x as int),
        within_world(z as int),
    ensures
        r == !south_east_clear(
            flags,
            collision,
            y as int,
            x as int,
            z as int,
            size as int,
            extra_flag,
        ),
{
    match size {
        1 => {
            !clear(flags, collision, x + 1, z - 1, y, BLOCK_SOUTH_EAST | extra_flag) || !clear(
                flags,
                collision,
                x + 1,
                z,
                y,
                BLOCK_EAST | extra_flag,
            ) || !clear(flags, collision, x, z - 1, y, BLOCK_SOUTH | extra_flag)
        },
        2 => {
            !clear(flags, collision, x + 1, z - 1, y, BLOCK_NORTH_EAST_AND_WEST | extra_flag)
                || !clear(flags, collision, x + 2, z - 1, y, BLOCK_SOUTH_EAST | extra_flag)
                || !clear(flags, collision, x + 2, z, y, BLOCK_NORTH_AND_SOUTH_WEST | extra_flag)
        },
        _ => {
            if !clear(flags, collision, x + size as i32, z - 1, y, BLOCK_SOUTH_EAST | extra_flag) {
                return true;
            }
            let mut mid: u8 = 1;
            while mid < size
                invariant
                    within_world(x as int),
                    within_world(z as int),
                    1 <= mid,
                    mid <= size || mid == 1,
                    forall|m: int|
                        1 <= m < mid ==> #[trigger] tile_clear(
                            flags,
                            collision,
                            x + size,
                            z + m - 1,
                            y as int,
                            BLOCK_NORTH_AND_SOUTH_WEST | extra_flag,
                        ),
                    forall|m: int|
                        1 <= m < mid ==> #[trigger] tile_clear(
                            flags,
                            collision,
                            x + m,
                            z - 1,
                            y as int,
                            BLOCK_NORTH_EAST_AND_WEST | extra_flag,
                        ),
                decreases size - mid,
            {
                if !clear(
                    flags,
                    collision,
                    x + size as i32,
                    z + mid as i32 - 1,
                    y,
                    BLOCK_NORTH_AND_SOUTH_WEST | extra_flag,
                ) || !clear(
                    flags,
                    collision,
                    x + mid as i32,
                    z - 1,
                    y,
                    BLOCK_NORTH_EAST_AND_WEST | extra_flag,
                ) {
                    return true;
                }
                mid += 1;
            }
            false
        },
    }
}

fn is_blocked_northeast<C: CollisionStrategy>(
    flags: &CollisionFlagMap,
    y: i32,
    x: i32,
    z: i32,
    size: u8,
    extra_flag: u32,
    collision: &C,
) -> (r: bool)
    requires
        within_world(x as int),
        within_world(z as int),
    ensures
        r == !north_east_clear(
            flags,
            collision,
            y as int,
            x as int,
            z as int,
            size as int,
            extra_flag,
        ),
{
    match size {
        1 => {
            !clear(flags, collision, x + 1, z + 1, y, BLOCK_NORTH_EAST | extra_flag) || !clear(
                flags,
                collision,
                x + 1,
                z,
                y,
                BLOCK_EAST | extra_flag,
            ) || !clear(flags, collision, x, z + 1, y, BLOCK_NORTH | extra_flag)
        },
        2 => {
            !clear(flags, collision, x + 1, z + 2, y, BLOCK_SOUTH_EAST_AND_WEST | extra_flag)
                || !clear(flags, collision, x + 2, z + 2, y, BLOCK_NORTH_EAST | extra_flag)
                || !clear(flags, collision, x + 2, z + 1, y, BLOCK_NORTH_AND_SOUTH_WEST | extra_flag)
        },
        _ => {
            if !clear(
                flags,
                collision,
                x + size as i32,
                z + size as i32,
                y,
                BLOCK_NORTH_EAST | extra_flag,
            ) {
                return true;
            }
            let mut mid: u8 = 1;
            while mid < size
                invariant
                    within_world(x as int),
                    within_world(z as int),
                    1 <= mid,
                    mid <= size || mid == 1,
                    forall|m: int|
                        1 <= m < mid ==> #[trigger] tile_clear(
                            flags,
                            collision,
                            x + m,
                            z + size,
                            y as int,
                            BLOCK_SOUTH_EAST_AND_WEST | extra_flag,
                        ),
                    forall|m: int|
                        1 <= m < mid ==> #[trigger] tile_clear(
                            flags,
                            collision,
                            x + size,
                            z + m,
                            y as int,
                            BLOCK_NORTH_AND_SOUTH_WEST | extra_flag,
                        ),
                decreases size - mid,
            {
                if !clear(
                    flags,
                    collision,
                    x + mid as i32,
                    z + size as i32,
                    y,
                    BLOCK_SOUTH_EAST_AND_WEST | extra_flag,
                ) || !clear(
                    flags,
                    collision,
                    x + size as i32,
                    z + mid as i32,
                    y,
                    BLOCK_NORTH_AND_SOUTH_WEST | extra_flag,
                ) {
                    return true;
                }
                mid += 1;
            }
            false
        },
    }
}


/// A one-tile entity never steps onto a tile whose zone is absent, whatever
/// its collision strategy and extra blocking bits.
pub proof fn lemma_absent_zone_blocks_step(
    flags: &CollisionFlagMap,
    c: CollisionType,
    y: int,
    x: int,
    z: int,
    dx: int,
    dz: int,
    extra: u32,
)
    requires
        !flags.zone_allocated(x + dx, z + dz, y),
    ensures
        !travel_allowed(flags, &c, y, x, z, dx, dz, 1, extra),
{
    assert(BLOCK_SOUTH & 0x1ffu32 != 0 && BLOCK_NORTH & 0x1ffu32 != 0 && BLOCK_WEST & 0x1ffu32 != 0
        && BLOCK_EAST & 0x1ffu32 != 0 && BLOCK_SOUTH_WEST & 0x1ffu32 != 0 && BLOCK_NORTH_WEST
        & 0x1ffu32 != 0 && BLOCK_SOUTH_EAST & 0x1ffu32 != 0 && BLOCK_NORTH_EAST & 0x1ffu32 != 0)
        by (bit_vector);
    let mask = if dx == 0 && dz == -1 {
        BLOCK_SOUTH
    } else if dx == 0 && dz == 1 {
        BLOCK_NORTH
    } else if dx == -1 && dz == 0 {
        BLOCK_WEST
    } else if dx == 1 && dz == 0 {
        BLOCK_EAST
    } else if dx == -1 && dz == -1 {
        BLOCK_SOUTH_WEST
    } else if dx == -1 && dz == 1 {
        BLOCK_NORTH_WEST
    } else if dx == 1 && dz == -1 {
        BLOCK_SOUTH_EAST
    } else {
        BLOCK_NORTH_EAST
    };
    lemma_null_blocks(c, mask, extra);
    assert(flags.tile_flag(x + dx, z + dz, y) == NULL);
}

/// A one-tile entity never steps through a wall on a side of its tile: any
/// step with an eastward part (east, north-east, south-east) is refused when
/// the tile east of it has a west wall, any step with a westward part when the
/// tile west of it has an east wall, any step with a northward part when the
/// tile north of it has a south wall, and any step with a southward part when
/// the tile south of it has a north wall. This holds for every strategy but
/// the line of sight, which is stopped by projectile blockers only.
pub proof fn lemma_facing_wall_blocks_step(
    flags: &CollisionFlagMap,
    c: CollisionType,
    y: int,
    x: int,
    z: int,
    dx: int,
    dz: int,
    extra: u32,
)
    requires
        c != CollisionType::LineOfSight,
        (dx == 1 && flags.tile_flag(x + 1, z, y) & WALL_WEST != 0) || (dx == -1 && flags.tile_flag(
            x - 1,
            z,
            y,
        ) & WALL_EAST != 0) || (dz == 1 && flags.tile_flag(x, z + 1, y) & WALL_SOUTH != 0) || (dz
            == -1 && flags.tile_flag(x, z - 1, y) & WALL_NORTH != 0),
    ensures
        !travel_allowed(flags, &c, y, x, z, dx, dz, 1, extra),
{
    lemma_wall_caught(0, extra);
    if dx == 1 && flags.tile_flag(x + 1, z, y) & WALL_WEST != 0 {
        lemma_blocking_bit_refuses(c, flags.tile_flag(x + 1, z, y), WALL_WEST, BLOCK_EAST | extra);
    } else if dx == -1 && flags.tile_flag(x - 1, z, y) & WALL_EAST != 0 {
        lemma_blocking_bit_refuses(c, flags.tile_flag(x - 1, z, y), WALL_EAST, BLOCK_WEST | extra);
    } else if dz == 1 && flags.tile_flag(x, z + 1, y) & WALL_SOUTH != 0 {
        lemma_blocking_bit_refuses(c, flags.tile_flag(x, z + 1, y), WALL_SOUTH, BLOCK_NORTH | extra);
    } else {
        lemma_blocking_bit_refuses(c, flags.tile_flag(x, z - 1, y), WALL_NORTH, BLOCK_SOUTH | extra);
    }
}

/// A one-tile entity never steps onto a tile that holds a loc, in any of the
/// eight directions, whatever extra bits block; this holds for every strategy
/// but the line of sight, which is stopped by projectile blockers only.
pub proof fn lemma_loc_blocks_step(
    flags: &CollisionFlagMap,
    c: CollisionType,
    y: int,
    x: int,
    z: int,
    dx: int,
    dz: int,
    extra: u32,
)
    requires
        c != CollisionType::LineOfSight,
        flags.tile_flag(x + dx, z + dz, y) & LOC != 0,
    ensures
        !travel_allowed(flags, &c, y, x, z, dx, dz, 1, extra),
{
    assert(LOC & FLOOR == 0 && (BLOCK_SOUTH | extra) & LOC == LOC && (BLOCK_NORTH | extra) & LOC
        == LOC && (BLOCK_WEST | extra) & LOC == LOC && (BLOCK_EAST | extra) & LOC == LOC && (
    BLOCK_SOUTH_WEST | extra) & LOC == LOC && (BLOCK_NORTH_WEST | extra) & LOC == LOC && (
    BLOCK_SOUTH_EAST | extra) & LOC == LOC && (BLOCK_NORTH_EAST | extra) & LOC == LOC)
        by (bit_vector);
    let mask = if dx == 0 && dz == -1 {
        BLOCK_SOUTH
    } else if dx == 0 && dz == 1 {
        BLOCK_NORTH
    } else if dx == -1 && dz == 0 {
        BLOCK_WEST
    } else if dx == 1 && dz == 0 {
        BLOCK_EAST
    } else if dx == -1 && dz == -1 {
        BLOCK_SOUTH_WEST
    } else if dx == -1 && dz == 1 {
        BLOCK_NORTH_WEST
    } else if dx == 1 && dz == -1 {
        BLOCK_SOUTH_EAST
    } else {
        BLOCK_NORTH_EAST
    };
    lemma_blocking_bit_refuses(c, flags.tile_flag(x + dx, z + dz, y), LOC, mask | extra);
}

/// Only the eight one-tile steps can ever be allowed.
pub proof fn lemma_only_unit_steps<C: CollisionStrategy>(
    flags: &CollisionFlagMap,
    c: &C,
    y: int,
    x: int,
    z: int,
    dx: int,
    dz: int,
    size: int,
    extra: u32,
)
    requires
        travel_allowed(flags, c, y, x, z, dx, dz, size, extra),
    ensures
        -1 <= dx <= 1,
        -1 <= dz <= 1,
        dx != 0 || dz != 0,
{
}

} // verus!
