//! Server-side pathfinding, collision, line-of-sight, reach and step validation
//! over a zoned tile collision map.
//!
//! The functions at the crate root are the library's entry points: they take
//! the collision map (and, to search, a `PathFinder`) they work on.
pub mod rsmod;

use crate::rsmod::collision::collision::{
    base_flag_in,
    flag_in,
    lemma_flag_after_write,
    lemma_zones_equal_by_tiles,
    same_tile,
    TOTAL_ZONE_COUNT,
    zones_sized,
    with_flag,
    with_zone,
    zone_index_of,
    CollisionFlagMap,
};
use crate::rsmod::collision::collision_strategy::CollisionType;
use crate::rsmod::line_pathfinder::{path_or_empty, sight_path, walk_path};
use crate::rsmod::naive_pathfinder::naive_path;
use crate::rsmod::pathfinder::{
    found_route, near_destination, no_reaching_route, path_result, path_route, queue_route,
    no_approach_route, no_closer_approach, no_shorter_route, search_route, waypoints_of,
    PathFinder,
};
use crate::rsmod::reach::reach_strategy::{
    angle_fits, exit_strategy_of, reach_result, ReachStrategy, RECTANGLE_EXCLUSIVE_STRATEGY,
};
use crate::rsmod::step_validator::travel_allowed;
use crate::rsmod::coord_grid::level_of;
use crate::rsmod::utils::rotation::rotated;
use crate::rsmod::flag::collision_flag::{
    FLOOR,
    OPEN,
    LOC,
    LOC_PROJ_BLOCKER,
    LOC_ROUTE_BLOCKER,
    NPC,
    PLAYER,
    ROOF,
    WALL_EAST,
    WALL_EAST_PROJ_BLOCKER,
    WALL_EAST_ROUTE_BLOCKER,
    WALL_NORTH,
    WALL_NORTH_EAST,
    WALL_NORTH_EAST_PROJ_BLOCKER,
    WALL_NORTH_EAST_ROUTE_BLOCKER,
    WALL_NORTH_PROJ_BLOCKER,
    WALL_NORTH_ROUTE_BLOCKER,
    WALL_NORTH_WEST,
    WALL_NORTH_WEST_PROJ_BLOCKER,
    WALL_NORTH_WEST_ROUTE_BLOCKER,
    WALL_SOUTH,
    WALL_SOUTH_EAST,
    WALL_SOUTH_EAST_PROJ_BLOCKER,
    WALL_SOUTH_EAST_ROUTE_BLOCKER,
    WALL_SOUTH_PROJ_BLOCKER,
    WALL_SOUTH_ROUTE_BLOCKER,
    WALL_SOUTH_WEST,
    WALL_SOUTH_WEST_PROJ_BLOCKER,
    WALL_SOUTH_WEST_ROUTE_BLOCKER,
    WALL_WEST,
    WALL_WEST_PROJ_BLOCKER,
    WALL_WEST_ROUTE_BLOCKER,
};
use crate::rsmod::loc_angle::{angle_of, LocAngle};
use crate::rsmod::loc_shape::{shape_of, LocShape};
use vstd::prelude::*;

verus! {

/// The zones after setting (`add`) or clearing the bits of `mask` on tile
/// `(x, z)` of level `y`, its zone created when absent.
pub open spec fn tile_changed(
    m: Map<usize, Seq<u32>>,
    x: int,
    z: int,
    y: int,
    mask: u32,
    add: bool,
) -> Map<usize, Seq<u32>> {
    let base = base_flag_in(m, x as i32, z as i32, y as i32);
    with_flag(
        m,
        x as i32,
        z as i32,
        y as i32,
        if add {
            base | mask
        } else {
            base & !mask
        },
    )
}

/// The zones after changing `mask` on the first `n` tiles of the rectangle
/// `width` tiles wide at `(x, z)`, taken row by row from its south-west tile.
pub open spec fn area_changed(
    m: Map<usize, Seq<u32>>,
    x: int,
    z: int,
    y: int,
    width: int,
    n: nat,
    mask: u32,
    add: bool,
) -> Map<usize, Seq<u32>>
    decreases n,
{
    if n == 0 {
        m
    } else {
        let i = n - 1;
        tile_changed(
            area_changed(m, x, z, y, width, (n - 1) as nat, mask, add),
            x + i % width,
            z + i / width,
            y,
            mask,
            add,
        )
    }
}

/// The bits a loc puts on the tiles it covers.
pub open spec fn loc_mask(blockrange: bool, breakroutefinding: bool) -> u32 {
    LOC | (if blockrange {
        LOC_PROJ_BLOCKER
    } else {
        0
    }) | (if breakroutefinding {
        LOC_ROUTE_BLOCKER
    } else {
        0
    })
}

fn change_tile(flags: &mut CollisionFlagMap, x: i32, z: i32, y: i32, mask: u32, add: bool)
    ensures
        final(flags)@ == tile_changed(old(flags)@, x as int, z as int, y as int, mask, add),
{
    if add {
        flags.add(x, z, y, mask);
    } else {
        flags.remove(x, z, y, mask);
    }
}

/// Changes `mask` on every tile of the rectangle `width` by `length` at
/// `(x, z)`.
fn change_area(
    flags: &mut CollisionFlagMap,
    x: i32,
    z: i32,
    y: i32,
    width: i32,
    length: i32,
    mask: u32,
    add: bool,
)
    requires
        0 <= x <= 0xffff,
        0 <= z <= 0xffff,
        0 <= width <= 255,
        0 <= length <= 255,
    ensures
        final(flags)@ == area_changed(
            old(flags)@,
            x as int,
            z as int,
            y as int,
            width as int,
            (width * length) as nat,
            mask,
            add,
        ),
{
    assert(0 <= width * length <= 255 * 255) by (nonlinear_arith)
        requires
            0 <= width <= 255,
            0 <= length <= 255,
    ;
    let area: i32 = width * length;
    let mut index: i32 = 0;
    while index < area
        invariant
            0 <= index <= area,
            area == width * length,
            0 <= area <= 255 * 255,
            0 <= x <= 0xffff,
            0 <= z <= 0xffff,
            0 <= width <= 255,
            0 <= length <= 255,
            flags@ == area_changed(
                old(flags)@,
                x as int,
                z as int,
                y as int,
                width as int,
                index as nat,
                mask,
                add,
            ),
        decreases area - index,
    {
        assert(width > 0) by (nonlinear_arith)
            requires
                0 <= index < area,
                area == width * length,
                width >= 0,
        ;
        assert(0 <= index / width <= index) by (nonlinear_arith)
            requires
                0 <= index,
                width > 0,
        ;
        change_tile(flags, x + (index % width), z + (index / width), y, mask, add);
        index = index + 1;
    }
}

/// Sets (`add`) or clears the floor bit of a tile.
pub fn change_floor(flags: &mut CollisionFlagMap, x: u16, z: u16, y: u8, add: bool)
    ensures
        final(flags)@ == tile_changed(old(flags)@, x as int, z as int, y as int, FLOOR, add),
{
    change_tile(flags, x as i32, z as i32, y as i32, FLOOR, add);
}

/// Sets (`add`) or clears the roof bit of a tile.
pub fn change_roof(flags: &mut CollisionFlagMap, x: u16, z: u16, y: u8, add: bool)
    ensures
        final(flags)@ == tile_changed(old(flags)@, x as int, z as int, y as int, ROOF, add),
{
    change_tile(flags, x as i32, z as i32, y as i32, ROOF, add);
}

/// Adds or removes a loc of `width` by `length` tiles at `(x, z)`: the loc bit,
/// with the projectile blocker when it blocks range and the route blocker
/// when it breaks route finding.
pub fn change_loc(
    flags: &mut CollisionFlagMap,
    x: u16,
    z: u16,
    y: u8,
    width: u8,
    length: u8,
    blockrange: bool,
    breakroutefinding: bool,
    add: bool,
)
    ensures
        final(flags)@ == area_changed(
            old(flags)@,
            x as int,
            z as int,
            y as int,
            width as int,
            (width * length) as nat,
            loc_mask(blockrange, breakroutefinding),
            add,
        ),
{
    let mask: u32 = LOC | (if blockrange {
        LOC_PROJ_BLOCKER
    } else {
        0
    }) | (if breakroutefinding {
        LOC_ROUTE_BLOCKER
    } else {
        0
    });
    change_area(flags, x as i32, z as i32, y as i32, width as i32, length as i32, mask, add);
}

/// Adds or removes an npc of `size` by `size` tiles at `(x, z)`.
pub fn change_npc(flags: &mut CollisionFlagMap, x: u16, z: u16, y: u8, size: u8, add: bool)
    ensures
        final(flags)@ == area_changed(
            old(flags)@,
            x as int,
            z as int,
            y as int,
            size as int,
            (size * size) as nat,
            NPC,
            add,
        ),
{
    change_area(flags, x as i32, z as i32, y as i32, size as i32, size as i32, NPC, add);
}

/// Adds or removes a player of `size` by `size` tiles at `(x, z)`.
pub fn change_player(flags: &mut CollisionFlagMap, x: u16, z: u16, y: u8, size: u8, add: bool)
    ensures
        final(flags)@ == area_changed(
            old(flags)@,
            x as int,
            z as int,
            y as int,
            size as int,
            (size * size) as nat,
            PLAYER,
            add,
        ),
{
    change_area(flags, x as i32, z as i32, y as i32, size as i32, size as i32, PLAYER, add);
}


/// The wall bits of one direction for a tier: the route blocker when the wall
/// breaks route finding, else the projectile blocker when it blocks range,
/// else the plain wall.
pub open spec fn wall_tier(
    plain: u32,
    proj: u32,
    route: u32,
    blockrange: bool,
    breakroutefinding: bool,
) -> u32 {
    if breakroutefinding {
        route
    } else if blockrange {
        proj
    } else {
        plain
    }
}

/// The tiers a wall is changed on: route blockers, projectile blockers and
/// plain walls, each only when it applies, plain walls always.
pub open spec fn tiers_measure(blockrange: bool, breakroutefinding: bool) -> nat {
    (if breakroutefinding {
        2nat
    } else {
        0nat
    }) + (if blockrange {
        1nat
    } else {
        0nat
    })
}

/// One tier of a straight wall on the `angle` side of `(x, z)`: that side of
/// the tile and the facing side of the neighbour across it.
pub open spec fn straight_wall_tier(
    m: Map<usize, Seq<u32>>,
    x: int,
    z: int,
    y: int,
    angle: u8,
    blockrange: bool,
    breakroutefinding: bool,
    add: bool,
) -> Map<usize, Seq<u32>> {
    let west = wall_tier(WALL_WEST, WALL_WEST_PROJ_BLOCKER, WALL_WEST_ROUTE_BLOCKER, blockrange, breakroutefinding);
    let east = wall_tier(WALL_EAST, WALL_EAST_PROJ_BLOCKER, WALL_EAST_ROUTE_BLOCKER, blockrange, breakroutefinding);
    let north = wall_tier(WALL_NORTH, WALL_NORTH_PROJ_BLOCKER, WALL_NORTH_ROUTE_BLOCKER, blockrange, breakroutefinding);
    let south = wall_tier(WALL_SOUTH, WALL_SOUTH_PROJ_BLOCKER, WALL_SOUTH_ROUTE_BLOCKER, blockrange, breakroutefinding);
    match angle_of(angle) {
        LocAngle::West => tile_changed(tile_changed(m, x, z, y, west, add), x - 1, z, y, east, add),
        LocAngle::North => tile_changed(tile_changed(m, x, z, y, north, add), x, z + 1, y, south, add),
        LocAngle::East => tile_changed(tile_changed(m, x, z, y, east, add), x + 1, z, y, west, add),
        LocAngle::South => tile_changed(tile_changed(m, x, z, y, south, add), x, z - 1, y, north, add),
    }
}

/// A straight wall changed on each tier that applies, the highest first.
pub open spec fn straight_wall_changed(
    m: Map<usize, Seq<u32>>,
    x: int,
    z: int,
    y: int,
    angle: u8,
    blockrange: bool,
    breakroutefinding: bool,
    add: bool,
) -> Map<usize, Seq<u32>>
    decreases tiers_measure(blockrange, breakroutefinding),
{
    let tier = straight_wall_tier(m, x, z, y, angle, blockrange, breakroutefinding, add);
    if breakroutefinding {
        straight_wall_changed(tier, x, z, y, angle, blockrange, false, add)
    } else if blockrange {
        straight_wall_changed(tier, x, z, y, angle, false, false, add)
    } else {
        tier
    }
}

/// One tier of a corner wall on the `angle` corner of `(x, z)`: that corner
/// of the tile and the facing corner of the diagonal neighbour.
pub open spec fn corner_wall_tier(
    m: Map<usize, Seq<u32>>,
    x: int,
    z: int,
    y: int,
    angle: u8,
    blockrange: bool,
    breakroutefinding: bool,
    add: bool,
) -> Map<usize, Seq<u32>> {
    let north_west = wall_tier(WALL_NORTH_WEST, WALL_NORTH_WEST_PROJ_BLOCKER, WALL_NORTH_WEST_ROUTE_BLOCKER, blockrange, breakroutefinding);
    let south_east = wall_tier(WALL_SOUTH_EAST, WALL_SOUTH_EAST_PROJ_BLOCKER, WALL_SOUTH_EAST_ROUTE_BLOCKER, blockrange, breakroutefinding);
    let north_east = wall_tier(WALL_NORTH_EAST, WALL_NORTH_EAST_PROJ_BLOCKER, WALL_NORTH_EAST_ROUTE_BLOCKER, blockrange, breakroutefinding);
    let south_west = wall_tier(WALL_SOUTH_WEST, WALL_SOUTH_WEST_PROJ_BLOCKER, WALL_SOUTH_WEST_ROUTE_BLOCKER, blockrange, breakroutefinding);
    match angle_of(angle) {
        LocAngle::West => tile_changed(tile_changed(m, x, z, y, north_west, add), x - 1, z + 1, y, south_east, add),
        LocAngle::North => tile_changed(tile_changed(m, x, z, y, north_east, add), x + 1, z + 1, y, south_west, add),
        LocAngle::East => tile_changed(tile_changed(m, x, z, y, south_east, add), x + 1, z - 1, y, north_west, add),
        LocAngle::South => tile_changed(tile_changed(m, x, z, y, south_west, add), x - 1, z - 1, y, north_east, add),
    }
}

/// A corner wall changed on each tier that applies, the highest first.
pub open spec fn corner_wall_changed(
    m: Map<usize, Seq<u32>>,
    x: int,
    z: int,
    y: int,
    angle: u8,
    blockrange: bool,
    breakroutefinding: bool,
    add: bool,
) -> Map<usize, Seq<u32>>
    decreases tiers_measure(blockrange, breakroutefinding),
{
    let tier = corner_wall_tier(m, x, z, y, angle, blockrange, breakroutefinding, add);
    if breakroutefinding {
        corner_wall_changed(tier, x, z, y, angle, blockrange, false, add)
    } else if blockrange {
        corner_wall_changed(tier, x, z, y, angle, false, false, add)
    } else {
        tier
    }
}

/// One tier of an L-shaped wall on the two sides of `(x, z)` that `angle`
/// names, and the facing sides of the two neighbours across them.
pub open spec fn l_wall_tier(
    m: Map<usize, Seq<u32>>,
    x: int,
    z: int,
    y: int,
    angle: u8,
    blockrange: bool,
    breakroutefinding: bool,
    add: bool,
) -> Map<usize, Seq<u32>> {
    let west = wall_tier(WALL_WEST, WALL_WEST_PROJ_BLOCKER, WALL_WEST_ROUTE_BLOCKER, blockrange, breakroutefinding);
    let east = wall_tier(WALL_EAST, WALL_EAST_PROJ_BLOCKER, WALL_EAST_ROUTE_BLOCKER, blockrange, breakroutefinding);
    let north = wall_tier(WALL_NORTH, WALL_NORTH_PROJ_BLOCKER, WALL_NORTH_ROUTE_BLOCKER, blockrange, breakroutefinding);
    let south = wall_tier(WALL_SOUTH, WALL_SOUTH_PROJ_BLOCKER, WALL_SOUTH_ROUTE_BLOCKER, blockrange, breakroutefinding);
    match angle_of(angle) {
        LocAngle::West => tile_changed(
            tile_changed(tile_changed(m, x, z, y, north | west, add), x - 1, z, y, east, add),
            x,
            z + 1,
            y,
            south,
            add,
        ),
        LocAngle::North => tile_changed(
            tile_changed(tile_changed(m, x, z, y, north | east, add), x, z + 1, y, south, add),
            x + 1,
            z,
            y,
            west,
            add,
        ),
        LocAngle::East => tile_changed(
            tile_changed(tile_changed(m, x, z, y, south | east, add), x + 1, z, y, west, add),
            x,
            z - 1,
            y,
            north,
            add,
        ),
        LocAngle::South => tile_changed(
            tile_changed(tile_changed(m, x, z, y, south | west, add), x, z - 1, y, north, add),
            x - 1,
            z,
            y,
            east,
            add,
        ),
    }
}

/// An L-shaped wall changed on each tier that applies, the highest first.
pub open spec fn l_wall_changed(
    m: Map<usize, Seq<u32>>,
    x: int,
    z: int,
    y: int,
    angle: u8,
    blockrange: bool,
    breakroutefinding: bool,
    add: bool,
) -> Map<usize, Seq<u32>>
    decreases tiers_measure(blockrange, breakroutefinding),
{
    let tier = l_wall_tier(m, x, z, y, angle, blockrange, breakroutefinding, add);
    if breakroutefinding {
        l_wall_changed(tier, x, z, y, angle, blockrange, false, add)
    } else if blockrange {
        l_wall_changed(tier, x, z, y, angle, false, false, add)
    } else {
        tier
    }
}

/// The zones after adding or removing a wall of `shape`: straight, corner
/// (diagonal or square) and L walls change collision; other shapes do not.
pub open spec fn wall_changed(
    m: Map<usize, Seq<u32>>,
    x: int,
    z: int,
    y: int,
    angle: u8,
    shape: i8,
    blockrange: bool,
    breakroutefinding: bool,
    add: bool,
) -> Map<usize, Seq<u32>> {
    match shape_of(shape) {
        LocShape::WallStraight => straight_wall_changed(m, x, z, y, angle, blockrange, breakroutefinding, add),
        LocShape::WallDiagonalCorner => corner_wall_changed(m, x, z, y, angle, blockrange, breakroutefinding, add),
        LocShape::WallSquareCorner => corner_wall_changed(m, x, z, y, angle, blockrange, breakroutefinding, add),
        LocShape::WallL => l_wall_changed(m, x, z, y, angle, blockrange, breakroutefinding, add),
        _ => m,
    }
}

fn wall_bits(plain: u32, proj: u32, route: u32, blockrange: bool, breakroutefinding: bool) -> (r: u32)
    ensures
        r == wall_tier(plain, proj, route, blockrange, breakroutefinding),
{
    if breakroutefinding {
        route
    } else if blockrange {
        proj
    } else {
        plain
    }
}

/// Adds or removes a straight wall on the `angle` side of `(x, z)`.
pub fn change_wall_straight(
    flags: &mut CollisionFlagMap,
    x: i32,
    z: i32,
    y: i32,
    angle: u8,
    blockrange: bool,
    breakroutefinding: bool,
    add: bool,
)
    requires
        0 <= x <= 0xffff,
        0 <= z <= 0xffff,
        angle <= 3,
    ensures
        final(flags)@ == straight_wall_changed(old(flags)@, x as int, z as int, y as int, angle, blockrange, breakroutefinding, add),
    decreases tiers_measure(blockrange, breakroutefinding),
{
    let west: u32 = wall_bits(WALL_WEST, WALL_WEST_PROJ_BLOCKER, WALL_WEST_ROUTE_BLOCKER, blockrange, breakroutefinding);
    let east: u32 = wall_bits(WALL_EAST, WALL_EAST_PROJ_BLOCKER, WALL_EAST_ROUTE_BLOCKER, blockrange, breakroutefinding);
    let north: u32 = wall_bits(WALL_NORTH, WALL_NORTH_PROJ_BLOCKER, WALL_NORTH_ROUTE_BLOCKER, blockrange, breakroutefinding);
    let south: u32 = wall_bits(WALL_SOUTH, WALL_SOUTH_PROJ_BLOCKER, WALL_SOUTH_ROUTE_BLOCKER, blockrange, breakroutefinding);
    match LocAngle::from(angle) {
        LocAngle::West => {
            change_tile(flags, x, z, y, west, add);
            change_tile(flags, x - 1, z, y, east, add);
        },
        LocAngle::North => {
            change_tile(flags, x, z, y, north, add);
            change_tile(flags, x, z + 1, y, south, add);
        },
        LocAngle::East => {
            change_tile(flags, x, z, y, east, add);
            change_tile(flags, x + 1, z, y, west, add);
        },
        LocAngle::South => {
            change_tile(flags, x, z, y, south, add);
            change_tile(flags, x, z - 1, y, north, add);
        },
    }
    if breakroutefinding {
        return change_wall_straight(flags, x, z, y, angle, blockrange, false, add);
    }
    if blockrange {
        change_wall_straight(flags, x, z, y, angle, false, false, add)
    }
}

/// Adds or removes a corner wall on the `angle` corner of `(x, z)`.
pub fn change_wall_corner(
    flags: &mut CollisionFlagMap,
    x: i32,
    z: i32,
    y: i32,
    angle: u8,
    blockrange: bool,
    breakroutefinding: bool,
    add: bool,
)
    requires
        0 <= x <= 0xffff,
        0 <= z <= 0xffff,
        angle <= 3,
    ensures
        final(flags)@ == corner_wall_changed(old(flags)@, x as int, z as int, y as int, angle, blockrange, breakroutefinding, add),
    decreases tiers_measure(blockrange, breakroutefinding),
{
    let north_west: u32 = wall_bits(WALL_NORTH_WEST, WALL_NORTH_WEST_PROJ_BLOCKER, WALL_NORTH_WEST_ROUTE_BLOCKER, blockrange, breakroutefinding);
    let south_east: u32 = wall_bits(WALL_SOUTH_EAST, WALL_SOUTH_EAST_PROJ_BLOCKER, WALL_SOUTH_EAST_ROUTE_BLOCKER, blockrange, breakroutefinding);
    let north_east: u32 = wall_bits(WALL_NORTH_EAST, WALL_NORTH_EAST_PROJ_BLOCKER, WALL_NORTH_EAST_ROUTE_BLOCKER, blockrange, breakroutefinding);
    let south_west: u32 = wall_bits(WALL_SOUTH_WEST, WALL_SOUTH_WEST_PROJ_BLOCKER, WALL_SOUTH_WEST_ROUTE_BLOCKER, blockrange, breakroutefinding);
    match LocAngle::from(angle) {
        LocAngle::West => {
            change_tile(flags, x, z, y, north_west, add);
            change_tile(flags, x - 1, z + 1, y, south_east, add);
        },
        LocAngle::North => {
            change_tile(flags, x, z, y, north_east, add);
            change_tile(flags, x + 1, z + 1, y, south_west, add);
        },
        LocAngle::East => {
            change_tile(flags, x, z, y, south_east, add);
            change_tile(flags, x + 1, z - 1, y, north_west, add);
        },
        LocAngle::South => {
            change_tile(flags, x, z, y, south_west, add);
            change_tile(flags, x - 1, z - 1, y, north_east, add);
        },
    }
    if breakroutefinding {
        return change_wall_corner(flags, x, z, y, angle, blockrange, false, add);
    }
    if blockrange {
        change_wall_corner(flags, x, z, y, angle, false, false, add)
    }
}

/// Adds or removes an L-shaped wall on the two sides of `(x, z)` that `angle`
/// names.
pub fn change_wall_l(
    flags: &mut CollisionFlagMap,
    x: i32,
    z: i32,
    y: i32,
    angle: u8,
    blockrange: bool,
    breakroutefinding: bool,
    add: bool,
)
    requires
        0 <= x <= 0xffff,
        0 <= z <= 0xffff,
        angle <= 3,
    ensures
        final(flags)@ == l_wall_changed(old(flags)@, x as int, z as int, y as int, angle, blockrange, breakroutefinding, add),
    decreases tiers_measure(blockrange, breakroutefinding),
{
    let west: u32 = wall_bits(WALL_WEST, WALL_WEST_PROJ_BLOCKER, WALL_WEST_ROUTE_BLOCKER, blockrange, breakroutefinding);
    let east: u32 = wall_bits(WALL_EAST, WALL_EAST_PROJ_BLOCKER, WALL_EAST_ROUTE_BLOCKER, blockrange, breakroutefinding);
    let north: u32 = wall_bits(WALL_NORTH, WALL_NORTH_PROJ_BLOCKER, WALL_NORTH_ROUTE_BLOCKER, blockrange, breakroutefinding);
    let south: u32 = wall_bits(WALL_SOUTH, WALL_SOUTH_PROJ_BLOCKER, WALL_SOUTH_ROUTE_BLOCKER, blockrange, breakroutefinding);
    match LocAngle::from(angle) {
        LocAngle::West => {
            change_tile(flags, x, z, y, north | west, add);
            change_tile(flags, x - 1, z, y, east, add);
            change_tile(flags, x, z + 1, y, south, add);
        },
        LocAngle::North => {
            change_tile(flags, x, z, y, north | east, add);
            change_tile(flags, x, z + 1, y, south, add);
            change_tile(flags, x + 1, z, y, west, add);
        },
        LocAngle::East => {
            change_tile(flags, x, z, y, south | east, add);
            change_tile(flags, x + 1, z, y, west, add);
            change_tile(flags, x, z - 1, y, north, add);
        },
        LocAngle::South => {
            change_tile(flags, x, z, y, south | west, add);
            change_tile(flags, x, z - 1, y, north, add);
            change_tile(flags, x - 1, z, y, east, add);
        },
    }
    if breakroutefinding {
        return change_wall_l(flags, x, z, y, angle, blockrange, false, add);
    }
    if blockrange {
        change_wall_l(flags, x, z, y, angle, false, false, add)
    }
}

/// Adds or removes a wall of `shape` at `(x, z)`: straight, corner and L walls
/// change collision, other shapes leave the map as it is.
pub fn change_wall(
    flags: &mut CollisionFlagMap,
    x: u16,
    z: u16,
    y: u8,
    angle: u8,
    shape: i8,
    blockrange: bool,
    breakroutefinding: bool,
    add: bool,
)
    requires
        0 <= shape <= 3 ==> angle <= 3,
        0 <= shape <= 22,
    ensures
        final(flags)@ == wall_changed(old(flags)@, x as int, z as int, y as int, angle, shape, blockrange, breakroutefinding, add),
{
    let x: i32 = x as i32;
    let z: i32 = z as i32;
    let y: i32 = y as i32;
    match LocShape::from(shape) {
        LocShape::WallStraight => change_wall_straight(flags, x, z, y, angle, blockrange, breakroutefinding, add),
        LocShape::WallDiagonalCorner | LocShape::WallSquareCorner => change_wall_corner(flags, x, z, y, angle, blockrange, breakroutefinding, add),
        LocShape::WallL => change_wall_l(flags, x, z, y, angle, blockrange, breakroutefinding, add),
        _ => {},
    }
}


/// Creates the zone of `(x, z, y)`, all open, unless it exists.
pub fn allocate_if_absent(flags: &mut CollisionFlagMap, x: u16, z: u16, y: u8)
    ensures
        final(flags)@ == with_zone(old(flags)@, x as i32, z as i32, y as i32),
{
    flags.allocate_if_absent(x as i32, z as i32, y as i32);
}

/// Drops the zone of `(x, z, y)`.
pub fn deallocate_if_present(flags: &mut CollisionFlagMap, x: u16, z: u16, y: u8)
    ensures
        final(flags)@ == old(flags)@.remove(zone_index_of(x as i32, z as i32, y as i32)),
{
    flags.deallocate_if_present(x as i32, z as i32, y as i32);
}

pub fn is_zone_allocated(flags: &CollisionFlagMap, x: u16, z: u16, y: u8) -> (r: bool)
    ensures
        r == flags.zone_allocated(x as int, z as int, y as int),
{
    flags.is_zone_allocated(x as i32, z as i32, y as i32)
}

/// Whether tile `(x, z, y)` has a bit of `masks`; never in an absent zone.
pub fn is_flagged(flags: &CollisionFlagMap, x: u16, z: u16, y: u8, masks: u32) -> (r: bool)
    ensures
        r == (flags.zone_allocated(x as int, z as int, y as int) && flags.tile_flag(
            x as int,
            z as int,
            y as int,
        ) & masks != 0),
{
    flags.is_flagged(x as i32, z as i32, y as i32, masks)
}

/// Overwrites the flags of tile `(x, z, y)`.
pub fn __set(flags: &mut CollisionFlagMap, x: u16, z: u16, y: u8, mask: u32)
    ensures
        final(flags)@ == with_flag(old(flags)@, x as i32, z as i32, y as i32, mask),
{
    flags.set(x as i32, z as i32, y as i32, mask);
}

/// Whether an entity of `size` at `(x, z)` may take the step
/// `(offset_x, offset_z)` under the collision rules of `collision`.
pub fn can_travel(
    flags: &CollisionFlagMap,
    y: u8,
    x: u16,
    z: u16,
    offset_x: i8,
    offset_z: i8,
    size: u8,
    extra_flag: u32,
    collision: CollisionType,
) -> (r: bool)
    ensures
        r == travel_allowed(
            flags,
            &collision,
            y as int,
            x as int,
            z as int,
            offset_x as int,
            offset_z as int,
            size as int,
            extra_flag,
        ),
{
    crate::rsmod::step_validator::can_travel(
        flags,
        y as i32,
        x as i32,
        z as i32,
        offset_x,
        offset_z,
        size,
        extra_flag,
        &collision,
    )
}

/// Whether a projectile gets from the source rectangle to the destination
/// rectangle.
pub fn has_line_of_sight(
    flags: &CollisionFlagMap,
    y: u8,
    src_x: u16,
    src_z: u16,
    dest_x: u16,
    dest_z: u16,
    src_width: u8,
    src_length: u8,
    dest_width: u8,
    dest_length: u8,
    extra_flag: u32,
) -> (r: bool)
    requires
        src_x < 0x4000,
        src_z < 0x4000,
        dest_x < 0x4000,
        dest_z < 0x4000,
    ensures
        r == sight_path(
            flags,
            y as int,
            src_x as int,
            src_z as int,
            dest_x as int,
            dest_z as int,
            src_width,
            src_length,
            dest_width,
            dest_length,
            extra_flag,
        ) is Some,
{
    crate::rsmod::line_validator::has_line_of_sight(
        flags,
        y as i32,
        src_x as i32,
        src_z as i32,
        dest_x as i32,
        dest_z as i32,
        src_width,
        src_length,
        dest_width,
        dest_length,
        extra_flag,
    )
}

/// Whether an entity walks in a straight line from the source rectangle to
/// the destination rectangle.
pub fn has_line_of_walk(
    flags: &CollisionFlagMap,
    y: u8,
    src_x: u16,
    src_z: u16,
    dest_x: u16,
    dest_z: u16,
    src_width: u8,
    src_length: u8,
    dest_width: u8,
    dest_length: u8,
    extra_flag: u32,
) -> (r: bool)
    requires
        src_x < 0x4000,
        src_z < 0x4000,
        dest_x < 0x4000,
        dest_z < 0x4000,
    ensures
        r == walk_path(
            flags,
            y as int,
            src_x as int,
            src_z as int,
            dest_x as int,
            dest_z as int,
            src_width,
            src_length,
            dest_width,
            dest_length,
            extra_flag,
        ) is Some,
{
    crate::rsmod::line_validator::has_line_of_walk(
        flags,
        y as i32,
        src_x as i32,
        src_z as i32,
        dest_x as i32,
        dest_z as i32,
        src_width,
        src_length,
        dest_width,
        dest_length,
        extra_flag,
    )
}

/// The tiles a projectile crosses; empty when blocked.
pub fn line_of_sight(
    flags: &CollisionFlagMap,
    y: u8,
    src_x: u16,
    src_z: u16,
    dest_x: u16,
    dest_z: u16,
    src_width: u8,
    src_length: u8,
    dest_width: u8,
    dest_length: u8,
    extra_flag: u32,
) -> (r: Vec<u32>)
    requires
        src_x < 0x4000,
        src_z < 0x4000,
        dest_x < 0x4000,
        dest_z < 0x4000,
    ensures
        r@ == path_or_empty(
            sight_path(
                flags,
                y as int,
                src_x as int,
                src_z as int,
                dest_x as int,
                dest_z as int,
                src_width,
                src_length,
                dest_width,
                dest_length,
                extra_flag,
            ),
        ),
{
    crate::rsmod::line_pathfinder::line_of_sight(
        flags,
        y as i32,
        src_x as i32,
        src_z as i32,
        dest_x as i32,
        dest_z as i32,
        src_width,
        src_length,
        dest_width,
        dest_length,
        extra_flag,
    )
}

/// The tiles of a straight walk; empty when blocked.
pub fn line_of_walk(
    flags: &CollisionFlagMap,
    y: u8,
    src_x: u16,
    src_z: u16,
    dest_x: u16,
    dest_z: u16,
    src_width: u8,
    src_length: u8,
    dest_width: u8,
    dest_length: u8,
    extra_flag: u32,
) -> (r: Vec<u32>)
    requires
        src_x < 0x4000,
        src_z < 0x4000,
        dest_x < 0x4000,
        dest_z < 0x4000,
    ensures
        r@ == path_or_empty(
            walk_path(
                flags,
                y as int,
                src_x as int,
                src_z as int,
                dest_x as int,
                dest_z as int,
                src_width,
                src_length,
                dest_width,
                dest_length,
                extra_flag,
            ),
        ),
{
    crate::rsmod::line_pathfinder::line_of_walk(
        flags,
        y as i32,
        src_x as i32,
        src_z as i32,
        dest_x as i32,
        dest_z as i32,
        src_width,
        src_length,
        dest_width,
        dest_length,
        extra_flag,
    )
}

/// Whether an entity of `src_size` at `(src_x, src_z)` is in range of the
/// loc at `(dest_x, dest_z)`.
pub fn reached(
    flags: &CollisionFlagMap,
    y: u8,
    src_x: u16,
    src_z: u16,
    dest_x: u16,
    dest_z: u16,
    dest_width: u8,
    dest_length: u8,
    src_size: u8,
    angle: u8,
    shape: i8,
    block_access_flags: u8,
) -> (r: bool)
    requires
        exit_strategy_of(shape) != RECTANGLE_EXCLUSIVE_STRATEGY && src_x == dest_x && src_z == dest_z
            || angle_fits(angle, shape),
    ensures
        r == reach_result(
            flags,
            y as int,
            src_x as int,
            src_z as int,
            dest_x as int,
            dest_z as int,
            dest_width,
            dest_length,
            src_size,
            angle,
            shape,
            block_access_flags,
        ),
{
    ReachStrategy::reached(
        flags,
        y as i32,
        src_x as i32,
        src_z as i32,
        dest_x as i32,
        dest_z as i32,
        dest_width,
        dest_length,
        src_size,
        angle,
        shape,
        block_access_flags,
    )
}

/// Searches a route with `pathfinder` over `flags`; see `PathFinder::find_path`.
pub fn find_path(
    pathfinder: &mut PathFinder,
    flags: &CollisionFlagMap,
    y: u8,
    src_x: u16,
    src_z: u16,
    dest_x: u16,
    dest_z: u16,
    src_size: u8,
    dest_width: u8,
    dest_length: u8,
    angle: u8,
    shape: i8,
    move_near: bool,
    block_access_flags: u8,
    max_waypoints: u8,
    collision: CollisionType,
) -> (r: Vec<u32>)
    requires
        old(pathfinder).wf(),
        src_size >= 1,
        angle_fits(angle, shape),
    ensures
        !move_near && no_reaching_route(
            flags,
            &collision,
            y as int,
            src_x as int,
            src_z as int,
            dest_x as int,
            dest_z as int,
            src_size,
            dest_width,
            dest_length,
            angle,
            shape,
            block_access_flags,
        ) ==> r.len() == 0,
        final(pathfinder).wf(),
        r.len() <= max_waypoints,
        forall|i: int| 0 <= i < r.len() ==> level_of(#[trigger] r@[i]) == (y & 3) as u32,
        r.len() > 0 ==> exists|route: Seq<(int, int)>|
            #[trigger] found_route(
                flags,
                &collision,
                y as int,
                src_x as int,
                src_z as int,
                dest_x as int,
                dest_z as int,
                src_size,
                dest_width,
                dest_length,
                angle,
                shape,
                move_near,
                block_access_flags,
                route,
                r@,
            ) && r@ == waypoints_of(route, y as int, max_waypoints as int) && search_route(
                flags,
                &collision,
                y as int,
                src_x as int,
                src_z as int,
                src_size as int,
                route,
            ) && (exists|n: nat|
                #[trigger] queue_route(
                    flags,
                    &collision,
                    y as int,
                    src_x as int,
                    src_z as int,
                    dest_x as int,
                    dest_z as int,
                    src_size,
                    dest_width,
                    dest_length,
                    angle,
                    shape,
                    block_access_flags,
                    route,
                    n,
                )) && (
            !reach_result(
                flags,
                y as int,
                route.last().0,
                route.last().1,
                dest_x as int,
                dest_z as int,
                dest_width,
                dest_length,
                src_size,
                angle,
                shape,
                block_access_flags,
            ) ==> no_closer_approach(
                flags,
                &collision,
                y as int,
                src_x as int,
                src_z as int,
                dest_x as int,
                dest_z as int,
                src_size,
                rotated(angle, dest_width, dest_length),
                rotated(angle, dest_length, dest_width),
                route,
            )) && (no_shorter_route(
                flags,
                &collision,
                y as int,
                src_x as int,
                src_z as int,
                dest_x as int,
                dest_z as int,
                src_size,
                dest_width,
                dest_length,
                angle,
                shape,
                block_access_flags,
                route,
            )),
        max_waypoints > 0 && !reach_result(
            flags,
            y as int,
            src_x as int,
            src_z as int,
            dest_x as int,
            dest_z as int,
            dest_width,
            dest_length,
            src_size,
            angle,
            shape,
            block_access_flags,
        ) && (exists|other: Seq<(int, int)>|
            search_route(flags, &collision, y as int, src_x as int, src_z as int, src_size as int, other)
                && #[trigger] reach_result(
                flags,
                y as int,
                other.last().0,
                other.last().1,
                dest_x as int,
                dest_z as int,
                dest_width,
                dest_length,
                src_size,
                angle,
                shape,
                block_access_flags,
            )) ==> r.len() > 0,
        move_near && max_waypoints > 0 && r.len() == 0
            && !reach_result(
            flags,
            y as int,
            src_x as int,
            src_z as int,
            dest_x as int,
            dest_z as int,
            dest_width,
            dest_length,
            src_size,
            angle,
            shape,
            block_access_flags,
        ) ==> no_approach_route(
            flags,
            &collision,
            y as int,
            src_x as int,
            src_z as int,
            dest_x as int,
            dest_z as int,
            src_size,
        ) || (near_destination(src_x as int, src_z as int, dest_x as int, dest_z as int)
            && no_closer_approach(
            flags,
            &collision,
            y as int,
            src_x as int,
            src_z as int,
            dest_x as int,
            dest_z as int,
            src_size,
            rotated(angle, dest_width, dest_length),
            rotated(angle, dest_length, dest_width),
            seq![(src_x as int, src_z as int)],
        )),
        reach_result(
            flags,
            y as int,
            src_x as int,
            src_z as int,
            dest_x as int,
            dest_z as int,
            dest_width,
            dest_length,
            src_size,
            angle,
            shape,
            block_access_flags,
        ) ==> r.len() == 0,
        path_result(
            flags,
            &collision,
            y as int,
            src_x as int,
            src_z as int,
            dest_x as int,
            dest_z as int,
            src_size,
            dest_width,
            dest_length,
            angle,
            shape,
            move_near,
            block_access_flags,
            max_waypoints,
            r@,
        ),
{
    let r = pathfinder.find_path(
        flags,
        y as i32,
        src_x as i32,
        src_z as i32,
        dest_x as i32,
        dest_z as i32,
        src_size,
        dest_width,
        dest_length,
        angle,
        shape,
        move_near,
        block_access_flags,
        max_waypoints,
        &collision,
    );
    proof {
        if r.len() > 0 {
            let route = choose|route: Seq<(int, int)>|
                #[trigger] found_route(
                    flags,
                    &collision,
                    y as int,
                    src_x as int,
                    src_z as int,
                    dest_x as int,
                    dest_z as int,
                    src_size,
                    dest_width,
                    dest_length,
                    angle,
                    shape,
                    move_near,
                    block_access_flags,
                    route,
                    r@,
                ) && r@ == waypoints_of(route, y as int, max_waypoints as int) && search_route(
                    flags,
                    &collision,
                    y as int,
                    src_x as int,
                    src_z as int,
                    src_size as int,
                    route,
                ) && (!reach_result(
                    flags,
                    y as int,
                    route.last().0,
                    route.last().1,
                    dest_x as int,
                    dest_z as int,
                    dest_width,
                    dest_length,
                    src_size,
                    angle,
                    shape,
                    block_access_flags,
                ) ==> no_reaching_route(
                    flags,
                    &collision,
                    y as int,
                    src_x as int,
                    src_z as int,
                    dest_x as int,
                    dest_z as int,
                    src_size,
                    dest_width,
                    dest_length,
                    angle,
                    shape,
                    block_access_flags,
                )) && (exists|n: nat|
                    #[trigger] queue_route(
                        flags,
                        &collision,
                        y as int,
                        src_x as int,
                        src_z as int,
                        dest_x as int,
                        dest_z as int,
                        src_size,
                        dest_width,
                        dest_length,
                        angle,
                        shape,
                        block_access_flags,
                        route,
                        n,
                    )) && (!reach_result(
                    flags,
                    y as int,
                    route.last().0,
                    route.last().1,
                    dest_x as int,
                    dest_z as int,
                    dest_width,
                    dest_length,
                    src_size,
                    angle,
                    shape,
                    block_access_flags,
                ) ==> no_closer_approach(
                    flags,
                    &collision,
                    y as int,
                    src_x as int,
                    src_z as int,
                    dest_x as int,
                    dest_z as int,
                    src_size,
                    rotated(angle, dest_width, dest_length),
                    rotated(angle, dest_length, dest_width),
                    route,
                )) && (no_shorter_route(
                    flags,
                    &collision,
                    y as int,
                    src_x as int,
                    src_z as int,
                    dest_x as int,
                    dest_z as int,
                    src_size,
                    dest_width,
                    dest_length,
                    angle,
                    shape,
                    block_access_flags,
                    route,
                ));
            assert(path_route(
                flags,
            &collision,
            y as int,
            src_x as int,
            src_z as int,
            dest_x as int,
            dest_z as int,
            src_size,
            dest_width,
            dest_length,
            angle,
            shape,
            move_near,
            block_access_flags,
            max_waypoints,
                route,
                r@,
            ));
        }
    }
    r
}

/// The naive path of an entity toward its target; see
/// `naive_pathfinder::find_naive_path`.
pub fn find_naive_path(
    flags: &CollisionFlagMap,
    y: u8,
    src_x: u16,
    src_z: u16,
    dest_x: u16,
    dest_z: u16,
    src_width: u8,
    src_length: u8,
    dest_width: u8,
    dest_length: u8,
    extra_flag: u32,
    collision: CollisionType,
) -> (r: Vec<u32>)
    ensures
        exists|direction: int|
            0 <= direction < 4 && r@ == #[trigger] naive_path(
                flags,
                &collision,
                y as int,
                src_x as int,
                src_z as int,
                dest_x as int,
                dest_z as int,
                src_width,
                src_length,
                dest_width,
                dest_length,
                extra_flag,
                direction,
            ),
{
    crate::rsmod::naive_pathfinder::find_naive_path(
        flags,
        y as i32,
        src_x as i32,
        src_z as i32,
        dest_x as i32,
        dest_z as i32,
        src_width,
        src_length,
        dest_width,
        dest_length,
        extra_flag,
        &collision,
    )
}


/// Setting then clearing bits, and what each leaves of the bits.
pub proof fn lemma_mask_bits(b: u32, mask: u32)
    ensures
        (b | mask) & mask == mask,
        (b & !mask) & mask == 0,
        b & mask == 0 ==> (b | mask) & !mask == b,
{
    assert((b | mask) & mask == mask && (b & !mask) & mask == 0 && (b & mask == 0 ==> (b | mask)
        & !mask == b)) by (bit_vector);
}

/// Adding bits to a tile of an existing zone and removing them again gives
/// back the map, when the tile had none of them.
pub proof fn lemma_tile_round_trip(m: Map<usize, Seq<u32>>, x: int, z: int, y: int, mask: u32)
    requires
        zones_sized(m),
        m.contains_key(zone_index_of(x as i32, z as i32, y as i32)),
        flag_in(m, x as i32, z as i32, y as i32) & mask == 0,
    ensures
        tile_changed(tile_changed(m, x, z, y, mask, true), x, z, y, mask, false) == m,
{
    let xi = x as i32;
    let zi = z as i32;
    let yi = y as i32;
    let b = flag_in(m, xi, zi, yi);
    lemma_mask_bits(b, mask);
    lemma_flag_after_write(m, xi, zi, yi, b | mask, xi, zi, yi);
    crate::rsmod::collision::collision::lemma_indices_in_range(xi, zi, yi);
    let zone = zone_index_of(xi, zi, yi);
    let once = tile_changed(m, x, z, y, mask, true);
    let twice = tile_changed(once, x, z, y, mask, false);
    assert(twice[zone] =~= m[zone]);
    assert(twice =~= m);
}

/// The `k`th tile of a rectangle `width` tiles wide, row by row.
pub open spec fn area_tile(x: int, z: int, width: int, k: int) -> (int, int) {
    (x + k % width, z + k / width)
}

/// The flags of a tile after setting (`add`) or clearing the bits of `mask`.
pub open spec fn mask_applied(b: u32, mask: u32, add: bool) -> u32 {
    if add {
        b | mask
    } else {
        b & !mask
    }
}

/// After changing `mask` on the first `n` tiles of a rectangle: each of them
/// has its zone and the flags it had (absent zones counting as `OPEN`) with
/// `mask` applied; every other tile reads as before, absent zones again
/// counting as `OPEN`; and the zones are the old ones and those of the
/// changed tiles.
pub proof fn lemma_area_changed(
    m: Map<usize, Seq<u32>>,
    x: int,
    z: int,
    y: int,
    width: int,
    n: nat,
    mask: u32,
    add: bool,
)
    requires
        zones_sized(m),
        1 <= width <= 255,
        n <= 255 * 255,
        0 <= x <= 0xffff,
        0 <= z <= 0xffff,
        0 <= y <= 255,
    ensures
        zones_sized(area_changed(m, x, z, y, width, n, mask, add)),
        m.dom().subset_of(area_changed(m, x, z, y, width, n, mask, add).dom()),
        forall|key: usize|
            #[trigger] area_changed(m, x, z, y, width, n, mask, add).contains_key(key)
                ==> m.contains_key(key) || exists|k: int|
                0 <= k < n && key == zone_index_of(
                    #[trigger] area_tile(x, z, width, k).0 as i32,
                    area_tile(x, z, width, k).1 as i32,
                    y as i32,
                ),
        forall|k: int|
            #![trigger area_tile(x, z, width, k)]
            0 <= k < n ==> {
                let t = area_tile(x, z, width, k);
                let r = area_changed(m, x, z, y, width, n, mask, add);
                &&& r.contains_key(zone_index_of(t.0 as i32, t.1 as i32, y as i32))
                &&& flag_in(r, t.0 as i32, t.1 as i32, y as i32) == mask_applied(
                    base_flag_in(m, t.0 as i32, t.1 as i32, y as i32),
                    mask,
                    add,
                )
            },
        forall|tx: i32, tz: i32, ty: i32|
            #![trigger base_flag_in(area_changed(m, x, z, y, width, n, mask, add), tx, tz, ty)]
            (forall|k: int|
                0 <= k < n ==> !same_tile(
                    #[trigger] area_tile(x, z, width, k).0 as i32,
                    area_tile(x, z, width, k).1 as i32,
                    y as i32,
                    tx,
                    tz,
                    ty,
                )) ==> base_flag_in(area_changed(m, x, z, y, width, n, mask, add), tx, tz, ty)
                == base_flag_in(m, tx, tz, ty),
    decreases n,
{
    if n > 0 {
        let p = (n - 1) as nat;
        lemma_area_changed(m, x, z, y, width, p, mask, add);
        let prev = area_changed(m, x, z, y, width, p, mask, add);
        let r = area_changed(m, x, z, y, width, n, mask, add);
        let t = area_tile(x, z, width, p as int);
        let ti = t.0 as i32;
        let tj = t.1 as i32;
        let yi = y as i32;
        let pi = p as int;
        assert(0 <= pi / width <= pi) by (nonlinear_arith)
            requires
                width >= 1,
                pi >= 0,
        ;
        let b = base_flag_in(prev, ti, tj, yi);
        let v = mask_applied(b, mask, add);
        lemma_mask_bits(b, mask);
        assert(r == with_flag(prev, ti, tj, yi, v));
        lemma_flag_after_write(prev, ti, tj, yi, v, ti, tj, yi);
        assert forall|key: usize| #[trigger] r.contains_key(key) implies m.contains_key(key)
            || exists|k: int|
            0 <= k < n && key == zone_index_of(
                #[trigger] area_tile(x, z, width, k).0 as i32,
                area_tile(x, z, width, k).1 as i32,
                y as i32,
            ) by {
            if key == zone_index_of(ti, tj, yi) {
                assert(key == zone_index_of(
                    area_tile(x, z, width, pi).0 as i32,
                    area_tile(x, z, width, pi).1 as i32,
                    y as i32,
                ));
            } else {
                assert(prev.contains_key(key));
            }
        }
        assert forall|k: int|
            #![trigger area_tile(x, z, width, k)]
            0 <= k < n implies {
                let tk = area_tile(x, z, width, k);
                &&& r.contains_key(zone_index_of(tk.0 as i32, tk.1 as i32, y as i32))
                &&& flag_in(r, tk.0 as i32, tk.1 as i32, y as i32) == mask_applied(
                    base_flag_in(m, tk.0 as i32, tk.1 as i32, y as i32),
                    mask,
                    add,
                )
            } by {
            let tk = area_tile(x, z, width, k);
            let ki = tk.0 as i32;
            let kj = tk.1 as i32;
            lemma_flag_after_write(prev, ti, tj, yi, v, ki, kj, yi);
            crate::rsmod::collision::collision::lemma_base_after_write(prev, ti, tj, yi, v, ki, kj, yi);
            if k < pi {
                if same_tile(ti, tj, yi, ki, kj, yi) {
                    lemma_mask_bits(base_flag_in(m, ki, kj, yi), mask);
                    assert(mask_applied(mask_applied(base_flag_in(m, ki, kj, yi), mask, add), mask, add)
                        == mask_applied(base_flag_in(m, ki, kj, yi), mask, add)) by {
                        let c = base_flag_in(m, ki, kj, yi);
                        assert((c | mask) | mask == c | mask && (c & !mask) & !mask == c & !mask)
                            by (bit_vector);
                    }
                }
            } else {
                assert(k == pi);
                if forall|j: int|
                    0 <= j < pi ==> !same_tile(
                        #[trigger] area_tile(x, z, width, j).0 as i32,
                        area_tile(x, z, width, j).1 as i32,
                        y as i32,
                        ti,
                        tj,
                        yi,
                    ) {
                    assert(base_flag_in(prev, ti, tj, yi) == base_flag_in(m, ti, tj, yi));
                } else {
                    let j = choose|j: int|
                        0 <= j < pi && same_tile(
                            #[trigger] area_tile(x, z, width, j).0 as i32,
                            area_tile(x, z, width, j).1 as i32,
                            y as i32,
                            ti,
                            tj,
                            yi,
                        );
                    let tjj = area_tile(x, z, width, j);
                    crate::rsmod::collision::collision::lemma_same_tile_bits(
                        tjj.0 as i32,
                        tjj.1 as i32,
                        yi,
                        ti,
                        tj,
                        yi,
                    );
                    assert(base_flag_in(m, tjj.0 as i32, tjj.1 as i32, yi) == base_flag_in(
                        m,
                        ti,
                        tj,
                        yi,
                    ));
                    lemma_mask_bits(base_flag_in(m, ti, tj, yi), mask);
                    let c = base_flag_in(m, ti, tj, yi);
                    assert((c | mask) | mask == c | mask && (c & !mask) & !mask == c & !mask)
                        by (bit_vector);
                }
            }
        }
        assert forall|tx: i32, tz: i32, ty: i32|
            #![trigger base_flag_in(r, tx, tz, ty)]
            (forall|k: int|
                0 <= k < n ==> !same_tile(
                    #[trigger] area_tile(x, z, width, k).0 as i32,
                    area_tile(x, z, width, k).1 as i32,
                    y as i32,
                    tx,
                    tz,
                    ty,
                )) implies base_flag_in(r, tx, tz, ty) == base_flag_in(m, tx, tz, ty) by {
            crate::rsmod::collision::collision::lemma_base_after_write(prev, ti, tj, yi, v, tx, tz, ty);
            assert(!same_tile(
                area_tile(x, z, width, pi).0 as i32,
                area_tile(x, z, width, pi).1 as i32,
                y as i32,
                tx,
                tz,
                ty,
            ));
        }
    }
}


/// Removing the bits that were added to the tiles of a rectangle gives the
/// map back, when the rectangle's zones existed and its tiles had none of
/// those bits: what `change_loc`, `change_npc` and `change_player` add, the
/// same call with `add` unset takes away.
pub proof fn lemma_area_round_trip(
    m: Map<usize, Seq<u32>>,
    x: int,
    z: int,
    y: int,
    width: int,
    n: nat,
    mask: u32,
)
    requires
        zones_sized(m),
        forall|key: usize| #[trigger] m.contains_key(key) ==> key < TOTAL_ZONE_COUNT,
        1 <= width <= 255,
        n <= 255 * 255,
        0 <= x <= 0xffff,
        0 <= z <= 0xffff,
        0 <= y <= 255,
        forall|k: int|
            #![trigger area_tile(x, z, width, k)]
            0 <= k < n ==> m.contains_key(
                zone_index_of(
                    area_tile(x, z, width, k).0 as i32,
                    area_tile(x, z, width, k).1 as i32,
                    y as i32,
                ),
            ) && flag_in(
                m,
                area_tile(x, z, width, k).0 as i32,
                area_tile(x, z, width, k).1 as i32,
                y as i32,
            ) & mask == 0,
    ensures
        area_changed(area_changed(m, x, z, y, width, n, mask, true), x, z, y, width, n, mask, false)
            == m,
{
    let a = area_changed(m, x, z, y, width, n, mask, true);
    let r = area_changed(a, x, z, y, width, n, mask, false);
    lemma_area_changed(m, x, z, y, width, n, mask, true);
    lemma_area_changed(a, x, z, y, width, n, mask, false);
    assert forall|key: usize| #[trigger] r.contains_key(key) implies m.contains_key(key) by {
        if !a.contains_key(key) {
            let k = choose|k: int|
                0 <= k < n && key == zone_index_of(
                    #[trigger] area_tile(x, z, width, k).0 as i32,
                    area_tile(x, z, width, k).1 as i32,
                    y as i32,
                );
            assert(m.contains_key(key));
        } else if !m.contains_key(key) {
            let k = choose|k: int|
                0 <= k < n && key == zone_index_of(
                    #[trigger] area_tile(x, z, width, k).0 as i32,
                    area_tile(x, z, width, k).1 as i32,
                    y as i32,
                );
            assert(m.contains_key(key));
        }
    }
    assert(r.dom() =~= m.dom());
    assert forall|tx: i32, tz: i32, ty: i32| #[trigger] flag_in(r, tx, tz, ty) == flag_in(m, tx, tz, ty) by {
        if exists|k: int|
            0 <= k < n && same_tile(
                #[trigger] area_tile(x, z, width, k).0 as i32,
                area_tile(x, z, width, k).1 as i32,
                y as i32,
                tx,
                tz,
                ty,
            ) {
            let k = choose|k: int|
                0 <= k < n && same_tile(
                    #[trigger] area_tile(x, z, width, k).0 as i32,
                    area_tile(x, z, width, k).1 as i32,
                    y as i32,
                    tx,
                    tz,
                    ty,
                );
            let t = area_tile(x, z, width, k);
            let b = flag_in(m, t.0 as i32, t.1 as i32, y as i32);
            lemma_mask_bits(b, mask);
            assert(flag_in(a, t.0 as i32, t.1 as i32, y as i32) == b | mask);
            assert(flag_in(r, t.0 as i32, t.1 as i32, y as i32) == (b | mask) & !mask);
        } else {
            assert(base_flag_in(r, tx, tz, ty) == base_flag_in(a, tx, tz, ty));
            assert(base_flag_in(a, tx, tz, ty) == base_flag_in(m, tx, tz, ty));
        }
    }
    lemma_zones_equal_by_tiles(r, m);
}


/// Changes `(x, z, bits)` applied in order to tiles of level `y`.
pub open spec fn ops_applied(
    m: Map<usize, Seq<u32>>,
    ops: Seq<(int, int, u32)>,
    y: int,
    add: bool,
) -> Map<usize, Seq<u32>>
    decreases ops.len(),
{
    if ops.len() == 0 {
        m
    } else {
        let o = ops.last();
        tile_changed(ops_applied(m, ops.drop_last(), y, add), o.0, o.1, y, o.2, add)
    }
}

/// All the bits that the changes in `ops` put on or take off tile
/// `(tx, tz, ty)`.
pub open spec fn ops_mask(ops: Seq<(int, int, u32)>, y: int, tx: i32, tz: i32, ty: i32) -> u32
    decreases ops.len(),
{
    if ops.len() == 0 {
        0
    } else {
        let o = ops.last();
        ops_mask(ops.drop_last(), y, tx, tz, ty) | (if same_tile(
            o.0 as i32,
            o.1 as i32,
            y as i32,
            tx,
            tz,
            ty,
        ) {
            o.2
        } else {
            0
        })
    }
}

/// The changes one tier of a wall of `shape` makes: the tiles and bits named
/// by `straight_wall_tier`, `corner_wall_tier` and `l_wall_tier`, in the same
/// order; none for shapes that are not walls.
pub open spec fn wall_tier_ops(
    x: int,
    z: int,
    angle: u8,
    shape: i8,
    blockrange: bool,
    breakroutefinding: bool,
) -> Seq<(int, int, u32)> {
    let west = wall_tier(WALL_WEST, WALL_WEST_PROJ_BLOCKER, WALL_WEST_ROUTE_BLOCKER, blockrange, breakroutefinding);
    let east = wall_tier(WALL_EAST, WALL_EAST_PROJ_BLOCKER, WALL_EAST_ROUTE_BLOCKER, blockrange, breakroutefinding);
    let north = wall_tier(WALL_NORTH, WALL_NORTH_PROJ_BLOCKER, WALL_NORTH_ROUTE_BLOCKER, blockrange, breakroutefinding);
    let south = wall_tier(WALL_SOUTH, WALL_SOUTH_PROJ_BLOCKER, WALL_SOUTH_ROUTE_BLOCKER, blockrange, breakroutefinding);
    let north_west = wall_tier(WALL_NORTH_WEST, WALL_NORTH_WEST_PROJ_BLOCKER, WALL_NORTH_WEST_ROUTE_BLOCKER, blockrange, breakroutefinding);
    let south_east = wall_tier(WALL_SOUTH_EAST, WALL_SOUTH_EAST_PROJ_BLOCKER, WALL_SOUTH_EAST_ROUTE_BLOCKER, blockrange, breakroutefinding);
    let north_east = wall_tier(WALL_NORTH_EAST, WALL_NORTH_EAST_PROJ_BLOCKER, WALL_NORTH_EAST_ROUTE_BLOCKER, blockrange, breakroutefinding);
    let south_west = wall_tier(WALL_SOUTH_WEST, WALL_SOUTH_WEST_PROJ_BLOCKER, WALL_SOUTH_WEST_ROUTE_BLOCKER, blockrange, breakroutefinding);
    match shape_of(shape) {
        LocShape::WallStraight => match angle_of(angle) {
            LocAngle::West => seq![(x, z, west), (x - 1, z, east)],
            LocAngle::North => seq![(x, z, north), (x, z + 1, south)],
            LocAngle::East => seq![(x, z, east), (x + 1, z, west)],
            LocAngle::South => seq![(x, z, south), (x, z - 1, north)],
        },
        LocShape::WallDiagonalCorner | LocShape::WallSquareCorner => match angle_of(angle) {
            LocAngle::West => seq![(x, z, north_west), (x - 1, z + 1, south_east)],
            LocAngle::North => seq![(x, z, north_east), (x + 1, z + 1, south_west)],
            LocAngle::East => seq![(x, z, south_east), (x + 1, z - 1, north_west)],
            LocAngle::South => seq![(x, z, south_west), (x - 1, z - 1, north_east)],
        },
        LocShape::WallL => match angle_of(angle) {
            LocAngle::West => seq![(x, z, north | west), (x - 1, z, east), (x, z + 1, south)],
            LocAngle::North => seq![(x, z, north | east), (x, z + 1, south), (x + 1, z, west)],
            LocAngle::East => seq![(x, z, south | east), (x + 1, z, west), (x, z - 1, north)],
            LocAngle::South => seq![(x, z, south | west), (x, z - 1, north), (x - 1, z, east)],
        },
        _ => Seq::empty(),
    }
}

/// Every change a wall of `shape` makes, tier by tier, highest first.
pub open spec fn wall_ops(
    x: int,
    z: int,
    angle: u8,
    shape: i8,
    blockrange: bool,
    breakroutefinding: bool,
) -> Seq<(int, int, u32)>
    decreases tiers_measure(blockrange, breakroutefinding),
{
    let tier = wall_tier_ops(x, z, angle, shape, blockrange, breakroutefinding);
    if breakroutefinding {
        tier + wall_ops(x, z, angle, shape, blockrange, false)
    } else if blockrange {
        tier + wall_ops(x, z, angle, shape, false, false)
    } else {
        tier
    }
}

proof fn lemma_base_same_tile(m: Map<usize, Seq<u32>>, a: (i32, i32, i32), b: (i32, i32, i32))
    requires
        same_tile(a.0, a.1, a.2, b.0, b.1, b.2),
    ensures
        base_flag_in(m, a.0, a.1, a.2) == base_flag_in(m, b.0, b.1, b.2),
        flag_in(m, a.0, a.1, a.2) == flag_in(m, b.0, b.1, b.2),
{
}

/// After a run of changes, each tile reads as it did (absent zones counting as
/// `OPEN`) with all the bits changed on it applied; the zones are the old ones
/// and those of the changed tiles.
pub proof fn lemma_ops_applied(m: Map<usize, Seq<u32>>, ops: Seq<(int, int, u32)>, y: int, add: bool)
    requires
        zones_sized(m),
    ensures
        zones_sized(ops_applied(m, ops, y, add)),
        forall|key: usize|
            #[trigger] ops_applied(m, ops, y, add).contains_key(key) <==> (m.contains_key(key)
                || exists|i: int|
                0 <= i < ops.len() && key == zone_index_of(
                    (#[trigger] ops[i]).0 as i32,
                    ops[i].1 as i32,
                    y as i32,
                )),
        forall|tx: i32, tz: i32, ty: i32|
            #[trigger] base_flag_in(ops_applied(m, ops, y, add), tx, tz, ty) == mask_applied(
                base_flag_in(m, tx, tz, ty),
                ops_mask(ops, y, tx, tz, ty),
                add,
            ),
    decreases ops.len(),
{
    if ops.len() == 0 {
        assert forall|tx: i32, tz: i32, ty: i32| #[trigger] base_flag_in(m, tx, tz, ty) == mask_applied(
            base_flag_in(m, tx, tz, ty),
            0,
            add,
        ) by {
            let b = base_flag_in(m, tx, tz, ty);
            assert(b | 0 == b && b & !0u32 == b) by (bit_vector);
        }
    } else {
        let rest = ops.drop_last();
        let o = ops.last();
        lemma_ops_applied(m, rest, y, add);
        let prev = ops_applied(m, rest, y, add);
        let r = ops_applied(m, ops, y, add);
        let oi = o.0 as i32;
        let oj = o.1 as i32;
        let yi = y as i32;
        let b = base_flag_in(prev, oi, oj, yi);
        let v = mask_applied(b, o.2, add);
        assert(r == with_flag(prev, oi, oj, yi, v));
        lemma_flag_after_write(prev, oi, oj, yi, v, oi, oj, yi);
        assert forall|key: usize| #[trigger] r.contains_key(key) <==> (m.contains_key(key) || exists|i: int|
            0 <= i < ops.len() && key == zone_index_of(
                (#[trigger] ops[i]).0 as i32,
                ops[i].1 as i32,
                y as i32,
            )) by {
            if exists|i: int|
                0 <= i < ops.len() && key == zone_index_of(
                    (#[trigger] ops[i]).0 as i32,
                    ops[i].1 as i32,
                    y as i32,
                ) {
                let i = choose|i: int|
                    0 <= i < ops.len() && key == zone_index_of(
                        (#[trigger] ops[i]).0 as i32,
                        ops[i].1 as i32,
                        y as i32,
                    );
                if i < rest.len() {
                    assert(rest[i] == ops[i]);
                }
            }
            if prev.contains_key(key) && !m.contains_key(key) {
                let i = choose|i: int|
                    0 <= i < rest.len() && key == zone_index_of(
                        (#[trigger] rest[i]).0 as i32,
                        rest[i].1 as i32,
                        y as i32,
                    );
                assert(rest[i] == ops[i]);
            }
        }
        assert forall|tx: i32, tz: i32, ty: i32| #[trigger] base_flag_in(r, tx, tz, ty) == mask_applied(
            base_flag_in(m, tx, tz, ty),
            ops_mask(ops, y, tx, tz, ty),
            add,
        ) by {
            crate::rsmod::collision::collision::lemma_base_after_write(prev, oi, oj, yi, v, tx, tz, ty);
            let c = base_flag_in(m, tx, tz, ty);
            let u = ops_mask(rest, y, tx, tz, ty);
            let mk = o.2;
            assert((c | u) | mk == c | (u | mk) && (c & !u) & !mk == c & !(u | mk) && c | (u | 0)
                == c | u && c & !(u | 0) == c & !u) by (bit_vector);
            if same_tile(oi, oj, yi, tx, tz, ty) {
                lemma_base_same_tile(prev, (oi, oj, yi), (tx, tz, ty));
            }
        }
    }
}

/// Applying one run of changes and then another is applying both in order.
pub proof fn lemma_ops_concat(
    m: Map<usize, Seq<u32>>,
    a: Seq<(int, int, u32)>,
    b: Seq<(int, int, u32)>,
    y: int,
    add: bool,
)
    ensures
        ops_applied(ops_applied(m, a, y, add), b, y, add) == ops_applied(m, a + b, y, add),
    decreases b.len(),
{
    if b.len() > 0 {
        lemma_ops_concat(m, a, b.drop_last(), y, add);
        assert((a + b).drop_last() =~= a + b.drop_last());
        assert((a + b).last() == b.last());
    }
}

/// A wall change is its run of changes.
pub proof fn lemma_wall_is_ops(
    m: Map<usize, Seq<u32>>,
    x: int,
    z: int,
    y: int,
    angle: u8,
    shape: i8,
    blockrange: bool,
    breakroutefinding: bool,
    add: bool,
)
    ensures
        wall_changed(m, x, z, y, angle, shape, blockrange, breakroutefinding, add) == ops_applied(
            m,
            wall_ops(x, z, angle, shape, blockrange, breakroutefinding),
            y,
            add,
        ),
    decreases tiers_measure(blockrange, breakroutefinding),
{
    reveal_with_fuel(ops_applied, 4);
    let tier = wall_tier_ops(x, z, angle, shape, blockrange, breakroutefinding);
    let tm = ops_applied(m, tier, y, add);
    match shape_of(shape) {
        LocShape::WallStraight => {
            assert(straight_wall_tier(m, x, z, y, angle, blockrange, breakroutefinding, add) == tm);
        },
        LocShape::WallDiagonalCorner | LocShape::WallSquareCorner => {
            assert(corner_wall_tier(m, x, z, y, angle, blockrange, breakroutefinding, add) == tm);
        },
        LocShape::WallL => {
            assert(l_wall_tier(m, x, z, y, angle, blockrange, breakroutefinding, add) == tm);
        },
        _ => {},
    }
    if breakroutefinding {
        lemma_wall_is_ops(tm, x, z, y, angle, shape, blockrange, false, add);
        lemma_ops_concat(m, tier, wall_ops(x, z, angle, shape, blockrange, false), y, add);
    } else if blockrange {
        lemma_wall_is_ops(tm, x, z, y, angle, shape, false, false, add);
        lemma_ops_concat(m, tier, wall_ops(x, z, angle, shape, false, false), y, add);
    }
}


proof fn lemma_ops_mask_clear(m: Map<usize, Seq<u32>>, ops: Seq<(int, int, u32)>, y: int, tx: i32, tz: i32, ty: i32)
    requires
        forall|i: int|
            0 <= i < ops.len() && same_tile(
                (#[trigger] ops[i]).0 as i32,
                ops[i].1 as i32,
                y as i32,
                tx,
                tz,
                ty,
            ) ==> base_flag_in(m, tx, tz, ty) & ops[i].2 == 0,
    ensures
        base_flag_in(m, tx, tz, ty) & ops_mask(ops, y, tx, tz, ty) == 0,
    decreases ops.len(),
{
    if ops.len() == 0 {
        let b = base_flag_in(m, tx, tz, ty);
        assert(b & 0 == 0) by (bit_vector);
    } else {
        let rest = ops.drop_last();
        assert(ops.last() == ops[ops.len() - 1]);
        assert forall|i: int|
            0 <= i < rest.len() && same_tile(
                (#[trigger] rest[i]).0 as i32,
                rest[i].1 as i32,
                y as i32,
                tx,
                tz,
                ty,
            ) implies base_flag_in(m, tx, tz, ty) & rest[i].2 == 0 by {
            assert(rest[i] == ops[i]);
        }
        lemma_ops_mask_clear(m, rest, y, tx, tz, ty);
        let b = base_flag_in(m, tx, tz, ty);
        let u = ops_mask(rest, y, tx, tz, ty);
        let mk = ops.last().2;
        assert(b & u == 0 ==> (b & mk == 0 ==> b & (u | mk) == 0) && b & (u | 0) == 0) by (bit_vector);
    }
}

/// Taking off the bits a run of changes put on gives the map back, when the
/// changed tiles' zones existed and those tiles had none of the bits.
pub proof fn lemma_ops_round_trip(m: Map<usize, Seq<u32>>, ops: Seq<(int, int, u32)>, y: int)
    requires
        zones_sized(m),
        forall|key: usize| #[trigger] m.contains_key(key) ==> key < TOTAL_ZONE_COUNT,
        forall|i: int|
            0 <= i < ops.len() ==> m.contains_key(
                zone_index_of((#[trigger] ops[i]).0 as i32, ops[i].1 as i32, y as i32),
            ) && flag_in(m, ops[i].0 as i32, ops[i].1 as i32, y as i32) & ops[i].2 == 0,
    ensures
        ops_applied(ops_applied(m, ops, y, true), ops, y, false) == m,
{
    let a = ops_applied(m, ops, y, true);
    let r = ops_applied(a, ops, y, false);
    lemma_ops_applied(m, ops, y, true);
    lemma_ops_applied(a, ops, y, false);
    assert forall|key: usize| #[trigger] r.contains_key(key) implies m.contains_key(key) by {
        if !m.contains_key(key) {
            let i = choose|i: int|
                0 <= i < ops.len() && key == zone_index_of(
                    (#[trigger] ops[i]).0 as i32,
                    ops[i].1 as i32,
                    y as i32,
                );
        }
    }
    assert(r.dom() =~= m.dom());
    assert forall|tx: i32, tz: i32, ty: i32| #[trigger] flag_in(r, tx, tz, ty) == flag_in(m, tx, tz, ty) by {
        assert forall|i: int|
            0 <= i < ops.len() && same_tile(
                (#[trigger] ops[i]).0 as i32,
                ops[i].1 as i32,
                y as i32,
                tx,
                tz,
                ty,
            ) implies base_flag_in(m, tx, tz, ty) & ops[i].2 == 0 by {
            lemma_base_same_tile(m, (ops[i].0 as i32, ops[i].1 as i32, y as i32), (tx, tz, ty));
        }
        lemma_ops_mask_clear(m, ops, y, tx, tz, ty);
        let b = base_flag_in(m, tx, tz, ty);
        let u = ops_mask(ops, y, tx, tz, ty);
        lemma_mask_bits(b, u);
        assert(base_flag_in(r, tx, tz, ty) == b);
    }
    lemma_zones_equal_by_tiles(r, m);
}

/// Removing a wall that was added gives the map back, when the tiles it
/// changes existed and had none of its bits.
pub proof fn lemma_wall_round_trip(
    m: Map<usize, Seq<u32>>,
    x: int,
    z: int,
    y: int,
    angle: u8,
    shape: i8,
    blockrange: bool,
    breakroutefinding: bool,
)
    requires
        zones_sized(m),
        forall|key: usize| #[trigger] m.contains_key(key) ==> key < TOTAL_ZONE_COUNT,
        forall|i: int|
            0 <= i < wall_ops(x, z, angle, shape, blockrange, breakroutefinding).len() ==> {
                let o = #[trigger] wall_ops(x, z, angle, shape, blockrange, breakroutefinding)[i];
                &&& m.contains_key(zone_index_of(o.0 as i32, o.1 as i32, y as i32))
                &&& flag_in(m, o.0 as i32, o.1 as i32, y as i32) & o.2 == 0
            },
    ensures
        wall_changed(
            wall_changed(m, x, z, y, angle, shape, blockrange, breakroutefinding, true),
            x,
            z,
            y,
            angle,
            shape,
            blockrange,
            breakroutefinding,
            false,
        ) == m,
{
    let ops = wall_ops(x, z, angle, shape, blockrange, breakroutefinding);
    lemma_wall_is_ops(m, x, z, y, angle, shape, blockrange, breakroutefinding, true);
    let a = ops_applied(m, ops, y, true);
    lemma_wall_is_ops(a, x, z, y, angle, shape, blockrange, breakroutefinding, false);
    lemma_ops_round_trip(m, ops, y);
}

/// After a wall change every tile reads as it did with all the bits the wall
/// changes on it applied (absent zones counting as `OPEN`).
pub proof fn lemma_wall_changed(
    m: Map<usize, Seq<u32>>,
    x: int,
    z: int,
    y: int,
    angle: u8,
    shape: i8,
    blockrange: bool,
    breakroutefinding: bool,
    add: bool,
)
    requires
        zones_sized(m),
    ensures
        forall|tx: i32, tz: i32, ty: i32|
            #[trigger] base_flag_in(
                wall_changed(m, x, z, y, angle, shape, blockrange, breakroutefinding, add),
                tx,
                tz,
                ty,
            ) == mask_applied(
                base_flag_in(m, tx, tz, ty),
                ops_mask(wall_ops(x, z, angle, shape, blockrange, breakroutefinding), y, tx, tz, ty),
                add,
            ),
{
    lemma_wall_is_ops(m, x, z, y, angle, shape, blockrange, breakroutefinding, add);
    lemma_ops_applied(m, wall_ops(x, z, angle, shape, blockrange, breakroutefinding), y, add);
}

} // verus!
