//! Whether an entity is in range to interact with a loc, by the loc's shape.
use crate::rsmod::collision::collision::CollisionFlagMap;
use crate::rsmod::coord_grid::within_world;
use crate::rsmod::flag::collision_flag::{
    BLOCK_EAST, BLOCK_NORTH, BLOCK_SOUTH, BLOCK_WEST, OPEN, WALL_EAST, WALL_NORTH, WALL_SOUTH,
    WALL_WEST,
};
use crate::rsmod::loc_angle::{angle_of, LocAngle};
use crate::rsmod::loc_shape::{
    WALL_DECOR_DIAGONAL_BOTH, WALL_DECOR_DIAGONAL_NO_OFFSET, WALL_DECOR_DIAGONAL_OFFSET,
    WALL_DIAGONAL, WALL_L, WALL_STRAIGHT,
};
use crate::rsmod::reach::rectangle_boundary::{
    collides, free_of, reach_rectangle_1, reach_rectangle_n, rectangle_1_reached,
    rectangle_n_reached, rectangles_overlap,
};
use crate::rsmod::utils::rotation::{rotate, rotate_flags, rotated, rotated_flags};
use vstd::prelude::*;

verus! {

pub const WALL_STRATEGY: i32 = 0;
pub const WALL_DECOR_STRATEGY: i32 = 1;
pub const RECTANGLE_STRATEGY: i32 = 2;
pub const NO_STRATEGY: i32 = 3;
pub const RECTANGLE_EXCLUSIVE_STRATEGY: i32 = 4;

/// How a loc of `shape` is reached: -2 exclusive rectangle, -1 none, walls
/// (0 to 3 and 9), wall decorations (every other shape below 9), rectangles
/// (10, 11 and 22), none otherwise.
pub open spec fn exit_strategy_of(shape: i8) -> i32 {
    if shape == -2 {
        RECTANGLE_EXCLUSIVE_STRATEGY
    } else if shape == -1 {
        NO_STRATEGY
    } else if (0 <= shape <= 3) || shape == 9 {
        WALL_STRATEGY
    } else if shape < 9 {
        WALL_DECOR_STRATEGY
    } else if (10 <= shape <= 11) || shape == 22 {
        RECTANGLE_STRATEGY
    } else {
        NO_STRATEGY
    }
}

/// Diagonal wall decoration without offset faces the opposite way.
pub open spec fn altered_rotation_of(angle: u8, shape: i8) -> u8 {
    if shape == 7 {
        ((angle + 2) % 4) as u8
    } else {
        angle
    }
}

/// A single-tile entity at `(sx, sz)` whose own tile is flagged `f` reaches a
/// wall at `(dx, dz)`.
pub open spec fn wall_1_reached(sx: int, sz: int, dx: int, dz: int, shape: i8, angle: u8, f: u32) -> bool {
    if shape == WALL_STRAIGHT {
        match angle_of(angle) {
            LocAngle::West => {
                ||| sx == dx - 1 && sz == dz
                ||| sx == dx && sz == dz + 1 && free_of(f, BLOCK_NORTH)
                ||| sx == dx && sz == dz - 1 && free_of(f, BLOCK_SOUTH)
            },
            LocAngle::North => {
                ||| sx == dx && sz == dz + 1
                ||| sx == dx - 1 && sz == dz && free_of(f, BLOCK_WEST)
                ||| sx == dx + 1 && sz == dz && free_of(f, BLOCK_EAST)
            },
            LocAngle::East => {
                ||| sx == dx + 1 && sz == dz
                ||| sx == dx && sz == dz + 1 && free_of(f, BLOCK_NORTH)
                ||| sx == dx && sz == dz - 1 && free_of(f, BLOCK_SOUTH)
            },
            LocAngle::South => {
                ||| sx == dx && sz == dz - 1
                ||| sx == dx - 1 && sz == dz && free_of(f, BLOCK_WEST)
                ||| sx == dx + 1 && sz == dz && free_of(f, BLOCK_EAST)
            },
        }
    } else if shape == WALL_L {
        match angle_of(angle) {
            LocAngle::West => {
                ||| sx == dx - 1 && sz == dz
                ||| sx == dx && sz == dz + 1
                ||| sx == dx + 1 && sz == dz && free_of(f, BLOCK_EAST)
                ||| sx == dx && sz == dz - 1 && free_of(f, BLOCK_SOUTH)
            },
            LocAngle::North => {
                ||| sx == dx - 1 && sz == dz && free_of(f, BLOCK_WEST)
                ||| sx == dx && sz == dz + 1
                ||| sx == dx + 1 && sz == dz
                ||| sx == dx && sz == dz - 1 && free_of(f, BLOCK_SOUTH)
            },
            LocAngle::East => {
                ||| sx == dx - 1 && sz == dz && free_of(f, BLOCK_WEST)
                ||| sx == dx && sz == dz + 1 && free_of(f, BLOCK_NORTH)
                ||| sx == dx + 1 && sz == dz
                ||| sx == dx && sz == dz - 1
            },
            LocAngle::South => {
                ||| sx == dx - 1 && sz == dz
                ||| sx == dx && sz == dz + 1 && free_of(f, BLOCK_NORTH)
                ||| sx == dx + 1 && sz == dz && free_of(f, BLOCK_EAST)
                ||| sx == dx && sz == dz - 1
            },
        }
    } else if shape == WALL_DIAGONAL {
        ||| sx == dx && sz == dz + 1 && free_of(f, WALL_SOUTH)
        ||| sx == dx && sz == dz - 1 && free_of(f, WALL_NORTH)
        ||| sx == dx - 1 && sz == dz && free_of(f, WALL_EAST)
        ||| sx == dx + 1 && sz == dz && free_of(f, WALL_WEST)
    } else {
        false
    }
}

/// An entity of `size` tiles with its south-west tile at `(sx, sz)`, flagged
/// `f`, reaches a wall at `(dx, dz)`.
pub open spec fn wall_n_reached(
    sx: int,
    sz: int,
    dx: int,
    dz: int,
    size: int,
    shape: i8,
    angle: u8,
    f: u32,
) -> bool {
    let east = sx + size - 1;
    let north = sz + size - 1;
    let spans_x = dx >= sx && dx <= east;
    let spans_z = sz <= dz && north >= dz;
    if shape == WALL_STRAIGHT {
        match angle_of(angle) {
            LocAngle::West => {
                ||| sx == dx - size && spans_z
                ||| spans_x && sz == dz + 1 && free_of(f, BLOCK_NORTH)
                ||| spans_x && sz == dz - size && free_of(f, BLOCK_SOUTH)
            },
            LocAngle::North => {
                ||| spans_x && sz == dz + 1
                ||| sx == dx - size && spans_z && free_of(f, BLOCK_WEST)
                ||| sx == dx + 1 && spans_z && free_of(f, BLOCK_EAST)
            },
            LocAngle::East => {
                ||| sx == dx + 1 && spans_z
                ||| spans_x && sz == dz + 1 && free_of(f, BLOCK_NORTH)
                ||| spans_x && sz == dz - size && free_of(f, BLOCK_SOUTH)
            },
            LocAngle::South => {
                ||| spans_x && sz == dz - size
                ||| sx == dx - size && spans_z && free_of(f, BLOCK_WEST)
                ||| sx == dx + 1 && spans_z && free_of(f, BLOCK_EAST)
            },
        }
    } else if shape == WALL_L {
        match angle_of(angle) {
            LocAngle::West => {
                ||| sx == dx - size && spans_z
                ||| spans_x && sz == dz + 1
                ||| sx == dx + 1 && spans_z && free_of(f, BLOCK_EAST)
                ||| spans_x && sz == dz - size && free_of(f, BLOCK_SOUTH)
            },
            LocAngle::North => {
                ||| sx == dx - size && spans_z && free_of(f, BLOCK_WEST)
                ||| spans_x && sz == dz + 1
                ||| sx == dx + 1 && spans_z
                ||| spans_x && sz == dz - size && free_of(f, BLOCK_SOUTH)
            },
            LocAngle::East => {
                ||| sx == dx - size && spans_z && free_of(f, BLOCK_WEST)
                ||| spans_x && sz == dz + 1 && free_of(f, BLOCK_NORTH)
                ||| sx == dx + 1 && spans_z
                ||| spans_x && sz == dz - size
            },
            LocAngle::South => {
                ||| sx == dx - size && spans_z
                ||| spans_x && sz == dz + 1 && free_of(f, BLOCK_NORTH)
                ||| sx == dx + 1 && spans_z && free_of(f, BLOCK_EAST)
                ||| spans_x && sz == dz - size
            },
        }
    } else if shape == WALL_DIAGONAL {
        ||| spans_x && sz == dz + 1 && free_of(f, BLOCK_NORTH)
        ||| spans_x && sz == dz - size && free_of(f, BLOCK_SOUTH)
        ||| sx == dx - size && spans_z && free_of(f, BLOCK_WEST)
        ||| sx == dx + 1 && spans_z && free_of(f, BLOCK_EAST)
    } else {
        false
    }
}

/// A single-tile entity flagged `f` at `(sx, sz)` reaches a wall decoration at
/// `(dx, dz)`.
pub open spec fn wall_decor_1_reached(
    sx: int,
    sz: int,
    dx: int,
    dz: int,
    shape: i8,
    angle: u8,
    f: u32,
) -> bool {
    if shape == WALL_DECOR_DIAGONAL_OFFSET || shape == WALL_DECOR_DIAGONAL_NO_OFFSET {
        match angle_of(altered_rotation_of(angle, shape)) {
            LocAngle::West => {
                ||| sx == dx + 1 && sz == dz && free_of(f, WALL_WEST)
                ||| sx == dx && sz == dz - 1 && free_of(f, WALL_NORTH)
            },
            LocAngle::North => {
                ||| sx == dx - 1 && sz == dz && free_of(f, WALL_EAST)
                ||| sx == dx && sz == dz - 1 && free_of(f, WALL_NORTH)
            },
            LocAngle::East => {
                ||| sx == dx - 1 && sz == dz && free_of(f, WALL_EAST)
                ||| sx == dx && sz == dz + 1 && free_of(f, WALL_SOUTH)
            },
            LocAngle::South => {
                ||| sx == dx + 1 && sz == dz && free_of(f, WALL_WEST)
                ||| sx == dx && sz == dz + 1 && free_of(f, WALL_SOUTH)
            },
        }
    } else if shape == WALL_DECOR_DIAGONAL_BOTH {
        ||| sx == dx && sz == dz + 1 && free_of(f, WALL_SOUTH)
        ||| sx == dx && sz == dz - 1 && free_of(f, WALL_NORTH)
        ||| sx == dx - 1 && sz == dz && free_of(f, WALL_EAST)
        ||| sx == dx + 1 && sz == dz && free_of(f, WALL_WEST)
    } else {
        false
    }
}

/// An entity of `size` tiles flagged `f` at `(sx, sz)` reaches a wall
/// decoration at `(dx, dz)`.
pub open spec fn wall_decor_n_reached(
    sx: int,
    sz: int,
    dx: int,
    dz: int,
    size: int,
    shape: i8,
    angle: u8,
    f: u32,
) -> bool {
    let east = sx + size - 1;
    let north = sz + size - 1;
    let spans_x = sx <= dx && east >= dx;
    let spans_z = sz <= dz && north >= dz;
    if shape == WALL_DECOR_DIAGONAL_OFFSET || shape == WALL_DECOR_DIAGONAL_NO_OFFSET {
        match angle_of(altered_rotation_of(angle, shape)) {
            LocAngle::West => {
                ||| sx == dx + 1 && spans_z && free_of(f, WALL_WEST)
                ||| spans_x && sz == dz - size && free_of(f, WALL_NORTH)
            },
            LocAngle::North => {
                ||| sx == dx - size && spans_z && free_of(f, WALL_EAST)
                ||| spans_x && sz == dz - size && free_of(f, WALL_NORTH)
            },
            LocAngle::East => {
                ||| sx == dx - size && spans_z && free_of(f, WALL_EAST)
                ||| spans_x && sz == dz + 1 && free_of(f, WALL_SOUTH)
            },
            LocAngle::South => {
                ||| sx == dx + 1 && spans_z && free_of(f, WALL_WEST)
                ||| spans_x && sz == dz + 1 && free_of(f, WALL_SOUTH)
            },
        }
    } else if shape == WALL_DECOR_DIAGONAL_BOTH {
        ||| spans_x && sz == dz + 1 && free_of(f, WALL_SOUTH)
        ||| spans_x && sz == dz - size && free_of(f, WALL_NORTH)
        ||| sx == dx - size && spans_z && free_of(f, WALL_EAST)
        ||| sx == dx + 1 && spans_z && free_of(f, WALL_WEST)
    } else {
        false
    }
}

/// The entity stands on the loc's tile: a single-tile entity on it, a larger
/// one covering it.
pub open spec fn covers_tile(sx: int, sz: int, dx: int, dz: int, size: int) -> bool {
    ||| size == 1 && sx == dx && sz == dz
    ||| size != 1 && dx >= sx && size + sx > dx && dz >= sz && size + sz > dz
}

pub open spec fn wall_reached(
    flags: &CollisionFlagMap,
    y: int,
    sx: int,
    sz: int,
    dx: int,
    dz: int,
    size: int,
    shape: i8,
    angle: u8,
) -> bool {
    let f = flags.tile_flag(sx, sz, y);
    if covers_tile(sx, sz, dx, dz, size) {
        true
    } else if size == 1 {
        wall_1_reached(sx, sz, dx, dz, shape, angle, f)
    } else {
        wall_n_reached(sx, sz, dx, dz, size, shape, angle, f)
    }
}

pub open spec fn wall_decor_reached(
    flags: &CollisionFlagMap,
    y: int,
    sx: int,
    sz: int,
    dx: int,
    dz: int,
    size: int,
    shape: i8,
    angle: u8,
) -> bool {
    let f = flags.tile_flag(sx, sz, y);
    if covers_tile(sx, sz, dx, dz, size) {
        true
    } else if size == 1 {
        wall_decor_1_reached(sx, sz, dx, dz, shape, angle, f)
    } else {
        wall_decor_n_reached(sx, sz, dx, dz, size, shape, angle, f)
    }
}

/// The entity touches the rotated rectangle from a side it may approach from.
pub open spec fn rectangle_side_reached(
    flags: &CollisionFlagMap,
    y: int,
    sx: int,
    sz: int,
    dx: int,
    dz: int,
    size: u8,
    dest_width: u8,
    dest_height: u8,
    angle: u8,
    block_access_flags: u8,
) -> bool {
    let width = rotated(angle, dest_width, dest_height);
    let height = rotated(angle, dest_height, dest_width);
    let access = rotated_flags(angle, block_access_flags);
    if size == 1 {
        rectangle_1_reached(flags, y, sx, sz, dx, dz, width as int, height as int, access)
    } else {
        rectangle_n_reached(
            flags,
            y,
            sx,
            sz,
            dx,
            dz,
            size as int,
            size as int,
            width as int,
            height as int,
            access,
        )
    }
}

/// The entity overlaps the rotated rectangle.
pub open spec fn rectangle_overlapped(
    sx: int,
    sz: int,
    dx: int,
    dz: int,
    size: u8,
    dest_width: u8,
    dest_height: u8,
    angle: u8,
) -> bool {
    rectangles_overlap(
        sx,
        sz,
        dx,
        dz,
        size as int,
        size as int,
        rotated(angle, dest_width, dest_height) as int,
        rotated(angle, dest_height, dest_width) as int,
    )
}

/// Whether an entity of `size` at `(sx, sz)` is in range of the loc at
/// `(dx, dz)` with the given dimensions, angle, shape and approach flags.
pub open spec fn reach_result(
    flags: &CollisionFlagMap,
    y: int,
    sx: int,
    sz: int,
    dx: int,
    dz: int,
    dest_width: u8,
    dest_height: u8,
    size: u8,
    angle: u8,
    shape: i8,
    block_access_flags: u8,
) -> bool {
    let strategy = exit_strategy_of(shape);
    if strategy != RECTANGLE_EXCLUSIVE_STRATEGY && sx == dx && sz == dz {
        true
    } else if strategy == WALL_STRATEGY {
        wall_reached(flags, y, sx, sz, dx, dz, size as int, shape, angle)
    } else if strategy == WALL_DECOR_STRATEGY {
        wall_decor_reached(flags, y, sx, sz, dx, dz, size as int, shape, angle)
    } else if strategy == RECTANGLE_STRATEGY {
        rectangle_overlapped(sx, sz, dx, dz, size, dest_width, dest_height, angle)
            || rectangle_side_reached(
            flags,
            y,
            sx,
            sz,
            dx,
            dz,
            size,
            dest_width,
            dest_height,
            angle,
            block_access_flags,
        )
    } else if strategy == RECTANGLE_EXCLUSIVE_STRATEGY {
        !rectangle_overlapped(sx, sz, dx, dz, size, dest_width, dest_height, angle)
            && rectangle_side_reached(
            flags,
            y,
            sx,
            sz,
            dx,
            dz,
            size,
            dest_width,
            dest_height,
            angle,
            block_access_flags,
        )
    } else {
        false
    }
}

/// The angles the wall and wall-decoration rules can turn by: straight and
/// L-shaped walls and diagonal offset decorations read one of the four loc
/// angles; the diagonal decoration without offset first turns its angle by
/// two quarter turns, which must not overflow; the other shapes read no angle.
pub open spec fn wall_angle_ok(angle: u8, shape: i8) -> bool {
    &&& (shape == WALL_STRAIGHT || shape == WALL_L || shape == WALL_DECOR_DIAGONAL_OFFSET) ==> angle
        <= 3
    &&& shape == WALL_DECOR_DIAGONAL_NO_OFFSET ==> angle <= 253
}

/// The angles a shape's reach rule reads: walls and wall decorations turn by
/// one of the four loc angles, rectangles rotate their approach flags by up
/// to a full turn, and shapes without a rule read no angle.
pub open spec fn angle_fits(angle: u8, shape: i8) -> bool {
    let strategy = exit_strategy_of(shape);
    &&& (strategy == WALL_STRATEGY || strategy == WALL_DECOR_STRATEGY) ==> wall_angle_ok(angle, shape)
    &&& (strategy == RECTANGLE_STRATEGY || strategy == RECTANGLE_EXCLUSIVE_STRATEGY) ==> angle <= 4
}

pub struct ReachStrategy;

impl ReachStrategy {
    pub fn exit_strategy(shape: i8) -> (r: i32)
        ensures
            r == exit_strategy_of(shape),
    {
        if shape == -2 {
            return RECTANGLE_EXCLUSIVE_STRATEGY;
        } else if shape == -1 {
            return NO_STRATEGY;
        } else if (shape >= 0 && shape <= 3) || shape == 9 {
            return WALL_STRATEGY;
        } else if shape < 9 {
            return WALL_DECOR_STRATEGY;
        } else if (shape >= 10 && shape <= 11) || shape == 22 {
            return RECTANGLE_STRATEGY;
        }
        NO_STRATEGY
    }

    pub fn altered_rotation(angle: u8, shape: i8) -> (r: u8)
        requires
            shape == 7 ==> angle <= 253,
        ensures
            r == altered_rotation_of(angle, shape),
    {
        if shape == 7 {
            let turned: u8 = angle + 2;
            assert(turned & 3 == turned % 4) by (bit_vector);
            turned & 0x3
        } else {
            angle
        }
    }

    pub fn reached(
        flags: &CollisionFlagMap,
        y: i32,
        src_x: i32,
        src_z: i32,
        dest_x: i32,
        dest_z: i32,
        dest_width: u8,
        dest_height: u8,
        src_size: u8,
        angle: u8,
        shape: i8,
        block_access_flags: u8,
    ) -> (r: bool)
        requires
            within_world(src_x as int),
            within_world(src_z as int),
            within_world(dest_x as int),
            within_world(dest_z as int),
            exit_strategy_of(shape) != RECTANGLE_EXCLUSIVE_STRATEGY && src_x == dest_x && src_z
                == dest_z || angle_fits(angle, shape),
        ensures
            r == reach_result(
                flags,
                y as int,
                src_x as int,
                src_z as int,
                dest_x as int,
                dest_z as int,
                dest_width,
                dest_height,
                src_size,
                angle,
                shape,
                block_access_flags,
            ),
    {
        let exit_strategy: i32 = Self::exit_strategy(shape);
        if exit_strategy != RECTANGLE_EXCLUSIVE_STRATEGY && src_x == dest_x && src_z == dest_z {
            return true;
        }
        match exit_strategy {
            WALL_STRATEGY => Self::reach_wall(
                flags,
                y,
                src_x,
                src_z,
                dest_x,
                dest_z,
                src_size,
                shape,
                angle,
            ),
            WALL_DECOR_STRATEGY => Self::reach_wall_decor(
                flags,
                y,
                src_x,
                src_z,
                dest_x,
                dest_z,
                src_size,
                shape,
                angle,
            ),
            RECTANGLE_STRATEGY => Self::reach_rectangle(
                flags,
                y,
                src_x,
                src_z,
                dest_x,
                dest_z,
                src_size,
                dest_width,
                dest_height,
                angle,
                block_access_flags,
            ),
            RECTANGLE_EXCLUSIVE_STRATEGY => Self::reach_exclusive_rectangle(
                flags,
                y,
                src_x,
                src_z,
                dest_x,
                dest_z,
                src_size,
                dest_width,
                dest_height,
                angle,
                block_access_flags,
            ),
            _ => false,
        }
    }

    pub fn reach_rectangle(
        flags: &CollisionFlagMap,
        y: i32,
        src_x: i32,
        src_z: i32,
        dest_x: i32,
        dest_z: i32,
        src_size: u8,
        dest_width: u8,
        dest_height: u8,
        angle: u8,
        block_access_flags: u8,
    ) -> (r: bool)
        requires
            within_world(src_x as int),
            within_world(src_z as int),
            within_world(dest_x as int),
            within_world(dest_z as int),
            angle <= 4,
        ensures
            r == (rectangle_overlapped(
                src_x as int,
                src_z as int,
                dest_x as int,
                dest_z as int,
                src_size,
                dest_width,
                dest_height,
                angle,
            ) || rectangle_side_reached(
                flags,
                y as int,
                src_x as int,
                src_z as int,
                dest_x as int,
                dest_z as int,
                src_size,
                dest_width,
                dest_height,
                angle,
                block_access_flags,
            )),
    {
        let rotated_width: u8 = rotate(angle, dest_width, dest_height);
        let rotated_height: u8 = rotate(angle, dest_height, dest_width);
        let rotated_block_access: u8 = rotate_flags(angle, block_access_flags);
        let collides: bool = collides(
            src_x,
            src_z,
            dest_x,
            dest_z,
            src_size,
            src_size,
            rotated_width,
            rotated_height,
        );
        match src_size {
            1 => collides || reach_rectangle_1(
                flags,
                y,
                src_x,
                src_z,
                dest_x,
                dest_z,
                rotated_width,
                rotated_height,
                rotated_block_access,
            ),
            _ => collides || reach_rectangle_n(
                flags,
                y,
                src_x,
                src_z,
                dest_x,
                dest_z,
                src_size,
                src_size,
                rotated_width,
                rotated_height,
                rotated_block_access,
            ),
        }
    }

    pub fn reach_exclusive_rectangle(
        flags: &CollisionFlagMap,
        y: i32,
        src_x: i32,
        src_z: i32,
        dest_x: i32,
        dest_z: i32,
        src_size: u8,
        dest_width: u8,
        dest_height: u8,
        angle: u8,
        block_access_flags: u8,
    ) -> (r: bool)
        requires
            within_world(src_x as int),
            within_world(src_z as int),
            within_world(dest_x as int),
            within_world(dest_z as int),
            angle <= 4,
        ensures
            r == (!rectangle_overlapped(
                src_x as int,
                src_z as int,
                dest_x as int,
                dest_z as int,
                src_size,
                dest_width,
                dest_height,
                angle,
            ) && rectangle_side_reached(
                flags,
                y as int,
                src_x as int,
                src_z as int,
                dest_x as int,
                dest_z as int,
                src_size,
                dest_width,
                dest_height,
                angle,
                block_access_flags,
            )),
    {
        let rotated_width: u8 = rotate(angle, dest_width, dest_height);
        let rotated_height: u8 = rotate(angle, dest_height, dest_width);
        let rotated_block_access: u8 = rotate_flags(angle, block_access_flags);
        let collides: bool = collides(
            src_x,
            src_z,
            dest_x,
            dest_z,
            src_size,
            src_size,
            rotated_width,
            rotated_height,
        );
        match src_size {
            1 => !collides && reach_rectangle_1(
                flags,
                y,
                src_x,
                src_z,
                dest_x,
                dest_z,
                rotated_width,
                rotated_height,
                rotated_block_access,
            ),
            _ => !collides && reach_rectangle_n(
                flags,
                y,
                src_x,
                src_z,
                dest_x,
                dest_z,
                src_size,
                src_size,
                rotated_width,
                rotated_height,
                rotated_block_access,
            ),
        }
    }

    pub fn reach_wall(
        flags: &CollisionFlagMap,
        y: i32,
        src_x: i32,
        src_z: i32,
        dest_x: i32,
        dest_z: i32,
        src_size: u8,
        shape: i8,
        angle: u8,
    ) -> (r: bool)
        requires
            within_world(src_x as int),
            within_world(src_z as int),
            within_world(dest_x as int),
            within_world(dest_z as int),
            wall_angle_ok(angle, shape),
        ensures
            r == wall_reached(
                flags,
                y as int,
                src_x as int,
                src_z as int,
                dest_x as int,
                dest_z as int,
                src_size as int,
                shape,
                angle,
            ),
    {
        if (src_size == 1 && src_x == dest_x && src_z == dest_z) || (src_size != 1 && dest_x
            >= src_x && src_size as i32 + src_x > dest_x && dest_z >= src_z && src_size as i32
            + src_z > dest_z) {
            return true;
        } else if src_size == 1 {
            return Self::reach_wall_1(flags, y, src_x, src_z, dest_x, dest_z, shape, angle);
        }
        Self::reach_wall_n(flags, y, src_x, src_z, dest_x, dest_z, src_size, shape, angle)
    }

    pub fn reach_wall_decor(
        flags: &CollisionFlagMap,
        y: i32,
        src_x: i32,
        src_z: i32,
        dest_x: i32,
        dest_z: i32,
        src_size: u8,
        shape: i8,
        angle: u8,
    ) -> (r: bool)
        requires
            within_world(src_x as int),
            within_world(src_z as int),
            within_world(dest_x as int),
            within_world(dest_z as int),
            wall_angle_ok(angle, shape),
        ensures
            r == wall_decor_reached(
                flags,
                y as int,
                src_x as int,
                src_z as int,
                dest_x as int,
                dest_z as int,
                src_size as int,
                shape,
                angle,
            ),
    {
        if (src_size == 1 && src_x == dest_x && src_z == dest_z) || (src_size != 1 && dest_x
            >= src_x && src_size as i32 + src_x > dest_x && dest_z >= src_z && src_size as i32
            + src_z > dest_z) {
            return true;
        } else if src_size == 1 {
            return Self::reach_wall_decor_1(flags, y, src_x, src_z, dest_x, dest_z, shape, angle);
        }
        Self::reach_wall_decor_n(flags, y, src_x, src_z, dest_x, dest_z, src_size, shape, angle)
    }

    pub fn reach_wall_1(
        flags: &CollisionFlagMap,
        y: i32,
        src_x: i32,
        src_z: i32,
        dest_x: i32,
        dest_z: i32,
        shape: i8,
        angle: u8,
    ) -> (r: bool)
        requires
            within_world(src_x as int),
            within_world(src_z as int),
            within_world(dest_x as int),
            within_world(dest_z as int),
            wall_angle_ok(angle, shape),
        ensures
            r == wall_1_reached(
                src_x as int,
                src_z as int,
                dest_x as int,
                dest_z as int,
                shape,
                angle,
                flags.tile_flag(src_x as int, src_z as int, y as int),
            ),
    {
        let f: u32 = flags.get(src_x, src_z, y);
        if shape == WALL_STRAIGHT {
            return match LocAngle::from(angle) {
                LocAngle::West => (src_x == dest_x - 1 && src_z == dest_z) || (src_x == dest_x
                    && src_z == dest_z + 1 && (f & BLOCK_NORTH) == OPEN) || (src_x == dest_x
                    && src_z == dest_z - 1 && (f & BLOCK_SOUTH) == OPEN),
                LocAngle::North => (src_x == dest_x && src_z == dest_z + 1) || (src_x == dest_x
                    - 1 && src_z == dest_z && (f & BLOCK_WEST) == OPEN) || (src_x == dest_x + 1
                    && src_z == dest_z && (f & BLOCK_EAST) == OPEN),
                LocAngle::East => (src_x == dest_x + 1 && src_z == dest_z) || (src_x == dest_x
                    && src_z == dest_z + 1 && (f & BLOCK_NORTH) == OPEN) || (src_x == dest_x
                    && src_z == dest_z - 1 && (f & BLOCK_SOUTH) == OPEN),
                LocAngle::South => (src_x == dest_x && src_z == dest_z - 1) || (src_x == dest_x
                    - 1 && src_z == dest_z && (f & BLOCK_WEST) == OPEN) || (src_x == dest_x + 1
                    && src_z == dest_z && (f & BLOCK_EAST) == OPEN),
            };
        } else if shape == WALL_L {
            return match LocAngle::from(angle) {
                LocAngle::West => (src_x == dest_x - 1 && src_z == dest_z) || (src_x == dest_x
                    && src_z == dest_z + 1) || (src_x == dest_x + 1 && src_z == dest_z && (f
                    & BLOCK_EAST) == OPEN) || (src_x == dest_x && src_z == dest_z - 1 && (f
                    & BLOCK_SOUTH) == OPEN),
                LocAngle::North => (src_x == dest_x - 1 && src_z == dest_z && (f & BLOCK_WEST)
                    == OPEN) || (src_x == dest_x && src_z == dest_z + 1) || (src_x == dest_x + 1
                    && src_z == dest_z) || (src_x == dest_x && src_z == dest_z - 1 && (f
                    & BLOCK_SOUTH) == OPEN),
                LocAngle::East => (src_x == dest_x - 1 && src_z == dest_z && (f & BLOCK_WEST)
                    == OPEN) || (src_x == dest_x && src_z == dest_z + 1 && (f & BLOCK_NORTH)
                    == OPEN) || (src_x == dest_x + 1 && src_z == dest_z) || (src_x == dest_x
                    && src_z == dest_z - 1),
                LocAngle::South => (src_x == dest_x - 1 && src_z == dest_z) || (src_x == dest_x
                    && src_z == dest_z + 1 && (f & BLOCK_NORTH) == OPEN) || (src_x == dest_x + 1
                    && src_z == dest_z && (f & BLOCK_EAST) == OPEN) || (src_x == dest_x && src_z
                    == dest_z - 1),
            };
        } else if shape == WALL_DIAGONAL {
            return (src_x == dest_x && src_z == dest_z + 1 && (f & WALL_SOUTH) == OPEN) || (src_x
                == dest_x && src_z == dest_z - 1 && (f & WALL_NORTH) == OPEN) || (src_x == dest_x
                - 1 && src_z == dest_z && (f & WALL_EAST) == OPEN) || (src_x == dest_x + 1 && src_z
                == dest_z && (f & WALL_WEST) == OPEN);
        }
        false
    }

    pub fn reach_wall_n(
        flags: &CollisionFlagMap,
        y: i32,
        src_x: i32,
        src_z: i32,
        dest_x: i32,
        dest_z: i32,
        src_size: u8,
        shape: i8,
        angle: u8,
    ) -> (r: bool)
        requires
            within_world(src_x as int),
            within_world(src_z as int),
            within_world(dest_x as int),
            within_world(dest_z as int),
            wall_angle_ok(angle, shape),
        ensures
            r == wall_n_reached(
                src_x as int,
                src_z as int,
                dest_x as int,
                dest_z as int,
                src_size as int,
                shape,
                angle,
                flags.tile_flag(src_x as int, src_z as int, y as int),
            ),
    {
        let f: u32 = flags.get(src_x, src_z, y);
        let size: i32 = src_size as i32;
        let east: i32 = src_x + size - 1;
        let north: i32 = src_z + size - 1;
        let spans_x = dest_x >= src_x && dest_x <= east;
        let spans_z = src_z <= dest_z && north >= dest_z;
        if shape == WALL_STRAIGHT {
            return match LocAngle::from(angle) {
                LocAngle::West => (src_x == dest_x - size && spans_z) || (spans_x && src_z == dest_z
                    + 1 && (f & BLOCK_NORTH) == OPEN) || (spans_x && src_z == dest_z - size && (f
                    & BLOCK_SOUTH) == OPEN),
                LocAngle::North => (spans_x && src_z == dest_z + 1) || (src_x == dest_x - size
                    && spans_z && (f & BLOCK_WEST) == OPEN) || (src_x == dest_x + 1 && spans_z && (f
                    & BLOCK_EAST) == OPEN),
                LocAngle::East => (src_x == dest_x + 1 && spans_z) || (spans_x && src_z == dest_z
                    + 1 && (f & BLOCK_NORTH) == OPEN) || (spans_x && src_z == dest_z - size && (f
                    & BLOCK_SOUTH) == OPEN),
                LocAngle::South => (spans_x && src_z == dest_z - size) || (src_x == dest_x - size
                    && spans_z && (f & BLOCK_WEST) == OPEN) || (src_x == dest_x + 1 && spans_z && (f
                    & BLOCK_EAST) == OPEN),
            };
        } else if shape == WALL_L {
            return match LocAngle::from(angle) {
                LocAngle::West => (src_x == dest_x - size && spans_z) || (spans_x && src_z == dest_z
                    + 1) || (src_x == dest_x + 1 && spans_z && (f & BLOCK_EAST) == OPEN) || (spans_x
                    && src_z == dest_z - size && (f & BLOCK_SOUTH) == OPEN),
                LocAngle::North => (src_x == dest_x - size && spans_z && (f & BLOCK_WEST) == OPEN)
                    || (spans_x && src_z == dest_z + 1) || (src_x == dest_x + 1 && spans_z) || (
                spans_x && src_z == dest_z - size && (f & BLOCK_SOUTH) == OPEN),
                LocAngle::East => (src_x == dest_x - size && spans_z && (f & BLOCK_WEST) == OPEN)
                    || (spans_x && src_z == dest_z + 1 && (f & BLOCK_NORTH) == OPEN) || (src_x
                    == dest_x + 1 && spans_z) || (spans_x && src_z == dest_z - size),
                LocAngle::South => (src_x == dest_x - size && spans_z) || (spans_x && src_z
                    == dest_z + 1 && (f & BLOCK_NORTH) == OPEN) || (src_x == dest_x + 1 && spans_z
                    && (f & BLOCK_EAST) == OPEN) || (spans_x && src_z == dest_z - size),
            };
        } else if shape == WALL_DIAGONAL {
            return (spans_x && src_z == dest_z + 1 && (f & BLOCK_NORTH) == OPEN) || (spans_x
                && src_z == dest_z - size && (f & BLOCK_SOUTH) == OPEN) || (src_x == dest_x - size
                && spans_z && (f & BLOCK_WEST) == OPEN) || (src_x == dest_x + 1 && spans_z && (f
                & BLOCK_EAST) == OPEN);
        }
        false
    }

    pub fn reach_wall_decor_1(
        flags: &CollisionFlagMap,
        y: i32,
        src_x: i32,
        src_z: i32,
        dest_x: i32,
        dest_z: i32,
        shape: i8,
        angle: u8,
    ) -> (r: bool)
        requires
            within_world(src_x as int),
            within_world(src_z as int),
            within_world(dest_x as int),
            within_world(dest_z as int),
            wall_angle_ok(angle, shape),
        ensures
            r == wall_decor_1_reached(
                src_x as int,
                src_z as int,
                dest_x as int,
                dest_z as int,
                shape,
                angle,
                flags.tile_flag(src_x as int, src_z as int, y as int),
            ),
    {
        let f: u32 = flags.get(src_x, src_z, y);
        if shape == WALL_DECOR_DIAGONAL_OFFSET || shape == WALL_DECOR_DIAGONAL_NO_OFFSET {
            return match LocAngle::from(Self::altered_rotation(angle, shape)) {
                LocAngle::West => (src_x == dest_x + 1 && src_z == dest_z && (f & WALL_WEST)
                    == OPEN) || (src_x == dest_x && src_z == dest_z - 1 && (f & WALL_NORTH)
                    == OPEN),
                LocAngle::North => (src_x == dest_x - 1 && src_z == dest_z && (f & WALL_EAST)
                    == OPEN) || (src_x == dest_x && src_z == dest_z - 1 && (f & WALL_NORTH)
                    == OPEN),
                LocAngle::East => (src_x == dest_x - 1 && src_z == dest_z && (f & WALL_EAST)
                    == OPEN) || (src_x == dest_x && src_z == dest_z + 1 && (f & WALL_SOUTH)
                    == OPEN),
                LocAngle::South => (src_x == dest_x + 1 && src_z == dest_z && (f & WALL_WEST)
                    == OPEN) || (src_x == dest_x && src_z == dest_z + 1 && (f & WALL_SOUTH)
                    == OPEN),
            };
        } else if shape == WALL_DECOR_DIAGONAL_BOTH {
            return (src_x == dest_x && src_z == dest_z + 1 && (f & WALL_SOUTH) == OPEN) || (src_x
                == dest_x && src_z == dest_z - 1 && (f & WALL_NORTH) == OPEN) || (src_x == dest_x
                - 1 && src_z == dest_z && (f & WALL_EAST) == OPEN) || (src_x == dest_x + 1 && src_z
                == dest_z && (f & WALL_WEST) == OPEN);
        }
        false
    }

    pub fn reach_wall_decor_n(
        flags: &CollisionFlagMap,
        y: i32,
        src_x: i32,
        src_z: i32,
        dest_x: i32,
        dest_z: i32,
        src_size: u8,
        shape: i8,
        angle: u8,
    ) -> (r: bool)
        requires
            within_world(src_x as int),
            within_world(src_z as int),
            within_world(dest_x as int),
            within_world(dest_z as int),
            wall_angle_ok(angle, shape),
        ensures
            r == wall_decor_n_reached(
                src_x as int,
                src_z as int,
                dest_x as int,
                dest_z as int,
                src_size as int,
                shape,
                angle,
                flags.tile_flag(src_x as int, src_z as int, y as int),
            ),
    {
        let f: u32 = flags.get(src_x, src_z, y);
        let size: i32 = src_size as i32;
        let east: i32 = src_x + size - 1;
        let north: i32 = src_z + size - 1;
        let spans_x = src_x <= dest_x && east >= dest_x;
        let spans_z = src_z <= dest_z && north >= dest_z;
        if shape == WALL_DECOR_DIAGONAL_OFFSET || shape == WALL_DECOR_DIAGONAL_NO_OFFSET {
            return match LocAngle::from(Self::altered_rotation(angle, shape)) {
                LocAngle::West => (src_x == dest_x + 1 && spans_z && (f & WALL_WEST) == OPEN) || (
                spans_x && src_z == dest_z - size && (f & WALL_NORTH) == OPEN),
                LocAngle::North => (src_x == dest_x - size && spans_z && (f & WALL_EAST) == OPEN)
                    || (spans_x && src_z == dest_z - size && (f & WALL_NORTH) == OPEN),
                LocAngle::East => (src_x == dest_x - size && spans_z && (f & WALL_EAST) == OPEN)
                    || (spans_x && src_z == dest_z + 1 && (f & WALL_SOUTH) == OPEN),
                LocAngle::South => (src_x == dest_x + 1 && spans_z && (f & WALL_WEST) == OPEN) || (
                spans_x && src_z == dest_z + 1 && (f & WALL_SOUTH) == OPEN),
            };
        } else if shape == WALL_DECOR_DIAGONAL_BOTH {
            return (spans_x && src_z == dest_z + 1 && (f & WALL_SOUTH) == OPEN) || (spans_x && src_z
                == dest_z - size && (f & WALL_NORTH) == OPEN) || (src_x == dest_x - size && spans_z
                && (f & WALL_EAST) == OPEN) || (src_x == dest_x + 1 && spans_z && (f & WALL_WEST)
                == OPEN);
        }
        false
    }
}

/// Rectangle reach is overlap or the exclusive rule: an overlapping source
/// always reaches, and otherwise both rules agree on the sides.
pub proof fn lemma_rectangle_reach_split(
    flags: &CollisionFlagMap,
    y: int,
    sx: int,
    sz: int,
    dx: int,
    dz: int,
    size: u8,
    dest_width: u8,
    dest_height: u8,
    angle: u8,
    block_access_flags: u8,
)
    ensures
        (rectangle_overlapped(sx, sz, dx, dz, size, dest_width, dest_height, angle)
            || rectangle_side_reached(
            flags,
            y,
            sx,
            sz,
            dx,
            dz,
            size,
            dest_width,
            dest_height,
            angle,
            block_access_flags,
        )) == (rectangle_overlapped(sx, sz, dx, dz, size, dest_width, dest_height, angle) || (
        !rectangle_overlapped(sx, sz, dx, dz, size, dest_width, dest_height, angle)
            && rectangle_side_reached(
            flags,
            y,
            sx,
            sz,
            dx,
            dz,
            size,
            dest_width,
            dest_height,
            angle,
            block_access_flags,
        ))),
        rectangle_overlapped(sx, sz, dx, dz, size, dest_width, dest_height, angle)
            == rectangles_overlap(
            sx,
            sz,
            dx,
            dz,
            size as int,
            size as int,
            rotated(angle, dest_width, dest_height) as int,
            rotated(angle, dest_height, dest_width) as int,
        ),
{
}

/// The diagonal wall decoration without offset is reached as the one with
/// offset turned by two quarter turns, for sources of any size.
pub proof fn lemma_decor_half_turn(
    sx: int,
    sz: int,
    dx: int,
    dz: int,
    size: int,
    angle: u8,
    f: u32,
)
    requires
        angle <= 253,
    ensures
        wall_decor_1_reached(sx, sz, dx, dz, WALL_DECOR_DIAGONAL_NO_OFFSET, angle, f)
            == wall_decor_1_reached(
            sx,
            sz,
            dx,
            dz,
            WALL_DECOR_DIAGONAL_OFFSET,
            ((angle + 2) % 4) as u8,
            f,
        ),
        wall_decor_n_reached(sx, sz, dx, dz, size, WALL_DECOR_DIAGONAL_NO_OFFSET, angle, f)
            == wall_decor_n_reached(
            sx,
            sz,
            dx,
            dz,
            size,
            WALL_DECOR_DIAGONAL_OFFSET,
            ((angle + 2) % 4) as u8,
            f,
        ),
{
}

/// An entity of `size` tiles with its south-west tile at `(sx, sz)` lies
/// directly against side `side` (0 west, 1 north, 2 east, 3 south) of the
/// tile `(dx, dz)`: its edge touches that side along a run that covers it.
pub open spec fn touches_side(sx: int, sz: int, dx: int, dz: int, size: int, side: int) -> bool {
    let covers_x = sx <= dx < sx + size;
    let covers_z = sz <= dz < sz + size;
    if side == 0 {
        sx + size == dx && covers_z
    } else if side == 1 {
        sz == dz + 1 && covers_x
    } else if side == 2 {
        sx == dx + 1 && covers_z
    } else {
        sz + size == dz && covers_x
    }
}

/// A wall is reached from the sides it covers, whatever the flags: a straight
/// wall from the side its angle names, an L-shaped wall also from the next
/// side clockwise.
pub proof fn lemma_wall_face_reached(
    flags: &CollisionFlagMap,
    y: int,
    sx: int,
    sz: int,
    dx: int,
    dz: int,
    dest_width: u8,
    dest_height: u8,
    size: u8,
    angle: u8,
    block_access_flags: u8,
)
    requires
        size >= 1,
        angle <= 3,
    ensures
        touches_side(sx, sz, dx, dz, size as int, angle as int) ==> reach_result(
            flags,
            y,
            sx,
            sz,
            dx,
            dz,
            dest_width,
            dest_height,
            size,
            angle,
            WALL_STRAIGHT,
            block_access_flags,
        ),
        touches_side(sx, sz, dx, dz, size as int, angle as int) || touches_side(
            sx,
            sz,
            dx,
            dz,
            size as int,
            (angle as int + 1) % 4,
        ) ==> reach_result(
            flags,
            y,
            sx,
            sz,
            dx,
            dz,
            dest_width,
            dest_height,
            size,
            angle,
            WALL_L,
            block_access_flags,
        ),
{
}


/// A wall is reached only by an entity standing on its tile or right beside
/// it: whatever the flags, an entity that neither covers the wall's tile nor
/// lies against one of its four sides does not reach it.
pub proof fn lemma_wall_reached_only_beside(
    flags: &CollisionFlagMap,
    y: int,
    sx: int,
    sz: int,
    dx: int,
    dz: int,
    dest_width: u8,
    dest_height: u8,
    size: u8,
    angle: u8,
    shape: i8,
    block_access_flags: u8,
)
    requires
        size >= 1,
        angle <= 3,
        shape == WALL_STRAIGHT || shape == WALL_L || shape == WALL_DIAGONAL,
        reach_result(
            flags,
            y,
            sx,
            sz,
            dx,
            dz,
            dest_width,
            dest_height,
            size,
            angle,
            shape,
            block_access_flags,
        ),
    ensures
        covers_tile(sx, sz, dx, dz, size as int) || touches_side(sx, sz, dx, dz, size as int, 0)
            || touches_side(sx, sz, dx, dz, size as int, 1) || touches_side(
            sx,
            sz,
            dx,
            dz,
            size as int,
            2,
        ) || touches_side(sx, sz, dx, dz, size as int, 3),
{
}

} // verus!
