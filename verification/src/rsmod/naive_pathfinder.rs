//! The greedy path of an entity that moves without searching: to the side of
//! its target it can interact from, then straight toward the target until
//! aligned with it on both axes or blocked.
use crate::rsmod::collision::collision::CollisionFlagMap;
use crate::rsmod::collision::collision_strategy::CollisionStrategy;
use crate::rsmod::reach::rectangle_boundary::rectangles_overlap;
use crate::rsmod::coord_grid::{packed, within_world, x_of, z_of, CoordGrid};
use crate::rsmod::step_validator::{can_travel, travel_allowed};
use rand::RngExt;
use vstd::prelude::*;

verus! {

/// The rectangle of `src_width` by `src_height` tiles at `(src_x, src_z)`
/// overlaps the one of `dest_width` by `dest_height` tiles at `(dest_x, dest_z)`.
pub open spec fn rects_intersect(
    src_x: int,
    src_z: int,
    src_width: int,
    src_height: int,
    dest_x: int,
    dest_z: int,
    dest_width: int,
    dest_height: int,
) -> bool {
    !(dest_x >= src_x + src_width || dest_x + dest_width <= src_x || dest_z >= src_z + src_height
        || dest_z + dest_height <= src_z)
}

/// The source rectangle touches the destination rectangle only at a corner.
pub open spec fn rects_diagonal(
    src_x: int,
    src_z: int,
    src_width: int,
    src_height: int,
    dest_x: int,
    dest_z: int,
    dest_width: int,
    dest_length: int,
) -> bool {
    ||| src_x + src_width == dest_x && src_z + src_height == dest_z
    ||| src_x - 1 == dest_x + dest_width - 1 && src_z - 1 == dest_z + dest_length - 1
    ||| src_x + src_width == dest_x && src_z - 1 == dest_z + dest_length - 1
    ||| src_x - 1 == dest_x + dest_width - 1 && src_z + src_height == dest_z
}

pub open spec fn at_most(value: int, max: int) -> int {
    if value > max {
        max
    } else {
        value
    }
}

pub open spec fn at_least(value: int, min: int) -> int {
    if value < min {
        min
    } else {
        value
    }
}

/// The tile from which the source rectangle, moving toward the destination
/// rectangle, first comes to rest against its west, north, east or south
/// side, chosen by where the source lies relative to the destination's
/// diagonal and anti-diagonal; `None` when the source touches the
/// destination only at a corner, or when no side applies.
pub open spec fn naive_destination_of(
    y: int,
    src_x: int,
    src_z: int,
    src_width: int,
    src_height: int,
    dest_x: int,
    dest_z: int,
    dest_width: int,
    dest_length: int,
) -> Option<u32> {
    let diagonal = src_x - dest_x + (src_z - dest_z);
    let anti = src_x - dest_x - (src_z - dest_z);
    let southwest_clockwise = anti < 0;
    let northwest_clockwise = diagonal >= dest_length - 1 - (src_width - 1);
    let northeast_clockwise = anti > src_width - src_height;
    let southeast_clockwise = diagonal <= dest_width - 1 - (src_height - 1);
    if rects_diagonal(src_x, src_z, src_width, src_height, dest_x, dest_z, dest_width, dest_length) {
        None
    } else if southwest_clockwise && !northwest_clockwise {
        let off_z = if diagonal >= -src_width {
            at_most(diagonal + src_width, dest_length - 1)
        } else if anti > -src_width {
            -(src_width + anti)
        } else {
            0
        };
        Some(packed(y as i32, (-src_width + dest_x) as i32, (off_z + dest_z) as i32))
    } else if northwest_clockwise && !northeast_clockwise {
        let off_x = if anti >= -dest_length {
            at_most(anti + dest_length, dest_width - 1)
        } else if diagonal < dest_length {
            at_least(diagonal - dest_length, -(src_width - 1))
        } else {
            0
        };
        Some(packed(y as i32, (off_x + dest_x) as i32, (dest_length + dest_z) as i32))
    } else if northeast_clockwise && !southeast_clockwise {
        let off_z = if anti <= dest_width {
            dest_length - anti
        } else if diagonal < dest_width {
            at_least(diagonal - dest_width, -(src_height - 1))
        } else {
            0
        };
        Some(packed(y as i32, (dest_width + dest_x) as i32, (off_z + dest_z) as i32))
    } else if southeast_clockwise && !southwest_clockwise {
        let off_x = if diagonal > -src_height {
            at_most(diagonal + src_height, dest_width - 1)
        } else if anti < src_height {
            at_least(anti - src_height, -(src_height - 1))
        } else {
            0
        };
        Some(packed(y as i32, (off_x + dest_x) as i32, (-src_height + dest_z) as i32))
    } else {
        None
    }
}

pub open spec fn sign(v: int) -> int {
    if v > 0 {
        1
    } else if v < 0 {
        -1
    } else {
        0
    }
}

pub open spec fn abs(v: int) -> int {
    if v < 0 {
        -v
    } else {
        v
    }
}

/// Where an entity of `size` at `(x, z)` stops when it repeatedly steps toward
/// `(dest_x, dest_z)`: diagonally when it may, else along x, else along z,
/// until it stands on the destination (level with it on both axes) or cannot
/// move.
pub open spec fn greedy_end<C: CollisionStrategy>(
    flags: &CollisionFlagMap,
    c: &C,
    y: int,
    x: int,
    z: int,
    dest_x: int,
    dest_z: int,
    size: int,
    extra: u32,
) -> (int, int)
    decreases abs(dest_x - x) + abs(dest_z - z),
{
    let dx = sign(dest_x - x);
    let dz = sign(dest_z - z);
    if x == dest_x && z == dest_z {
        (x, z)
    } else if travel_allowed(flags, c, y, x, z, dx, dz, size, extra) {
        greedy_end(flags, c, y, x + dx, z + dz, dest_x, dest_z, size, extra)
    } else if travel_allowed(flags, c, y, x, z, dx, 0, size, extra) {
        greedy_end(flags, c, y, x + dx, z, dest_x, dest_z, size, extra)
    } else if travel_allowed(flags, c, y, x, z, 0, dz, size, extra) {
        greedy_end(flags, c, y, x, z + dz, dest_x, dest_z, size, extra)
    } else {
        (x, z)
    }
}

/// The cardinal neighbour number `direction` of a tile: west, east, north,
/// south.
pub open spec fn cardinal_offset(direction: int) -> (int, int) {
    if direction == 0 {
        (-1, 0)
    } else if direction == 1 {
        (1, 0)
    } else if direction == 2 {
        (0, 1)
    } else {
        (0, -1)
    }
}

/// The single packed tile the naive path leads to: a cardinal neighbour
/// (number `direction`) when the rectangles overlap, nothing when no side of
/// the destination applies, the side tile itself when it touches the
/// destination at a corner or overlaps it, else where walking from the side
/// tile toward the destination stops.
pub open spec fn naive_path<C: CollisionStrategy>(
    flags: &CollisionFlagMap,
    c: &C,
    y: int,
    src_x: int,
    src_z: int,
    dest_x: int,
    dest_z: int,
    src_width: u8,
    src_height: u8,
    dest_width: u8,
    dest_height: u8,
    extra_flag: u32,
    direction: int,
) -> Seq<u32> {
    if rects_intersect(
        src_x,
        src_z,
        src_width as int,
        src_height as int,
        dest_x,
        dest_z,
        dest_width as int,
        dest_height as int,
    ) {
        let off = cardinal_offset(direction);
        seq![packed(y as i32, (src_x + off.0) as i32, (src_z + off.1) as i32)]
    } else {
        match naive_destination_of(
            y,
            src_x,
            src_z,
            src_width as int,
            src_height as int,
            dest_x,
            dest_z,
            1,
            1,
        ) {
            None => Seq::empty(),
            Some(side) => {
                let sx = x_of(side) as int;
                let sz = z_of(side) as int;
                if rects_diagonal(
                    sx,
                    sz,
                    src_width as int,
                    src_height as int,
                    dest_x,
                    dest_z,
                    dest_width as int,
                    dest_height as int,
                ) || rects_intersect(
                    sx,
                    sz,
                    src_width as int,
                    src_height as int,
                    dest_x,
                    dest_z,
                    dest_width as int,
                    dest_height as int,
                ) {
                    seq![side]
                } else {
                    let end = greedy_end(
                        flags,
                        c,
                        y,
                        sx,
                        sz,
                        dest_x,
                        dest_z,
                        src_width as int,
                        extra_flag,
                    );
                    seq![packed(y as i32, end.0 as i32, end.1 as i32)]
                }
            },
        }
    }
}

/// Whether the two rectangles overlap.
pub fn intersects(
    src_x: i32,
    src_z: i32,
    src_width: u8,
    src_height: u8,
    dest_x: i32,
    dest_z: i32,
    dest_width: u8,
    dest_height: u8,
) -> (r: bool)
    requires
        within_world(src_x as int),
        within_world(src_z as int),
        within_world(dest_x as int),
        within_world(dest_z as int),
    ensures
        r == rects_intersect(
            src_x as int,
            src_z as int,
            src_width as int,
            src_height as int,
            dest_x as int,
            dest_z as int,
            dest_width as int,
            dest_height as int,
        ),
{
    let src_horizontal: i32 = src_x + src_width as i32;
    let src_vertical: i32 = src_z + src_height as i32;
    let dest_horizontal: i32 = dest_x + dest_width as i32;
    let dest_vertical: i32 = dest_z + dest_height as i32;
    !(dest_x >= src_horizontal || dest_horizontal <= src_x || dest_z >= src_vertical
        || dest_vertical <= src_z)
}

/// Whether the source rectangle touches the destination rectangle only at a
/// corner.
pub fn is_diagonal(
    src_x: i32,
    src_z: i32,
    src_width: i32,
    src_height: i32,
    dest_x: i32,
    dest_z: i32,
    dest_width: i32,
    dest_length: i32,
) -> (r: bool)
    requires
        within_world(src_x as int),
        within_world(src_z as int),
        within_world(dest_x as int),
        within_world(dest_z as int),
        within_world(src_width as int),
        within_world(src_height as int),
        within_world(dest_width as int),
        within_world(dest_length as int),
    ensures
        r == rects_diagonal(
            src_x as int,
            src_z as int,
            src_width as int,
            src_height as int,
            dest_x as int,
            dest_z as int,
            dest_width as int,
            dest_length as int,
        ),
{
    if src_x + src_width == dest_x && src_z + src_height == dest_z {
        return true;
    }
    if src_x - 1 == dest_x + dest_width - 1 && src_z - 1 == dest_z + dest_length - 1 {
        return true;
    }
    if src_x + src_width == dest_x && src_z - 1 == dest_z + dest_length - 1 {
        return true;
    }
    src_x - 1 == dest_x + dest_width - 1 && src_z + src_height == dest_z
}

/// `value`, lowered to `max` when above it.
pub fn coerce_at_most(value: i32, max: i32) -> (r: i32)
    ensures
        r == at_most(value as int, max as int),
{
    if value > max {
        max
    } else {
        value
    }
}

/// `value`, raised to `min` when below it.
pub fn coerce_at_least(value: i32, min: i32) -> (r: i32)
    ensures
        r == at_least(value as int, min as int),
{
    if value < min {
        min
    } else {
        value
    }
}

/// The packed tile at which the source rectangle comes to rest against the
/// destination rectangle; see `naive_destination_of`.
pub fn naive_destination(
    y: i32,
    src_x: i32,
    src_z: i32,
    src_width: i32,
    src_height: i32,
    dest_x: i32,
    dest_z: i32,
    dest_width: i32,
    dest_length: i32,
) -> (r: Option<u32>)
    requires
        within_world(src_x as int),
        within_world(src_z as int),
        within_world(dest_x as int),
        within_world(dest_z as int),
        0 <= src_width <= 255,
        0 <= src_height <= 255,
        0 <= dest_width <= 255,
        0 <= dest_length <= 255,
    ensures
        r == naive_destination_of(
            y as int,
            src_x as int,
            src_z as int,
            src_width as int,
            src_height as int,
            dest_x as int,
            dest_z as int,
            dest_width as int,
            dest_length as int,
        ),
{
    let diagonal: i32 = src_x - dest_x + (src_z - dest_z);
    let anti: i32 = src_x - dest_x - (src_z - dest_z);
    let southwest_clockwise: bool = anti < 0;
    let northwest_clockwise: bool = diagonal >= dest_length - 1 - (src_width - 1);
    let northeast_clockwise: bool = anti > src_width - src_height;
    let southeast_clockwise: bool = diagonal <= dest_width - 1 - (src_height - 1);
    if is_diagonal(src_x, src_z, src_width, src_height, dest_x, dest_z, dest_width, dest_length) {
        None
    } else if southwest_clockwise && !northwest_clockwise {
        let mut off_z: i32 = 0;
        if diagonal >= -src_width {
            off_z = coerce_at_most(diagonal + src_width, dest_length - 1);
        } else if anti > -src_width {
            off_z = -(src_width + anti);
        }
        Some(CoordGrid::new(y, -src_width + dest_x, off_z + dest_z).0)
    } else if northwest_clockwise && !northeast_clockwise {
        let mut off_x: i32 = 0;
        if anti >= -dest_length {
            off_x = coerce_at_most(anti + dest_length, dest_width - 1);
        } else if diagonal < dest_length {
            off_x = coerce_at_least(diagonal - dest_length, -(src_width - 1));
        }
        Some(CoordGrid::new(y, off_x + dest_x, dest_length + dest_z).0)
    } else if northeast_clockwise && !southeast_clockwise {
        let mut off_z: i32 = 0;
        if anti <= dest_width {
            off_z = dest_length - anti;
        } else if diagonal < dest_width {
            off_z = coerce_at_least(diagonal - dest_width, -(src_height - 1));
        }
        Some(CoordGrid::new(y, dest_width + dest_x, off_z + dest_z).0)
    } else if southeast_clockwise && !southwest_clockwise {
        let mut off_x: i32 = 0;
        if diagonal > -src_height {
            off_x = coerce_at_most(diagonal + src_height, dest_width - 1);
        } else if anti < src_height {
            off_x = coerce_at_least(anti - src_height, -(src_height - 1));
        }
        Some(CoordGrid::new(y, off_x + dest_x, -src_height + dest_z).0)
    } else {
        None
    }
}

/// Calls `rand::rng().random_range(0..bound)`: a number drawn from the
/// thread-local generator, below `bound`. rand panics on an empty range, so
/// `bound` must be positive; which number comes back is chance.
#[verifier::external_body]
fn random_below(bound: usize) -> (r: usize)
    requires
        bound > 0,
    ensures
        r < bound,
{
    rand::rng().random_range(0..bound)
}

/// The packed cardinal neighbour number `direction` (west, east, north,
/// south) of `(src_x, src_z)`.
pub fn cardinal_destination(y: i32, src_x: i32, src_z: i32, direction: usize) -> (r: u32)
    requires
        within_world(src_x as int),
        within_world(src_z as int),
        direction < 4,
    ensures
        r == packed(
            y,
            (src_x + cardinal_offset(direction as int).0) as i32,
            (src_z + cardinal_offset(direction as int).1) as i32,
        ),
{
    let offsets: [(i32, i32); 4] = [(-1, 0), (1, 0), (0, 1), (0, -1)];
    let (dx, dz): (i32, i32) = offsets[direction];
    CoordGrid::new(y, src_x + dx, src_z + dz).0
}

fn signum(v: i32) -> (r: i8)
    ensures
        r == sign(v as int),
{
    if v > 0 {
        1
    } else if v < 0 {
        -1
    } else {
        0
    }
}

/// The naive path with the cardinal neighbour for overlapping rectangles
/// given as `direction` (west, east, north, south).
pub fn find_naive_path_towards<C: CollisionStrategy>(
    flags: &CollisionFlagMap,
    y: i32,
    src_x: i32,
    src_z: i32,
    dest_x: i32,
    dest_z: i32,
    src_width: u8,
    src_height: u8,
    dest_width: u8,
    dest_height: u8,
    extra_flag: u32,
    collision: &C,
    direction: usize,
) -> (r: Vec<u32>)
    requires
        within_world(src_x as int),
        within_world(src_z as int),
        within_world(dest_x as int),
        within_world(dest_z as int),
        direction < 4,
    ensures
        r@ == naive_path(
            flags,
            collision,
            y as int,
            src_x as int,
            src_z as int,
            dest_x as int,
            dest_z as int,
            src_width,
            src_height,
            dest_width,
            dest_height,
            extra_flag,
            direction as int,
        ),
{
    if intersects(src_x, src_z, src_width, src_height, dest_x, dest_z, dest_width, dest_height) {
        return vec![cardinal_destination(y, src_x, src_z, direction)];
    }
    let side: u32 = match naive_destination(
        y,
        src_x,
        src_z,
        src_width as i32,
        src_height as i32,
        dest_x,
        dest_z,
        1,
        1,
    ) {
        Some(d) => d,
        None => return Vec::new(),
    };
    let side_x: i32 = CoordGrid::from(side).x() as i32;
    let side_z: i32 = CoordGrid::from(side).z() as i32;
    if is_diagonal(
        side_x,
        side_z,
        src_width as i32,
        src_height as i32,
        dest_x,
        dest_z,
        dest_width as i32,
        dest_height as i32,
    ) {
        return vec![side];
    }
    if intersects(side_x, side_z, src_width, src_height, dest_x, dest_z, dest_width, dest_height) {
        return vec![side];
    }
    let mut curr_x: i32 = side_x;
    let mut curr_z: i32 = side_z;
    while curr_x != dest_x || curr_z != dest_z
        invariant
            side_x <= curr_x <= dest_x || dest_x <= curr_x <= side_x,
            side_z <= curr_z <= dest_z || dest_z <= curr_z <= side_z,
            0 <= side_x < 0x4000,
            0 <= side_z < 0x4000,
            within_world(dest_x as int),
            within_world(dest_z as int),
            greedy_end(
                flags,
                collision,
                y as int,
                curr_x as int,
                curr_z as int,
                dest_x as int,
                dest_z as int,
                src_width as int,
                extra_flag,
            ) == greedy_end(
                flags,
                collision,
                y as int,
                side_x as int,
                side_z as int,
                dest_x as int,
                dest_z as int,
                src_width as int,
                extra_flag,
            ),
        ensures
            greedy_end(
                flags,
                collision,
                y as int,
                side_x as int,
                side_z as int,
                dest_x as int,
                dest_z as int,
                src_width as int,
                extra_flag,
            ) == (curr_x as int, curr_z as int),
        decreases abs(dest_x - curr_x) + abs(dest_z - curr_z),
    {
        let dx: i8 = signum(dest_x - curr_x);
        let dz: i8 = signum(dest_z - curr_z);
        if can_travel(flags, y, curr_x, curr_z, dx, dz, src_width, extra_flag, collision) {
            curr_x = curr_x + dx as i32;
            curr_z = curr_z + dz as i32;
        } else if dx != 0 && can_travel(
            flags,
            y,
            curr_x,
            curr_z,
            dx,
            0,
            src_width,
            extra_flag,
            collision,
        ) {
            curr_x = curr_x + dx as i32;
        } else if dz != 0 && can_travel(
            flags,
            y,
            curr_x,
            curr_z,
            0,
            dz,
            src_width,
            extra_flag,
            collision,
        ) {
            curr_z = curr_z + dz as i32;
        } else {
            break;
        }
    }
    vec![CoordGrid::new(y, curr_x, curr_z).0]
}

/// The naive path: one packed tile, or none when no side of the destination
/// applies. For overlapping rectangles the tile is a cardinal neighbour of
/// the source picked at random; otherwise the result does not depend on
/// chance.
pub fn find_naive_path<C: CollisionStrategy>(
    flags: &CollisionFlagMap,
    y: i32,
    src_x: i32,
    src_z: i32,
    dest_x: i32,
    dest_z: i32,
    src_width: u8,
    src_height: u8,
    dest_width: u8,
    dest_height: u8,
    extra_flag: u32,
    collision: &C,
) -> (r: Vec<u32>)
    requires
        within_world(src_x as int),
        within_world(src_z as int),
        within_world(dest_x as int),
        within_world(dest_z as int),
    ensures
        exists|direction: int|
            0 <= direction < 4 && r@ == #[trigger] naive_path(
                flags,
                collision,
                y as int,
                src_x as int,
                src_z as int,
                dest_x as int,
                dest_z as int,
                src_width,
                src_height,
                dest_width,
                dest_height,
                extra_flag,
                direction,
            ),
        !rects_intersect(
            src_x as int,
            src_z as int,
            src_width as int,
            src_height as int,
            dest_x as int,
            dest_z as int,
            dest_width as int,
            dest_height as int,
        ) ==> r@ == naive_path(
            flags,
            collision,
            y as int,
            src_x as int,
            src_z as int,
            dest_x as int,
            dest_z as int,
            src_width,
            src_height,
            dest_width,
            dest_height,
            extra_flag,
            0,
        ),
{
    let direction: usize = if intersects(
        src_x,
        src_z,
        src_width,
        src_height,
        dest_x,
        dest_z,
        dest_width,
        dest_height,
    ) {
        random_below(4)
    } else {
        0
    };
    find_naive_path_towards(
        flags,
        y,
        src_x,
        src_z,
        dest_x,
        dest_z,
        src_width,
        src_height,
        dest_width,
        dest_height,
        extra_flag,
        collision,
        direction,
    )
}


/// The naive path is never longer than one tile, and rectangles that overlap
/// always get one.
pub proof fn lemma_naive_path_len<C: CollisionStrategy>(
    flags: &CollisionFlagMap,
    c: &C,
    y: int,
    src_x: int,
    src_z: int,
    dest_x: int,
    dest_z: int,
    src_width: u8,
    src_height: u8,
    dest_width: u8,
    dest_height: u8,
    extra_flag: u32,
    direction: int,
)
    ensures
        naive_path(
            flags,
            c,
            y,
            src_x,
            src_z,
            dest_x,
            dest_z,
            src_width,
            src_height,
            dest_width,
            dest_height,
            extra_flag,
            direction,
        ).len() <= 1,
        rects_intersect(
            src_x,
            src_z,
            src_width as int,
            src_height as int,
            dest_x,
            dest_z,
            dest_width as int,
            dest_height as int,
        ) ==> naive_path(
            flags,
            c,
            y,
            src_x,
            src_z,
            dest_x,
            dest_z,
            src_width,
            src_height,
            dest_width,
            dest_height,
            extra_flag,
            direction,
        ).len() == 1,
{
}

/// The greedy walk stops only where it has to: on the destination, or where
/// none of the steps toward it (diagonal, along x, along z) is allowed. It
/// never overshoots: it ends within the box spanned by its start and the
/// destination.
pub proof fn lemma_greedy_end_stuck<C: CollisionStrategy>(
    flags: &CollisionFlagMap,
    c: &C,
    y: int,
    x: int,
    z: int,
    dest_x: int,
    dest_z: int,
    size: int,
    extra: u32,
)
    ensures
        ({
            let e = greedy_end(flags, c, y, x, z, dest_x, dest_z, size, extra);
            let dx = sign(dest_x - e.0);
            let dz = sign(dest_z - e.1);
            &&& e == (dest_x, dest_z) || {
                &&& !travel_allowed(flags, c, y, e.0, e.1, dx, dz, size, extra)
                &&& !travel_allowed(flags, c, y, e.0, e.1, dx, 0, size, extra)
                &&& !travel_allowed(flags, c, y, e.0, e.1, 0, dz, size, extra)
            }
            &&& (x <= e.0 <= dest_x || dest_x <= e.0 <= x)
            &&& (z <= e.1 <= dest_z || dest_z <= e.1 <= z)
        }),
    decreases abs(dest_x - x) + abs(dest_z - z),
{
    let dx = sign(dest_x - x);
    let dz = sign(dest_z - z);
    if x == dest_x && z == dest_z {
    } else if travel_allowed(flags, c, y, x, z, dx, dz, size, extra) {
        lemma_greedy_end_stuck(flags, c, y, x + dx, z + dz, dest_x, dest_z, size, extra);
    } else if travel_allowed(flags, c, y, x, z, dx, 0, size, extra) {
        lemma_greedy_end_stuck(flags, c, y, x + dx, z, dest_x, dest_z, size, extra);
    } else if travel_allowed(flags, c, y, x, z, 0, dz, size, extra) {
        lemma_greedy_end_stuck(flags, c, y, x, z + dz, dest_x, dest_z, size, extra);
    }
}

/// The naive mover's overlap test is the rectangle overlap of the reach
/// rules, and it does not depend on which rectangle comes first.
pub proof fn lemma_intersect_is_overlap(
    src_x: int,
    src_z: int,
    src_width: int,
    src_height: int,
    dest_x: int,
    dest_z: int,
    dest_width: int,
    dest_height: int,
)
    ensures
        rects_intersect(src_x, src_z, src_width, src_height, dest_x, dest_z, dest_width, dest_height)
            == rectangles_overlap(
            src_x,
            src_z,
            dest_x,
            dest_z,
            src_width,
            src_height,
            dest_width,
            dest_height,
        ),
        rects_intersect(src_x, src_z, src_width, src_height, dest_x, dest_z, dest_width, dest_height)
            == rects_intersect(
            dest_x,
            dest_z,
            dest_width,
            dest_height,
            src_x,
            src_z,
            src_width,
            src_height,
        ),
{
}

} // verus!
