//! Breadth-first search over a 128x128 window centred on the source, returning
//! the turning points of a route to the first tile from which the destination
//! is reached.
use crate::rsmod::collision::collision::CollisionFlagMap;
use crate::rsmod::collision::collision_strategy::CollisionStrategy;
use crate::rsmod::coord_grid::{level_of, packed, within_world, CoordGrid};
use crate::rsmod::flag::direction_flag;
use crate::rsmod::reach::reach_strategy::{angle_fits, reach_result, ReachStrategy};
use crate::rsmod::step_validator::{can_travel, lemma_only_unit_steps, travel_allowed};
use crate::rsmod::utils::rotation::{rotate, rotated};
use vstd::prelude::*;
use vstd::set_lib::{lemma_int_range, lemma_len_subset, set_int_range};

verus! {

broadcast use vstd::set::group_set_axioms;

pub const DEFAULT_SEARCH_MAP_SIZE: i32 = 128;
/// One queue slot per tile of the window: a tile is queued at most once per
/// search, so the queue never fills.
pub const DEFAULT_RING_BUFFER_SIZE: i32 = 16384;
pub const DEFAULT_DISTANCE_VALUE: i32 = 99999999;
pub const DEFAULT_SRC_DIRECTION_VALUE: i8 = 99;
pub const MAX_ALTERNATIVE_ROUTE_LOWEST_COST: i32 = 1000;
pub const MAX_ALTERNATIVE_ROUTE_SEEK_RANGE: i32 = 100;
pub const MAX_ALTERNATIVE_ROUTE_DISTANCE_FROM_DESTINATION: i32 = 10;
pub const SEARCH_HALF_MAP_SIZE: i32 = 64;
pub const MAP_SIZE: i32 = 16384;

/// Index of local tile `(x, z)` in the search arrays.
pub open spec fn grid_index(x: int, z: int) -> int {
    x * 128 + z
}

pub open spec fn in_grid(x: int, z: int) -> bool {
    0 <= x < 128 && 0 <= z < 128
}

/// One of the eight directions a search step can record.
pub open spec fn is_direction(d: i8) -> bool {
    ||| d == direction_flag::NORTH
    ||| d == direction_flag::EAST
    ||| d == direction_flag::SOUTH
    ||| d == direction_flag::WEST
    ||| d == direction_flag::SOUTH_WEST
    ||| d == direction_flag::NORTH_WEST
    ||| d == direction_flag::SOUTH_EAST
    ||| d == direction_flag::NORTH_EAST
}

/// The x offset of the tile that a step recorded as `d` came from.
pub open spec fn from_x(d: i8) -> int {
    if d == direction_flag::EAST || d == direction_flag::NORTH_EAST || d == direction_flag::SOUTH_EAST {
        1
    } else if d == direction_flag::WEST || d == direction_flag::NORTH_WEST || d
        == direction_flag::SOUTH_WEST {
        -1
    } else {
        0
    }
}

/// The z offset of the tile that a step recorded as `d` came from.
pub open spec fn from_z(d: i8) -> int {
    if d == direction_flag::NORTH || d == direction_flag::NORTH_EAST || d
        == direction_flag::NORTH_WEST {
        1
    } else if d == direction_flag::SOUTH || d == direction_flag::SOUTH_EAST || d
        == direction_flag::SOUTH_WEST {
        -1
    } else {
        0
    }
}

pub open spec fn slot_x(p: u32) -> int {
    (p & 0xffff) as int
}

pub open spec fn slot_z(p: u32) -> int {
    (p >> 16) as int
}

/// Stepping from tile `a` to tile `b` is permitted for the entity.
pub open spec fn step_between<C: CollisionStrategy>(
    flags: &CollisionFlagMap,
    c: &C,
    y: int,
    size: int,
    a: (int, int),
    b: (int, int),
) -> bool {
    travel_allowed(flags, c, y, a.0, a.1, b.0 - a.0, b.1 - a.1, size, 0)
}

pub open spec fn step_at<C: CollisionStrategy>(
    flags: &CollisionFlagMap,
    c: &C,
    y: int,
    size: int,
    route: Seq<(int, int)>,
    k: int,
) -> bool {
    step_between(flags, c, y, size, route[k], route[k + 1])
}

/// Every tile of `route` is one permitted step from the one before it.
pub open spec fn is_route<C: CollisionStrategy>(
    flags: &CollisionFlagMap,
    c: &C,
    y: int,
    size: int,
    route: Seq<(int, int)>,
) -> bool {
    forall|k: int| 0 <= k < route.len() - 1 ==> #[trigger] step_at(flags, c, y, size, route, k)
}

/// `w` is the packed coordinate of some tile of `route` on level `y`.
pub open spec fn on_route(route: Seq<(int, int)>, y: int, w: u32) -> bool {
    exists|j: int|
        0 <= j < route.len() && w == packed(y as i32, #[trigger] route[j].0 as i32, route[j].1 as i32)
}

/// Within the square of ten tiles around `(dest_x, dest_z)` searched for an
/// approach point.
pub open spec fn near_destination(x: int, z: int, dest_x: int, dest_z: int) -> bool {
    dest_x - 10 <= x <= dest_x + 10 && dest_z - 10 <= z <= dest_z + 10
}

/// `route` leads through permitted steps from `start` to `end`, and
/// `waypoints` are packed tiles of it ending with `end`.
pub open spec fn walks<C: CollisionStrategy>(
    flags: &CollisionFlagMap,
    c: &C,
    y: int,
    size: int,
    start: (int, int),
    end: (int, int),
    route: Seq<(int, int)>,
    waypoints: Seq<u32>,
) -> bool {
    &&& route.len() >= 2
    &&& route[0] == start
    &&& route.last() == end
    &&& is_route(flags, c, y, size, route)
    &&& waypoints.len() > 0
    &&& waypoints.last() == packed(y as i32, end.0 as i32, end.1 as i32)
    &&& forall|i: int| 0 <= i < waypoints.len() ==> on_route(route, y, #[trigger] waypoints[i])
}

/// `route` leads from the source through permitted steps to a tile from which
/// the destination is reached or, when moving near is allowed, to an approach
/// point near it at most a hundred tiles along; `waypoints` are tiles of the
/// route and end with its last tile.
pub open spec fn found_route<C: CollisionStrategy>(
    flags: &CollisionFlagMap,
    c: &C,
    y: int,
    src_x: int,
    src_z: int,
    dest_x: int,
    dest_z: int,
    src_size: u8,
    dest_width: u8,
    dest_height: u8,
    angle: u8,
    shape: i8,
    move_near: bool,
    block_access_flags: u8,
    route: Seq<(int, int)>,
    waypoints: Seq<u32>,
) -> bool {
    let end = route.last();
    &&& walks(flags, c, y, src_size as int, (src_x, src_z), end, route, waypoints)
    &&& {
        ||| reach_result(
            flags,
            y,
            end.0,
            end.1,
            dest_x,
            dest_z,
            dest_width,
            dest_height,
            src_size,
            angle,
            shape,
            block_access_flags,
        )
        ||| move_near && near_destination(end.0, end.1, dest_x, dest_z) && route.len() <= 100
    }
}

/// The route turns at its `k`-th tile: the step into that tile differs from
/// the step out of it. The last tile counts as a turn.
pub open spec fn is_turn(route: Seq<(int, int)>, k: int) -> bool {
    ||| k == route.len() - 1
    ||| route[k].0 - route[k - 1].0 != route[k + 1].0 - route[k].0
    ||| route[k].1 - route[k - 1].1 != route[k + 1].1 - route[k].1
}

/// The tiles of `route`, from its `k`-th on, at which it turns, in order.
pub open spec fn turns_from(route: Seq<(int, int)>, k: int) -> Seq<(int, int)>
    decreases route.len() - k,
{
    if k >= route.len() {
        Seq::empty()
    } else if is_turn(route, k) {
        seq![route[k]] + turns_from(route, k + 1)
    } else {
        turns_from(route, k + 1)
    }
}

/// The waypoints of `route` on level `y`: its turning tiles after the first,
/// packed, in order, the last `limit` of them where there are more.
pub open spec fn waypoints_of(route: Seq<(int, int)>, y: int, limit: int) -> Seq<u32> {
    let t = turns_from(route, 1).map_values(|p: (int, int)| packed(y as i32, p.0 as i32, p.1 as i32));
    if t.len() <= limit {
        t
    } else {
        t.subrange(t.len() - limit, t.len() as int)
    }
}

/// Prepending a tile to a route leaves its turns from the second tile on as
/// they were.
proof fn lemma_turns_shift(a: (int, int), route: Seq<(int, int)>, k: int)
    requires
        k >= 1,
    ensures
        turns_from(seq![a] + route, k + 1) == turns_from(route, k),
    decreases route.len() - k,
{
    let longer = seq![a] + route;
    if k < route.len() {
        lemma_turns_shift(a, route, k + 1);
        assert(longer[k + 1] == route[k]);
        assert(longer[k] == route[k - 1]);
        if k + 1 < route.len() {
            assert(longer[k + 2] == route[k + 1]);
        }
        assert(is_turn(longer, k + 1) == is_turn(route, k));
    }
}

/// Two recorded directions with the same offsets are the same direction.
proof fn lemma_direction_unique(d1: i8, d2: i8)
    requires
        is_direction(d1),
        is_direction(d2),
        from_x(d1) == from_x(d2),
        from_z(d1) == from_z(d2),
    ensures
        d1 == d2,
{
}

/// How far `v` lies outside the span of `len` tiles starting at `start`.
pub open spec fn gap(v: int, start: int, len: int) -> int {
    if v < start {
        start - v
    } else if v > start + len - 1 {
        v - (len + start - 1)
    } else {
        0
    }
}

/// The squared distance from local tile `(x, z)` to the destination's
/// rectangle of `width` by `height` tiles at `(dest_x, dest_z)`.
pub open spec fn approach_cost(x: int, z: int, dest_x: int, dest_z: int, width: u8, height: u8) -> int {
    let dx = gap(x, dest_x, width as int);
    let dz = gap(z, dest_z, height as int);
    dx * dx + dz * dz
}

/// A step of the search between local tiles `a` and `b` of the window whose
/// south-west tile is `(bx, bz)`: one tile in one of the eight directions,
/// not leaving the window (an entity of `size` tiles keeps `size` tiles
/// from its north and east edges), where the entity may step.
pub open spec fn window_step<C: CollisionStrategy>(
    flags: &CollisionFlagMap,
    c: &C,
    y: int,
    bx: int,
    bz: int,
    size: int,
    a: (int, int),
    b: (int, int),
) -> bool {
    let dx = b.0 - a.0;
    let dz = b.1 - a.1;
    &&& in_grid(a.0, a.1)
    &&& (dx < 0 ==> a.0 > 0)
    &&& (dx > 0 ==> a.0 < 128 - size)
    &&& (dz < 0 ==> a.1 > 0)
    &&& (dz > 0 ==> a.1 < 128 - size)
    &&& travel_allowed(flags, c, y, bx + a.0, bz + a.1, dx, dz, size, 0)
}

pub open spec fn window_step_at<C: CollisionStrategy>(
    flags: &CollisionFlagMap,
    c: &C,
    y: int,
    bx: int,
    bz: int,
    size: int,
    route: Seq<(int, int)>,
    k: int,
) -> bool {
    window_step(flags, c, y, bx, bz, size, route[k], route[k + 1])
}

/// A route of the search in local tiles: from the source at the window's
/// centre, one search step at a time.
pub open spec fn window_route<C: CollisionStrategy>(
    flags: &CollisionFlagMap,
    c: &C,
    y: int,
    bx: int,
    bz: int,
    size: int,
    route: Seq<(int, int)>,
) -> bool {
    &&& route.len() >= 1
    &&& route[0] == (64int, 64int)
    &&& forall|k: int|
        0 <= k < route.len() - 1 ==> #[trigger] window_step_at(flags, c, y, bx, bz, size, route, k)
}

/// The destination is reached from local tile `t` of the window whose
/// south-west tile is `(bx, bz)`.
pub open spec fn local_reach(
    flags: &CollisionFlagMap,
    y: int,
    bx: int,
    bz: int,
    local_dest_x: int,
    local_dest_z: int,
    dest_width: u8,
    dest_height: u8,
    size: u8,
    angle: u8,
    shape: i8,
    block_access_flags: u8,
    t: (int, int),
) -> bool {
    reach_result(
        flags,
        y,
        bx + t.0,
        bz + t.1,
        bx + local_dest_x,
        bz + local_dest_z,
        dest_width,
        dest_height,
        size,
        angle,
        shape,
        block_access_flags,
    )
}

/// `route` in local tiles of the window around `(src_x, src_z)`.
pub open spec fn to_local(route: Seq<(int, int)>, src_x: int, src_z: int) -> Seq<(int, int)> {
    route.map_values(|p: (int, int)| (p.0 - (src_x - 64), p.1 - (src_z - 64)))
}

/// A route the search can take from `(src_x, src_z)`: one search step at a
/// time inside the 128 by 128 window centred on the source.
pub open spec fn search_route<C: CollisionStrategy>(
    flags: &CollisionFlagMap,
    c: &C,
    y: int,
    src_x: int,
    src_z: int,
    size: int,
    route: Seq<(int, int)>,
) -> bool {
    window_route(flags, c, y, src_x - 64, src_z - 64, size, to_local(route, src_x, src_z))
}



/// No search route from the source ends where the destination is reached.
pub open spec fn no_reaching_route<C: CollisionStrategy>(
    flags: &CollisionFlagMap,
    c: &C,
    y: int,
    src_x: int,
    src_z: int,
    dest_x: int,
    dest_z: int,
    src_size: u8,
    dest_width: u8,
    dest_height: u8,
    angle: u8,
    shape: i8,
    block_access_flags: u8,
) -> bool {
    forall|other: Seq<(int, int)>|
        search_route(flags, c, y, src_x, src_z, src_size as int, other) ==> !#[trigger] reach_result(
            flags,
            y,
            other.last().0,
            other.last().1,
            dest_x,
            dest_z,
            dest_width,
            dest_height,
            src_size,
            angle,
            shape,
            block_access_flags,
        )
}

/// No search route from the source reaches the destination in fewer tiles
/// than `route` has.
pub open spec fn no_shorter_route<C: CollisionStrategy>(
    flags: &CollisionFlagMap,
    c: &C,
    y: int,
    src_x: int,
    src_z: int,
    dest_x: int,
    dest_z: int,
    src_size: u8,
    dest_width: u8,
    dest_height: u8,
    angle: u8,
    shape: i8,
    block_access_flags: u8,
    route: Seq<(int, int)>,
) -> bool {
    forall|other: Seq<(int, int)>|
        search_route(flags, c, y, src_x, src_z, src_size as int, other) && #[trigger] reach_result(
            flags,
            y,
            other.last().0,
            other.last().1,
            dest_x,
            dest_z,
            dest_width,
            dest_height,
            src_size,
            angle,
            shape,
            block_access_flags,
        ) ==> route.len() <= other.len()
}

/// No search route of at most a hundred tiles from the source ends near the
/// destination closer to its `width` by `height` rectangle than `route`
/// ends, nor as close in fewer tiles, nor as close in as many tiles at a tile
/// earlier in the order of x, then z.
pub open spec fn no_closer_approach<C: CollisionStrategy>(
    flags: &CollisionFlagMap,
    c: &C,
    y: int,
    src_x: int,
    src_z: int,
    dest_x: int,
    dest_z: int,
    src_size: u8,
    width: u8,
    height: u8,
    route: Seq<(int, int)>,
) -> bool {
    forall|other: Seq<(int, int)>|
        search_route(flags, c, y, src_x, src_z, src_size as int, other) && other.len() <= 100
            && #[trigger] near_destination(other.last().0, other.last().1, dest_x, dest_z) ==> {
            let mine = approach_cost(route.last().0, route.last().1, dest_x, dest_z, width, height);
            let theirs = approach_cost(other.last().0, other.last().1, dest_x, dest_z, width, height);
            mine < theirs || (mine == theirs && (route.len() < other.len() || (route.len()
                == other.len() && (route.last().0 < other.last().0 || (route.last().0
                == other.last().0 && route.last().1 <= other.last().1)))))
        }
}

/// No search route of at most a hundred tiles from the source ends near the
/// destination.
pub open spec fn no_approach_route<C: CollisionStrategy>(
    flags: &CollisionFlagMap,
    c: &C,
    y: int,
    src_x: int,
    src_z: int,
    dest_x: int,
    dest_z: int,
    src_size: u8,
) -> bool {
    forall|other: Seq<(int, int)>|
        search_route(flags, c, y, src_x, src_z, src_size as int, other) && other.len() <= 100
            ==> !#[trigger] near_destination(other.last().0, other.last().1, dest_x, dest_z)
}

/// The neighbours of `t` that the search queues when it expands `t` with the
/// tiles of `q` already queued, among the first `j` of the eight steps, in
/// the order it tries them.
pub open spec fn fresh_neighbours<C: CollisionStrategy>(
    flags: &CollisionFlagMap,
    c: &C,
    y: int,
    bx: int,
    bz: int,
    size: int,
    q: Seq<(int, int)>,
    t: (int, int),
    j: int,
) -> Seq<(int, int)>
    decreases j,
{
    if j <= 0 {
        Seq::empty()
    } else {
        let n = (t.0 + expansion_step(j - 1).0, t.1 + expansion_step(j - 1).1);
        fresh_neighbours(flags, c, y, bx, bz, size, q, t, j - 1) + if window_step(
            flags,
            c,
            y,
            bx,
            bz,
            size,
            t,
            n,
        ) && !q.contains(n) {
            seq![n]
        } else {
            Seq::empty()
        }
    }
}

/// The breadth-first queue of local tiles after the first `n` queued tiles
/// are expanded: the source first, then, for each tile in queue order, its
/// new neighbours in the order west, east, south, north, south-west,
/// south-east, north-west, north-east.
pub open spec fn bfs_queue<C: CollisionStrategy>(
    flags: &CollisionFlagMap,
    c: &C,
    y: int,
    bx: int,
    bz: int,
    size: int,
    n: nat,
) -> Seq<(int, int)>
    decreases n,
{
    if n == 0 {
        seq![(64int, 64int)]
    } else {
        let q = bfs_queue(flags, c, y, bx, bz, size, (n - 1) as nat);
        if n - 1 < q.len() {
            q + fresh_neighbours(flags, c, y, bx, bz, size, q, q[n - 1], 8)
        } else {
            q
        }
    }
}

/// `q[m]` is the first tile of `q` from which `t` is one search step.
pub open spec fn first_step_from<C: CollisionStrategy>(
    flags: &CollisionFlagMap,
    c: &C,
    y: int,
    bx: int,
    bz: int,
    size: int,
    q: Seq<(int, int)>,
    m: int,
    t: (int, int),
) -> bool {
    &&& 0 <= m < q.len()
    &&& window_step(flags, c, y, bx, bz, size, q[m], t)
    &&& forall|k: int| 0 <= k < m ==> !#[trigger] window_step(flags, c, y, bx, bz, size, q[k], t)
}

/// Each tile of the local route after the first is entered from the first
/// tile of `q` from which it is one search step.
pub open spec fn follows_queue<C: CollisionStrategy>(
    flags: &CollisionFlagMap,
    c: &C,
    y: int,
    bx: int,
    bz: int,
    size: int,
    q: Seq<(int, int)>,
    route: Seq<(int, int)>,
) -> bool {
    forall|k: int|
        0 <= k < route.len() - 1 ==> #[trigger] entered_first(flags, c, y, bx, bz, size, q, route, k)
}

/// The `k + 1`-th tile of `route` is entered from the first tile of `q` from
/// which it is one search step.
pub open spec fn entered_first<C: CollisionStrategy>(
    flags: &CollisionFlagMap,
    c: &C,
    y: int,
    bx: int,
    bz: int,
    size: int,
    q: Seq<(int, int)>,
    route: Seq<(int, int)>,
    k: int,
) -> bool {
    exists|m: int|
        #[trigger] first_step_from(flags, c, y, bx, bz, size, q, m, route[k + 1]) && q[m] == route[k]
}

/// `route` is the route the breadth-first queue `bfs_queue(.., n)` of the
/// search from `(src_x, src_z)` gives: each tile after the first is entered
/// from the first queued tile from which it is one step; and when `route`
/// ends where the destination is reached, its last tile is the `n`-th queued
/// tile and no earlier queued tile reaches the destination.
pub open spec fn queue_route<C: CollisionStrategy>(
    flags: &CollisionFlagMap,
    c: &C,
    y: int,
    src_x: int,
    src_z: int,
    dest_x: int,
    dest_z: int,
    src_size: u8,
    dest_width: u8,
    dest_height: u8,
    angle: u8,
    shape: i8,
    block_access_flags: u8,
    route: Seq<(int, int)>,
    n: nat,
) -> bool {
    let bx = src_x - 64;
    let bz = src_z - 64;
    let q = bfs_queue(flags, c, y, bx, bz, src_size as int, n);
    let local = to_local(route, src_x, src_z);
    &&& follows_queue(flags, c, y, bx, bz, src_size as int, q, local)
    &&& reach_result(
        flags,
        y,
        route.last().0,
        route.last().1,
        dest_x,
        dest_z,
        dest_width,
        dest_height,
        src_size,
        angle,
        shape,
        block_access_flags,
    ) ==> {
        &&& n < q.len()
        &&& q[n as int] == local.last()
        &&& forall|k: int|
            0 <= k < n ==> !#[trigger] local_reach(
                flags,
                y,
                bx,
                bz,
                dest_x - bx,
                dest_z - bz,
                dest_width,
                dest_height,
                src_size,
                angle,
                shape,
                block_access_flags,
                q[k],
            )
    }
}

/// The `j`-th of the eight steps in the order the search tries them: west,
/// east, south, north, south-west, south-east, north-west, north-east.
pub open spec fn expansion_step(j: int) -> (int, int) {
    if j == 0 {
        (-1, 0)
    } else if j == 1 {
        (1, 0)
    } else if j == 2 {
        (0, -1)
    } else if j == 3 {
        (0, 1)
    } else if j == 4 {
        (-1, -1)
    } else if j == 5 {
        (1, -1)
    } else if j == 6 {
        (-1, 1)
    } else {
        (1, 1)
    }
}

/// A non-empty result's route: found, giving the waypoints, inside the
/// window, laid out by the breadth-first queue, shortest, and, where it does
/// not reach the destination, the closest approach when no route reaches it.
pub open spec fn path_route<C: CollisionStrategy>(
    flags: &CollisionFlagMap,
    c: &C,
    y: int,
    src_x: int,
    src_z: int,
    dest_x: int,
    dest_z: int,
    src_size: u8,
    dest_width: u8,
    dest_height: u8,
    angle: u8,
    shape: i8,
    move_near: bool,
    block_access_flags: u8,
    max_waypoints: u8,
    route: Seq<(int, int)>,
    r: Seq<u32>,
) -> bool {
    &&& found_route(
        flags,
        c,
        y,
        src_x,
        src_z,
        dest_x,
        dest_z,
        src_size,
        dest_width,
        dest_height,
        angle,
        shape,
        move_near,
        block_access_flags,
        route,
        r,
    )
    &&& r == waypoints_of(route, y, max_waypoints as int)
    &&& search_route(flags, c, y, src_x, src_z, src_size as int, route)
    &&& exists|n: nat|
        #[trigger] queue_route(
            flags,
            c,
            y,
            src_x,
            src_z,
            dest_x,
            dest_z,
            src_size,
            dest_width,
            dest_height,
            angle,
            shape,
            block_access_flags,
            route,
            n,
        )
    &&& no_shorter_route(
        flags,
        c,
        y,
        src_x,
        src_z,
        dest_x,
        dest_z,
        src_size,
        dest_width,
        dest_height,
        angle,
        shape,
        block_access_flags,
        route,
    )
    &&& !reach_result(
        flags,
        y,
        route.last().0,
        route.last().1,
        dest_x,
        dest_z,
        dest_width,
        dest_height,
        src_size,
        angle,
        shape,
        block_access_flags,
    ) ==> no_reaching_route(
        flags,
        c,
        y,
        src_x,
        src_z,
        dest_x,
        dest_z,
        src_size,
        dest_width,
        dest_height,
        angle,
        shape,
        block_access_flags,
    ) && no_closer_approach(
        flags,
        c,
        y,
        src_x,
        src_z,
        dest_x,
        dest_z,
        src_size,
        rotated(angle, dest_width, dest_height),
        rotated(angle, dest_height, dest_width),
        route,
    )
}

/// What a search returns, in full.
pub open spec fn path_result<C: CollisionStrategy>(
    flags: &CollisionFlagMap,
    c: &C,
    y: int,
    src_x: int,
    src_z: int,
    dest_x: int,
    dest_z: int,
    src_size: u8,
    dest_width: u8,
    dest_height: u8,
    angle: u8,
    shape: i8,
    move_near: bool,
    block_access_flags: u8,
    max_waypoints: u8,
    r: Seq<u32>,
) -> bool {
    let reach_src = reach_result(
        flags,
        y,
        src_x,
        src_z,
        dest_x,
        dest_z,
        dest_width,
        dest_height,
        src_size,
        angle,
        shape,
        block_access_flags,
    );
    &&& r.len() <= max_waypoints
    &&& reach_src ==> r.len() == 0
    &&& r.len() > 0 ==> exists|route: Seq<(int, int)>|
        #[trigger] path_route(
            flags,
            c,
            y,
            src_x,
            src_z,
            dest_x,
            dest_z,
            src_size,
            dest_width,
            dest_height,
            angle,
            shape,
            move_near,
            block_access_flags,
            max_waypoints,
            route,
            r,
        )
    &&& max_waypoints > 0 && !reach_src && !no_reaching_route(
        flags,
        c,
        y,
        src_x,
        src_z,
        dest_x,
        dest_z,
        src_size,
        dest_width,
        dest_height,
        angle,
        shape,
        block_access_flags,
    ) ==> r.len() > 0
    &&& move_near && max_waypoints > 0 && r.len() == 0 && !reach_src ==> no_approach_route(
        flags,
        c,
        y,
        src_x,
        src_z,
        dest_x,
        dest_z,
        src_size,
    ) || (near_destination(src_x, src_z, dest_x, dest_z) && no_closer_approach(
        flags,
        c,
        y,
        src_x,
        src_z,
        dest_x,
        dest_z,
        src_size,
        rotated(angle, dest_width, dest_height),
        rotated(angle, dest_height, dest_width),
        seq![(src_x, src_z)],
    ))
}

proof fn lemma_bfs_queue_prefix<C: CollisionStrategy>(
    flags: &CollisionFlagMap,
    c: &C,
    y: int,
    bx: int,
    bz: int,
    size: int,
    n1: nat,
    n2: nat,
)
    requires
        n1 <= n2,
    ensures
        bfs_queue(flags, c, y, bx, bz, size, n1).len() <= bfs_queue(flags, c, y, bx, bz, size, n2).len(),
        forall|k: int|
            0 <= k < bfs_queue(flags, c, y, bx, bz, size, n1).len() ==> #[trigger] bfs_queue(
                flags,
                c,
                y,
                bx,
                bz,
                size,
                n2,
            )[k] == bfs_queue(flags, c, y, bx, bz, size, n1)[k],
    decreases n2,
{
    if n1 < n2 {
        lemma_bfs_queue_prefix(flags, c, y, bx, bz, size, n1, (n2 - 1) as nat);
        let q = bfs_queue(flags, c, y, bx, bz, size, (n2 - 1) as nat);
        let q1 = bfs_queue(flags, c, y, bx, bz, size, n1);
        let q2 = bfs_queue(flags, c, y, bx, bz, size, n2);
        assert forall|k: int| 0 <= k < q1.len() implies #[trigger] q2[k] == q1[k] by {
            assert(q[k] == q1[k]);
        }
    }
}

/// The first tile of a queue from which a tile is one step is the same in
/// any longer queue that starts with it.
proof fn lemma_first_unique<C: CollisionStrategy>(
    flags: &CollisionFlagMap,
    c: &C,
    y: int,
    bx: int,
    bz: int,
    size: int,
    q1: Seq<(int, int)>,
    q2: Seq<(int, int)>,
    m1: int,
    m2: int,
    t: (int, int),
)
    requires
        q1.len() <= q2.len(),
        forall|k: int| 0 <= k < q1.len() ==> #[trigger] q2[k] == q1[k],
        first_step_from(flags, c, y, bx, bz, size, q1, m1, t),
        first_step_from(flags, c, y, bx, bz, size, q2, m2, t),
    ensures
        q1[m1] == q2[m2],
{
    assert(q2[m1] == q1[m1]);
    if m2 < m1 {
        assert(q2[m2] == q1[m2]);
        assert(!window_step(flags, c, y, bx, bz, size, q1[m2], t));
    }
}

/// Two routes laid out by prefixes of the same queue, of one length and with
/// one end, are the same.
proof fn lemma_queue_routes_agree<C: CollisionStrategy>(
    flags: &CollisionFlagMap,
    c: &C,
    y: int,
    bx: int,
    bz: int,
    size: int,
    q1: Seq<(int, int)>,
    q2: Seq<(int, int)>,
    l1: Seq<(int, int)>,
    l2: Seq<(int, int)>,
    k: int,
)
    requires
        q1.len() <= q2.len(),
        forall|j: int| 0 <= j < q1.len() ==> #[trigger] q2[j] == q1[j],
        follows_queue(flags, c, y, bx, bz, size, q1, l1),
        follows_queue(flags, c, y, bx, bz, size, q2, l2),
        l1.len() == l2.len(),
        l1.len() >= 1,
        l1.last() == l2.last(),
        0 <= k < l1.len(),
    ensures
        l1[k] == l2[k],
    decreases l1.len() - k,
{
    if k < l1.len() - 1 {
        lemma_queue_routes_agree(flags, c, y, bx, bz, size, q1, q2, l1, l2, k + 1);
        assert(entered_first(flags, c, y, bx, bz, size, q1, l1, k));
        assert(entered_first(flags, c, y, bx, bz, size, q2, l2, k));
        let m1 = choose|m: int|
            #[trigger] first_step_from(flags, c, y, bx, bz, size, q1, m, l1[k + 1]) && q1[m] == l1[k];
        let m2 = choose|m: int|
            #[trigger] first_step_from(flags, c, y, bx, bz, size, q2, m, l2[k + 1]) && q2[m] == l2[k];
        lemma_first_unique(flags, c, y, bx, bz, size, q1, q2, m1, m2, l1[k + 1]);
    }
}

/// Two routes that each meet everything a found route is held to end at
/// the same tile after as many steps.
#[verifier::rlimit(60)]
proof fn lemma_path_ends_equal<C: CollisionStrategy>(
    flags: &CollisionFlagMap,
    c: &C,
    y: int,
    src_x: int,
    src_z: int,
    dest_x: int,
    dest_z: int,
    src_size: u8,
    dest_width: u8,
    dest_height: u8,
    angle: u8,
    shape: i8,
    move_near: bool,
    block_access_flags: u8,
    max_waypoints: u8,
    route1: Seq<(int, int)>,
    r1: Seq<u32>,
    route2: Seq<(int, int)>,
    r2: Seq<u32>,
)
    requires
        path_route(
        flags,
        c,
        y,
        src_x,
        src_z,
        dest_x,
        dest_z,
        src_size,
        dest_width,
        dest_height,
        angle,
        shape,
        move_near,
        block_access_flags,
        max_waypoints,
            route1,
            r1,
        ),
        path_route(
        flags,
        c,
        y,
        src_x,
        src_z,
        dest_x,
        dest_z,
        src_size,
        dest_width,
        dest_height,
        angle,
        shape,
        move_near,
        block_access_flags,
        max_waypoints,
            route2,
            r2,
        ),
    ensures
        route1.last() == route2.last(),
        route1.len() == route2.len(),
{
    let bx = src_x - 64;
    let bz = src_z - 64;
    let size = src_size as int;
    let reach1 = reach_result(
        flags,
        y,
        route1.last().0,
        route1.last().1,
        dest_x,
        dest_z,
        dest_width,
        dest_height,
        src_size,
        angle,
        shape,
        block_access_flags,
    );
    let reach2 = reach_result(
        flags,
        y,
        route2.last().0,
        route2.last().1,
        dest_x,
        dest_z,
        dest_width,
        dest_height,
        src_size,
        angle,
        shape,
        block_access_flags,
    );
    let n1 = choose|n: nat|
        #[trigger] queue_route(
            flags,
            c,
            y,
            src_x,
            src_z,
            dest_x,
            dest_z,
            src_size,
            dest_width,
            dest_height,
            angle,
            shape,
            block_access_flags,
            route1,
            n,
        );
    let n2 = choose|n: nat|
        #[trigger] queue_route(
            flags,
            c,
            y,
            src_x,
            src_z,
            dest_x,
            dest_z,
            src_size,
            dest_width,
            dest_height,
            angle,
            shape,
            block_access_flags,
            route2,
            n,
        );
    let q1 = bfs_queue(flags, c, y, bx, bz, size, n1);
    let q2 = bfs_queue(flags, c, y, bx, bz, size, n2);
    let l1 = to_local(route1, src_x, src_z);
    let l2 = to_local(route2, src_x, src_z);
    if reach1 && reach2 {
        if n1 <= n2 {
            lemma_bfs_queue_prefix(flags, c, y, bx, bz, size, n1, n2);
            if n1 < n2 {
                assert(q2[n1 as int] == q1[n1 as int]);
                assert(!local_reach(
                    flags,
                    y,
                    bx,
                    bz,
                    dest_x - bx,
                    dest_z - bz,
                    dest_width,
                    dest_height,
                    src_size,
                    angle,
                    shape,
                    block_access_flags,
                    q2[n1 as int],
                ));
            }
        } else {
            lemma_bfs_queue_prefix(flags, c, y, bx, bz, size, n2, n1);
            assert(q1[n2 as int] == q2[n2 as int]);
            assert(!local_reach(
                flags,
                y,
                bx,
                bz,
                dest_x - bx,
                dest_z - bz,
                dest_width,
                dest_height,
                src_size,
                angle,
                shape,
                block_access_flags,
                q1[n2 as int],
            ));
        }
        assert(l1.last() == l2.last());
    }
}

/// Two routes that each meet everything a found route is held to are the
/// same route.
proof fn lemma_path_routes_equal<C: CollisionStrategy>(
    flags: &CollisionFlagMap,
    c: &C,
    y: int,
    src_x: int,
    src_z: int,
    dest_x: int,
    dest_z: int,
    src_size: u8,
    dest_width: u8,
    dest_height: u8,
    angle: u8,
    shape: i8,
    move_near: bool,
    block_access_flags: u8,
    max_waypoints: u8,
    route1: Seq<(int, int)>,
    r1: Seq<u32>,
    route2: Seq<(int, int)>,
    r2: Seq<u32>,
)
    requires
        path_route(
        flags,
        c,
        y,
        src_x,
        src_z,
        dest_x,
        dest_z,
        src_size,
        dest_width,
        dest_height,
        angle,
        shape,
        move_near,
        block_access_flags,
        max_waypoints,
            route1,
            r1,
        ),
        path_route(
        flags,
        c,
        y,
        src_x,
        src_z,
        dest_x,
        dest_z,
        src_size,
        dest_width,
        dest_height,
        angle,
        shape,
        move_near,
        block_access_flags,
        max_waypoints,
            route2,
            r2,
        ),
    ensures
        route1 == route2,
{
    lemma_path_ends_equal(
        flags,
        c,
        y,
        src_x,
        src_z,
        dest_x,
        dest_z,
        src_size,
        dest_width,
        dest_height,
        angle,
        shape,
        move_near,
        block_access_flags,
        max_waypoints,
        route1,
        r1,
        route2,
        r2,
    );
    let bx = src_x - 64;
    let bz = src_z - 64;
    let size = src_size as int;
    let n1 = choose|n: nat|
        #[trigger] queue_route(
            flags,
            c,
            y,
            src_x,
            src_z,
            dest_x,
            dest_z,
            src_size,
            dest_width,
            dest_height,
            angle,
            shape,
            block_access_flags,
            route1,
            n,
        );
    let n2 = choose|n: nat|
        #[trigger] queue_route(
            flags,
            c,
            y,
            src_x,
            src_z,
            dest_x,
            dest_z,
            src_size,
            dest_width,
            dest_height,
            angle,
            shape,
            block_access_flags,
            route2,
            n,
        );
    let q1 = bfs_queue(flags, c, y, bx, bz, size, n1);
    let q2 = bfs_queue(flags, c, y, bx, bz, size, n2);
    let l1 = to_local(route1, src_x, src_z);
    let l2 = to_local(route2, src_x, src_z);
    if n1 <= n2 {
        lemma_bfs_queue_prefix(flags, c, y, bx, bz, size, n1, n2);
        assert forall|k: int| 0 <= k < l1.len() implies l1[k] == l2[k] by {
            lemma_queue_routes_agree(flags, c, y, bx, bz, size, q1, q2, l1, l2, k);
        }
    } else {
        lemma_bfs_queue_prefix(flags, c, y, bx, bz, size, n2, n1);
        assert forall|k: int| 0 <= k < l1.len() implies l1[k] == l2[k] by {
            lemma_queue_routes_agree(flags, c, y, bx, bz, size, q2, q1, l2, l1, k);
        }
    }
    assert forall|k: int| 0 <= k < route1.len() implies route1[k] == route2[k] by {
        assert(l1[k] == l2[k]);
    }
    assert(route1 =~= route2);
}

/// A search has exactly one possible result: the same inputs give the same
/// waypoints, whatever searches came before with the same path finder.
pub proof fn lemma_path_result_unique<C: CollisionStrategy>(
    flags: &CollisionFlagMap,
    c: &C,
    y: int,
    src_x: int,
    src_z: int,
    dest_x: int,
    dest_z: int,
    src_size: u8,
    dest_width: u8,
    dest_height: u8,
    angle: u8,
    shape: i8,
    move_near: bool,
    block_access_flags: u8,
    max_waypoints: u8,
    r1: Seq<u32>,
    r2: Seq<u32>,
)
    requires
        path_result(
        flags,
        c,
        y,
        src_x,
        src_z,
        dest_x,
        dest_z,
        src_size,
        dest_width,
        dest_height,
        angle,
        shape,
        move_near,
        block_access_flags,
        max_waypoints,
            r1,
        ),
        path_result(
        flags,
        c,
        y,
        src_x,
        src_z,
        dest_x,
        dest_z,
        src_size,
        dest_width,
        dest_height,
        angle,
        shape,
        move_near,
        block_access_flags,
        max_waypoints,
            r2,
        ),
    ensures
        r1 == r2,
{
    if r1.len() > 0 && r2.len() > 0 {
        let route1 = choose|route: Seq<(int, int)>|
            #[trigger] path_route(
            flags,
        c,
        y,
        src_x,
        src_z,
        dest_x,
        dest_z,
        src_size,
        dest_width,
        dest_height,
        angle,
        shape,
        move_near,
        block_access_flags,
        max_waypoints,
                route,
                r1,
            );
        let route2 = choose|route: Seq<(int, int)>|
            #[trigger] path_route(
            flags,
        c,
        y,
        src_x,
        src_z,
        dest_x,
        dest_z,
        src_size,
        dest_width,
        dest_height,
        angle,
        shape,
        move_near,
        block_access_flags,
        max_waypoints,
                route,
                r2,
            );
        lemma_path_routes_equal(
        flags,
        c,
        y,
        src_x,
        src_z,
        dest_x,
        dest_z,
        src_size,
        dest_width,
        dest_height,
        angle,
        shape,
        move_near,
        block_access_flags,
        max_waypoints,
            route1,
            r1,
            route2,
            r2,
        );
    } else if r1.len() > 0 || r2.len() > 0 {
        lemma_empty_result_unique(
        flags,
        c,
        y,
        src_x,
        src_z,
        dest_x,
        dest_z,
        src_size,
        dest_width,
        dest_height,
        angle,
        shape,
        move_near,
        block_access_flags,
        max_waypoints,
            r1,
            r2,
        );
        lemma_empty_result_unique(
        flags,
        c,
        y,
        src_x,
        src_z,
        dest_x,
        dest_z,
        src_size,
        dest_width,
        dest_height,
        angle,
        shape,
        move_near,
        block_access_flags,
        max_waypoints,
            r2,
            r1,
        );
    }
}

/// An empty result and a non-empty one cannot both meet the contract.
proof fn lemma_empty_result_unique<C: CollisionStrategy>(
    flags: &CollisionFlagMap,
    c: &C,
    y: int,
    src_x: int,
    src_z: int,
    dest_x: int,
    dest_z: int,
    src_size: u8,
    dest_width: u8,
    dest_height: u8,
    angle: u8,
    shape: i8,
    move_near: bool,
    block_access_flags: u8,
    max_waypoints: u8,
    r1: Seq<u32>,
    r2: Seq<u32>,
)
    requires
        path_result(
        flags,
        c,
        y,
        src_x,
        src_z,
        dest_x,
        dest_z,
        src_size,
        dest_width,
        dest_height,
        angle,
        shape,
        move_near,
        block_access_flags,
        max_waypoints,
            r1,
        ),
        path_result(
        flags,
        c,
        y,
        src_x,
        src_z,
        dest_x,
        dest_z,
        src_size,
        dest_width,
        dest_height,
        angle,
        shape,
        move_near,
        block_access_flags,
        max_waypoints,
            r2,
        ),
        r1.len() == 0,
    ensures
        r2.len() == 0,
{
    if r2.len() > 0 {
        let route2 = choose|route: Seq<(int, int)>|
            #[trigger] path_route(
            flags,
        c,
        y,
        src_x,
        src_z,
        dest_x,
        dest_z,
        src_size,
        dest_width,
        dest_height,
        angle,
        shape,
        move_near,
        block_access_flags,
        max_waypoints,
                route,
                r2,
            );
        let end = route2.last();
        if reach_result(
            flags,
            y,
            end.0,
            end.1,
            dest_x,
            dest_z,
            dest_width,
            dest_height,
            src_size,
            angle,
            shape,
            block_access_flags,
        ) {
            assert(!no_reaching_route(
                flags,
                c,
                y,
                src_x,
                src_z,
                dest_x,
                dest_z,
                src_size,
                dest_width,
                dest_height,
                angle,
                shape,
                block_access_flags,
            ));
        } else {
            assert(near_destination(end.0, end.1, dest_x, dest_z));
            assert(!no_approach_route(flags, c, y, src_x, src_z, dest_x, dest_z, src_size));
            let alone = seq![(src_x, src_z)];
            assert(to_local(alone, src_x, src_z) =~= seq![(64int, 64int)]);
            assert(search_route(flags, c, y, src_x, src_z, src_size as int, alone));
            assert(alone.last() == (src_x, src_z));
            assert(route2.len() >= 2);
        }
    }
}

/// The gap of `v` to a span of `len >= 1` tiles starting at `start` is its
/// distance to the nearest tile of the span: no tile of the span is closer,
/// and one is exactly that far.
pub proof fn lemma_gap_is_distance(v: int, start: int, len: int)
    requires
        len >= 1,
    ensures
        gap(v, start, len) >= 0,
        forall|t: int| start <= t < start + len ==> gap(v, start, len) <= #[trigger] abs_int(v - t),
        exists|t: int| start <= t < start + len && gap(v, start, len) == #[trigger] abs_int(v - t),
{
    let t = if v < start {
        start
    } else if v > start + len - 1 {
        start + len - 1
    } else {
        v
    };
    assert(start <= t < start + len && gap(v, start, len) == abs_int(v - t));
}

/// The absolute value.
pub open spec fn abs_int(v: int) -> int {
    if v < 0 {
        -v
    } else {
        v
    }
}

/// The approach cost of a tile is its squared distance to the nearest tile of
/// the destination rectangle: no tile of the rectangle is nearer, and one is
/// exactly that near.
pub proof fn lemma_approach_cost_is_distance(
    x: int,
    z: int,
    dest_x: int,
    dest_z: int,
    width: u8,
    height: u8,
)
    requires
        width >= 1,
        height >= 1,
    ensures
        forall|tx: int, tz: int|
            dest_x <= tx < dest_x + width && dest_z <= tz < dest_z + height ==> approach_cost(
                x,
                z,
                dest_x,
                dest_z,
                width,
                height,
            ) <= #[trigger] ((x - tx) * (x - tx) + (z - tz) * (z - tz)),
        exists|tx: int, tz: int|
            dest_x <= tx < dest_x + width && dest_z <= tz < dest_z + height && approach_cost(
                x,
                z,
                dest_x,
                dest_z,
                width,
                height,
            ) == #[trigger] ((x - tx) * (x - tx) + (z - tz) * (z - tz)),
{
    lemma_gap_is_distance(x, dest_x, width as int);
    lemma_gap_is_distance(z, dest_z, height as int);
    let gx = gap(x, dest_x, width as int);
    let gz = gap(z, dest_z, height as int);
    assert forall|tx: int, tz: int|
        dest_x <= tx < dest_x + width && dest_z <= tz < dest_z + height implies approach_cost(
            x,
            z,
            dest_x,
            dest_z,
            width,
            height,
        ) <= #[trigger] ((x - tx) * (x - tx) + (z - tz) * (z - tz)) by {
        assert(gx <= abs_int(x - tx));
        assert(gz <= abs_int(z - tz));
        let ax = abs_int(x - tx);
        let az = abs_int(z - tz);
        assert(gx * gx <= ax * ax) by (nonlinear_arith)
            requires
                0 <= gx <= ax,
        ;
        assert(gz * gz <= az * az) by (nonlinear_arith)
            requires
                0 <= gz <= az,
        ;
        assert(ax * ax == (x - tx) * (x - tx)) by (nonlinear_arith)
            requires
                ax == abs_int(x - tx),
        ;
        assert(az * az == (z - tz) * (z - tz)) by (nonlinear_arith)
            requires
                az == abs_int(z - tz),
        ;
    }
    let tx = choose|t: int| dest_x <= t < dest_x + width && gx == #[trigger] abs_int(x - t);
    let tz = choose|t: int| dest_z <= t < dest_z + height && gz == #[trigger] abs_int(z - t);
    assert(gx * gx == (x - tx) * (x - tx)) by (nonlinear_arith)
        requires
            gx == abs_int(x - tx),
    ;
    assert(gz * gz == (z - tz) * (z - tz)) by (nonlinear_arith)
        requires
            gz == abs_int(z - tz),
    ;
    assert(approach_cost(x, z, dest_x, dest_z, width, height) == (x - tx) * (x - tx) + (z - tz) * (
    z - tz));
}

pub proof fn lemma_slot_round_trip(x: u32, z: u32)
    requires
        x < 128,
        z < 128,
    ensures
        slot_x(x | (z << 16)) == x,
        slot_z(x | (z << 16)) == z,
{
    assert(x < 128 && z < 128 ==> (x | (z << 16u32)) & 0xffff == x) by (bit_vector);
    assert(x < 128 && z < 128 ==> (x | (z << 16u32)) >> 16u32 == z) by (bit_vector);
}

/// Which bits of a recorded direction say where the step came from.
pub proof fn lemma_direction_bits(d: i8)
    requires
        is_direction(d),
    ensures
        d & direction_flag::EAST != 0 ==> from_x(d) == 1,
        d & direction_flag::EAST == 0 && d & direction_flag::WEST != 0 ==> from_x(d) == -1,
        d & direction_flag::EAST == 0 && d & direction_flag::WEST == 0 ==> from_x(d) == 0,
        d & direction_flag::NORTH != 0 ==> from_z(d) == 1,
        d & direction_flag::NORTH == 0 && d & direction_flag::SOUTH != 0 ==> from_z(d) == -1,
        d & direction_flag::NORTH == 0 && d & direction_flag::SOUTH == 0 ==> from_z(d) == 0,
{
    assert(d == 1 || d == 2 || d == 4 || d == 8 || d == 12 || d == 9 || d == 6 || d == 3);
    assert((d == 1 || d == 2 || d == 4 || d == 8 || d == 12 || d == 9 || d == 6 || d == 3) ==> (
    (d & 2 != 0 <==> (d == 2 || d == 3 || d == 6)) && (d & 8 != 0 <==> (d == 8 || d == 9 || d
        == 12)) && (d & 1 != 0 <==> (d == 1 || d == 3 || d == 9)) && (d & 4 != 0 <==> (d == 4
        || d == 6 || d == 12)))) by (bit_vector);
}

pub struct PathFinder {
    directions: Vec<i8>,
    distances: Vec<i32>,
    generations: Vec<u32>,
    generation: u32,
    valid_local: Vec<u32>,
    curr_local_x: i32,
    curr_local_z: i32,
    buf_reader_index: usize,
    buf_writer_index: usize,
    /// The tiles reached in this search, by index.
    visited: Ghost<Set<int>>,
    /// How many queued tiles have been read.
    reads: Ghost<nat>,
    /// The reached tiles in the order they were queued.
    order: Ghost<Seq<(int, int)>>,
    /// Whether the queue ever held as many waiting tiles as it has slots;
    /// with a slot for every tile of the window it never does, which the
    /// search proves.
    overran: Ghost<bool>,
}

impl PathFinder {
    /// The search arrays have their sizes and no tile carries a generation
    /// later than the current one.
    pub closed spec fn wf(&self) -> bool {
        &&& self.directions@.len() == MAP_SIZE
        &&& self.distances@.len() == MAP_SIZE
        &&& self.generations@.len() == MAP_SIZE
        &&& self.valid_local@.len() == DEFAULT_RING_BUFFER_SIZE
        &&& self.generation >= 1
        &&& forall|i: int| 0 <= i < MAP_SIZE ==> #[trigger] self.generations@[i] <= self.generation
    }

    spec fn seen(&self, i: int) -> bool {
        self.generations@[i] == self.generation
    }

    /// The ghost set holds exactly the tiles reached in this search, and every
    /// distance is below their number.
    spec fn counted(&self) -> bool {
        &&& self.visited@.finite()
        &&& forall|i: int|
            #![trigger self.generations@[i]]
            #![trigger self.visited@.contains(i)]
            0 <= i < MAP_SIZE ==> (self.visited@.contains(i) <==> self.generations@[i]
                == self.generation)
        &&& forall|i: int|
            #[trigger] self.visited@.contains(i) ==> 0 <= i < MAP_SIZE && 0 <= self.distances@[i]
                < self.visited@.len()
    }

    /// The ghost order lists the reached tiles in the order they were
    /// queued, the source first.
    spec fn ordered(&self) -> bool {
        &&& self.order@.len() == self.visited@.len()
        &&& forall|k: int|
            0 <= k < self.order@.len() ==> in_grid((#[trigger] self.order@[k]).0, self.order@[k].1)
                && self.visited@.contains(grid_index(self.order@[k].0, self.order@[k].1))
        &&& forall|i: int|
            #[trigger] self.visited@.contains(i) ==> exists|k: int|
                0 <= k < self.order@.len() && i == grid_index(
                    (#[trigger] self.order@[k]).0,
                    self.order@[k].1,
                )
        &&& self.order@.len() >= 1 ==> self.order@[0] == (64int, 64int)
        &&& self.overran@ ==> self.order@.len() >= 16384
    }

    /// The search's current generation: a tile counts as reached when its
    /// own generation equals it.
    pub closed spec fn current_generation(&self) -> u32 {
        self.generation
    }

    /// Per local tile: the generation in which it was last reached.
    pub closed spec fn tile_generations(&self) -> Seq<u32> {
        self.generations@
    }

    /// Per local tile: its distance from the source when last reached.
    pub closed spec fn tile_distances(&self) -> Seq<i32> {
        self.distances@
    }

    /// Per local tile: the direction it was entered from when last reached.
    pub closed spec fn tile_directions(&self) -> Seq<i8> {
        self.directions@
    }

    /// The slots of the queue of tiles waiting to be expanded.
    pub closed spec fn queue_slots(&self) -> Seq<u32> {
        self.valid_local@
    }

    /// The slots the queue is read from and written to next.
    pub closed spec fn queue_ends(&self) -> (usize, usize) {
        (self.buf_reader_index, self.buf_writer_index)
    }

    spec fn dist_at(&self, t: (int, int)) -> int {
        self.distances@[grid_index(t.0, t.1)] as int
    }

    /// While the queue has never held 16384 tiles: it is first in, first out;
    /// the queued distances never decrease and span at most one step past the
    /// last tile read; and each of the first `done` tiles read neither reached
    /// the destination nor left a search step unexplored.
    spec fn bfs_ok<C: CollisionStrategy>(
        &self,
        flags: &CollisionFlagMap,
        c: &C,
        y: int,
        bx: int,
        bz: int,
        size: int,
        reach: spec_fn(int, int) -> bool,
        done: int,
    ) -> bool {
        let w = self.order@.len() as int;
        let r = self.reads@ as int;
        !self.overran@ ==> {
            &&& w - r < 16384
            &&& 0 <= done <= r
            &&& forall|k: int|
                r <= k < w ==> (
                slot_x(self.valid_local@[k % 16384]),
                slot_z(self.valid_local@[k % 16384]),
            ) == #[trigger] self.order@[k]
            &&& forall|k1: int, k2: int|
                0 <= k1 <= k2 < w ==> self.dist_at(#[trigger] self.order@[k1]) <= self.dist_at(
                    #[trigger] self.order@[k2],
                )
            &&& r >= 1 ==> forall|k: int|
                0 <= k < w ==> self.dist_at(#[trigger] self.order@[k]) <= self.dist_at(
                    self.order@[r - 1],
                ) + 1
            &&& forall|k: int|
                0 <= k < done ==> !reach((#[trigger] self.order@[k]).0, self.order@[k].1)
            &&& forall|k: int, b: (int, int)|
                0 <= k < done && #[trigger] window_step(
                    flags,
                    c,
                    y,
                    bx,
                    bz,
                    size,
                    self.order@[k],
                    b,
                ) ==> self.seen(grid_index(b.0, b.1)) && self.dist_at(b) <= self.dist_at(
                    self.order@[k],
                ) + 1
        }
    }

    spec fn slot_ok(&self, p: u32) -> bool {
        in_grid(slot_x(p), slot_z(p)) && self.seen(grid_index(slot_x(p), slot_z(p)))
    }

    /// The queue: every slot written in this search holds a reached tile.
    spec fn ring_ok(&self) -> bool {
        let w = self.visited@.len();
        &&& self.reads@ <= w
        &&& w <= MAP_SIZE
        &&& self.buf_writer_index == w % 16384
        &&& self.buf_reader_index == self.reads@ % 16384
        &&& forall|s: int| 0 <= s < 16384 && s < w ==> #[trigger] self.slot_ok(self.valid_local@[s])
    }

    /// A reached tile other than the source records the tile it was entered
    /// from: reached one step earlier, by a permitted step.
    spec fn linked<C: CollisionStrategy>(
        &self,
        flags: &CollisionFlagMap,
        c: &C,
        y: int,
        bx: int,
        bz: int,
        size: int,
        tx: int,
        tz: int,
    ) -> bool {
        let i = grid_index(tx, tz);
        let d = self.directions@[i];
        let px = tx + from_x(d);
        let pz = tz + from_z(d);
        (in_grid(tx, tz) && self.seen(i) && self.distances@[i] != 0) ==> {
            &&& is_direction(d)
            &&& in_grid(px, pz)
            &&& self.seen(grid_index(px, pz))
            &&& self.distances@[i] == self.distances@[grid_index(px, pz)] + 1
            &&& window_step(flags, c, y, bx, bz, size, (px, pz), (tx, tz))
        }
    }

    /// The tile a reached tile was entered from, by its recorded direction.
    spec fn parent_of(&self, t: (int, int)) -> (int, int) {
        let d = self.directions@[grid_index(t.0, t.1)];
        (t.0 + from_x(d), t.1 + from_z(d))
    }

    /// A reached tile other than the source was
    /// entered from the first tile in queue order from which it is one step,
    /// and that tile has been read.
    spec fn first_at<C: CollisionStrategy>(
        &self,
        flags: &CollisionFlagMap,
        c: &C,
        y: int,
        bx: int,
        bz: int,
        size: int,
        tx: int,
        tz: int,
    ) -> bool {
        let i = grid_index(tx, tz);
        (!self.overran@ && in_grid(tx, tz) && self.seen(i) && self.distances@[i] != 0) ==> exists|
            m: int,
        |
            m < self.reads@ && #[trigger] first_step_from(
                flags,
                c,
                y,
                bx,
                bz,
                size,
                self.order@,
                m,
                (tx, tz),
            ) && self.order@[m] == self.parent_of((tx, tz))
    }

    spec fn firsts_ok<C: CollisionStrategy>(
        &self,
        flags: &CollisionFlagMap,
        c: &C,
        y: int,
        bx: int,
        bz: int,
        size: int,
    ) -> bool {
        forall|tx: int, tz: int| #[trigger] self.first_at(flags, c, y, bx, bz, size, tx, tz)
    }

    spec fn search_ok<C: CollisionStrategy>(
        &self,
        flags: &CollisionFlagMap,
        c: &C,
        y: int,
        bx: int,
        bz: int,
        size: int,
    ) -> bool {
        &&& self.wf()
        &&& self.counted()
        &&& self.ordered()
        &&& self.ring_ok()
        &&& self.seen(grid_index(64, 64))
        &&& self.distances@[grid_index(64, 64)] == 0
        &&& forall|i: int|
            0 <= i < MAP_SIZE && #[trigger] self.seen(i) && self.distances@[i] == 0 ==> i
                == grid_index(64, 64)
        &&& forall|tx: int, tz: int| #[trigger] self.linked(flags, c, y, bx, bz, size, tx, tz)
    }

    pub fn new() -> (r: PathFinder)
        ensures
            r.wf(),
            r.current_generation() == 1,
            r.tile_generations().len() == MAP_SIZE,
            r.tile_distances().len() == MAP_SIZE,
            r.tile_directions().len() == MAP_SIZE,
            r.queue_slots().len() == DEFAULT_RING_BUFFER_SIZE,
            r.queue_ends() == (0usize, 0usize),
            forall|i: int| 0 <= i < MAP_SIZE ==> #[trigger] r.tile_generations()[i] == 0,
            forall|i: int|
                0 <= i < MAP_SIZE ==> #[trigger] r.tile_distances()[i] == DEFAULT_DISTANCE_VALUE,
            forall|i: int| 0 <= i < MAP_SIZE ==> #[trigger] r.tile_directions()[i] == 0,
    {
        let r = PathFinder {
            directions: vec![0i8; MAP_SIZE as usize],
            distances: vec![DEFAULT_DISTANCE_VALUE; MAP_SIZE as usize],
            generations: vec![0u32; MAP_SIZE as usize],
            generation: 1,
            valid_local: vec![0u32; DEFAULT_RING_BUFFER_SIZE as usize],
            curr_local_x: 0,
            curr_local_z: 0,
            buf_reader_index: 0,
            buf_writer_index: 0,
            visited: Ghost(Set::empty()),
            reads: Ghost(0),
            order: Ghost(Seq::empty()),
            overran: Ghost(false),
        };
        assert forall|i: int| 0 <= i < MAP_SIZE implies #[trigger] r.generations@[i] == 0 by {
            assert(vstd::pervasive::cloned(0u32, r.generations@[i]));
        }
        assert forall|i: int| 0 <= i < MAP_SIZE implies #[trigger] r.distances@[i]
            == DEFAULT_DISTANCE_VALUE by {
            assert(vstd::pervasive::cloned(DEFAULT_DISTANCE_VALUE, r.distances@[i]));
        }
        assert forall|i: int| 0 <= i < MAP_SIZE implies #[trigger] r.directions@[i] == 0 by {
            assert(vstd::pervasive::cloned(0i8, r.directions@[i]));
        }
        r
    }

    pub fn local_index(x: i32, z: i32) -> (r: usize)
        requires
            in_grid(x as int, z as int),
        ensures
            r == grid_index(x as int, z as int),
    {
        assert(0 <= x < 128 && 0 <= z < 128 ==> (x << 7) | z == x * 128 + z) by (bit_vector);
        ((x << 7) | z) as usize
    }

    fn collision_flag(
        flags: &CollisionFlagMap,
        base_x: i32,
        base_z: i32,
        local_x: i32,
        local_z: i32,
        y: i32,
    ) -> (r: u32)
        requires
            within_world(base_x as int),
            within_world(base_z as int),
            0 <= local_x < 256,
            0 <= local_z < 256,
        ensures
            r == flags.tile_flag(base_x + local_x, base_z + local_z, y as int),
    {
        flags.get(base_x + local_x, base_z + local_z, y)
    }

    /// Starts a new search: a fresh generation, no tile reached, empty queue.
    fn reset(&mut self)
        requires
            old(self).wf(),
        ensures
            final(self).wf(),
            final(self).directions == old(self).directions,
            final(self).curr_local_x == old(self).curr_local_x,
            final(self).curr_local_z == old(self).curr_local_z,
            final(self).distances == old(self).distances,
            final(self).valid_local == old(self).valid_local,
            final(self).visited@ == Set::<int>::empty(),
            final(self).reads@ == 0,
            final(self).order@ == Seq::<(int, int)>::empty(),
            !final(self).overran@,
            final(self).buf_reader_index == 0,
            final(self).buf_writer_index == 0,
            forall|i: int| 0 <= i < MAP_SIZE ==> #[trigger] final(self).generations@[i] < final(self).generation,
    {
        if self.generation == u32::MAX {
            self.generation = 0;
        } else {
            self.generation = self.generation + 1;
        }
        if self.generation == 0 {
            self.generation = 1;
            let mut i: usize = 0;
            while i < MAP_SIZE as usize
                invariant
                    self.generation == 1,
                    self.generations@.len() == MAP_SIZE,
                    self.directions == old(self).directions,
                    self.distances == old(self).distances,
                    self.valid_local == old(self).valid_local,
                    self.curr_local_x == old(self).curr_local_x,
                    self.curr_local_z == old(self).curr_local_z,
                    i <= MAP_SIZE,
                    forall|j: int| 0 <= j < i ==> #[trigger] self.generations@[j] == 0,
                decreases MAP_SIZE - i,
            {
                self.generations.set(i, 0);
                i = i + 1;
            }
        }
        self.buf_reader_index = 0;
        self.buf_writer_index = 0;
        self.visited = Ghost(Set::empty());
        self.reads = Ghost(0);
        self.order = Ghost(Seq::empty());
        self.overran = Ghost(false);
    }

    /// Records that local tile `(x, z)` was reached by a step recorded as
    /// `direction`, at `distance` steps from the source, and queues it.
    fn append_direction(&mut self, x: i32, z: i32, direction: i8, distance: i32)
        requires
            old(self).wf(),
            old(self).counted(),
            old(self).ring_ok(),
            in_grid(x as int, z as int),
            !old(self).seen(grid_index(x as int, z as int)),
        ensures
            final(self).directions@ == old(self).directions@.update(
                grid_index(x as int, z as int),
                direction,
            ),
            final(self).distances@ == old(self).distances@.update(
                grid_index(x as int, z as int),
                distance,
            ),
            final(self).generations@ == old(self).generations@.update(
                grid_index(x as int, z as int),
                old(self).generation,
            ),
            final(self).valid_local@ == old(self).valid_local@.update(
                old(self).buf_writer_index as int,
                ((x as u32) | ((z as u32) << 16u32)),
            ),
            final(self).generation == old(self).generation,
            final(self).visited@ == old(self).visited@.insert(grid_index(x as int, z as int)),
            final(self).visited@.len() == old(self).visited@.len() + 1,
            final(self).buf_writer_index == final(self).visited@.len() % 16384,
            final(self).buf_reader_index == old(self).buf_reader_index,
            final(self).reads == old(self).reads,
            final(self).curr_local_x == old(self).curr_local_x,
            final(self).curr_local_z == old(self).curr_local_z,
            final(self).visited@.len() <= MAP_SIZE,
            final(self).wf(),
            final(self).order@ == old(self).order@.push((x as int, z as int)),
            final(self).overran@ == (old(self).overran@ || final(self).order@.len()
                - old(self).reads@ >= 16384),
    {
        let index: usize = Self::local_index(x, z);
        self.directions.set(index, direction);
        self.distances.set(index, distance);
        let generation = self.generation;
        self.generations.set(index, generation);
        let slot = self.buf_writer_index;
        self.valid_local.set(slot, (x as u32) | ((z as u32) << 16u32));
        let w1: usize = self.buf_writer_index + 1;
        assert(w1 & 16383 == w1 % 16384) by (bit_vector)
            requires
                w1 <= 16384,
        ;
        self.buf_writer_index = w1 & (DEFAULT_RING_BUFFER_SIZE - 1) as usize;
        proof {
            let old_visited = self.visited@;
            assert(!old_visited.contains(index as int));
            self.visited@ = old_visited.insert(index as int);
            assert(self.visited@.len() == old_visited.len() + 1);
            assert(self.visited@.subset_of(set_int_range(0, MAP_SIZE as int)));
            lemma_int_range(0, MAP_SIZE as int);
            lemma_len_subset(self.visited@, set_int_range(0, MAP_SIZE as int));
            assert(self.buf_writer_index == (old_visited.len() % 16384 + 1) % 16384);
            assert((old_visited.len() % 16384 + 1) % 16384 == (old_visited.len() + 1) % 16384) by {
                vstd::arithmetic::div_mod::lemma_add_mod_noop(
                    old_visited.len() as int,
                    1,
                    16384,
                );
            }
            let old_order = self.order@;
            self.order@ = old_order.push((x as int, z as int));
            let old_overran = self.overran@;
            self.overran@ = old_overran || self.order@.len() - self.reads@ >= 16384;
        }
    }

    /// The search queues tile `n` from the current tile: one search step
    /// away, inside the window, and not reached yet.
    spec fn queues<C: CollisionStrategy>(
        &self,
        flags: &CollisionFlagMap,
        c: &C,
        y: int,
        bx: int,
        bz: int,
        size: int,
        n: (int, int),
    ) -> bool {
        &&& window_step(
            flags,
            c,
            y,
            bx,
            bz,
            size,
            (self.curr_local_x as int, self.curr_local_z as int),
            n,
        )
        &&& !self.seen(grid_index(n.0, n.1))
    }

    /// The neighbours the current tile queues among the first `j` of the
    /// eight, in the order of the expansion.
    spec fn queued_from<C: CollisionStrategy>(
        &self,
        flags: &CollisionFlagMap,
        c: &C,
        y: int,
        bx: int,
        bz: int,
        size: int,
        j: int,
    ) -> Seq<(int, int)>
        decreases j,
    {
        if j <= 0 {
            Seq::empty()
        } else {
            let n = (
                self.curr_local_x + expansion_step(j - 1).0,
                self.curr_local_z + expansion_step(j - 1).1,
            );
            self.queued_from(flags, c, y, bx, bz, size, j - 1) + if self.queues(
                flags,
                c,
                y,
                bx,
                bz,
                size,
                n,
            ) {
                seq![n]
            } else {
                Seq::empty()
            }
        }
    }


    /// Queues the neighbour at offset `(dx, dz)` of the current tile when it
    /// lies inside the window, has not been reached yet and the entity may
    /// step onto it.
    fn expand<C: CollisionStrategy>(
        &mut self,
        flags: &CollisionFlagMap,
        collision: &C,
        y: i32,
        base_x: i32,
        base_z: i32,
        size: u8,
        dx: i8,
        dz: i8,
        direction: i8,
        next_distance: i32,
        reach: Ghost<spec_fn(int, int) -> bool>,
    )
        requires
            old(self).firsts_ok(flags, collision, y as int, base_x as int, base_z as int, size as int),
            old(self).search_ok(flags, collision, y as int, base_x as int, base_z as int, size as int),
            within_world(base_x as int),
            within_world(base_z as int),
            within_world(base_x + 128),
            within_world(base_z + 128),
            in_grid(old(self).curr_local_x as int, old(self).curr_local_z as int),
            old(self).seen(grid_index(old(self).curr_local_x as int, old(self).curr_local_z as int)),
            next_distance == old(self).distances@[grid_index(
                old(self).curr_local_x as int,
                old(self).curr_local_z as int,
            )] + 1,
            size >= 1,
            -1 <= dx <= 1,
            -1 <= dz <= 1,
            is_direction(direction),
            from_x(direction) == -dx,
            from_z(direction) == -dz,
            old(self).reads@ >= 1,
            !old(self).overran@ ==> old(self).order@[old(self).reads@ - 1] == (
                old(self).curr_local_x as int,
                old(self).curr_local_z as int,
            ),
            old(self).bfs_ok(
                flags,
                collision,
                y as int,
                base_x as int,
                base_z as int,
                size as int,
                reach@,
                old(self).reads@ - 1,
            ),
        ensures
            final(self).overran@ == old(self).overran@,
            final(self).firsts_ok(flags, collision, y as int, base_x as int, base_z as int, size as int),
            final(self).search_ok(flags, collision, y as int, base_x as int, base_z as int, size as int),
            final(self).curr_local_x == old(self).curr_local_x,
            final(self).curr_local_z == old(self).curr_local_z,
            final(self).reads == old(self).reads,
            final(self).buf_reader_index == old(self).buf_reader_index,
            final(self).generation == old(self).generation,
            forall|i: int| 0 <= i < MAP_SIZE && #[trigger] old(self).seen(i) ==> final(self).seen(i) && final(self).distances@[i] == old(self).distances@[i],
            final(self).bfs_ok(
                flags,
                collision,
                y as int,
                base_x as int,
                base_z as int,
                size as int,
                reach@,
                old(self).reads@ - 1,
            ),
            final(self).order@.len() >= old(self).order@.len(),
            forall|k: int|
                0 <= k < old(self).order@.len() ==> #[trigger] final(self).order@[k] == old(
                    self,
                ).order@[k],
            ({
                let n = (old(self).curr_local_x + dx, old(self).curr_local_z + dz);
                let queued = old(self).queues(
                    flags,
                    collision,
                    y as int,
                    base_x as int,
                    base_z as int,
                    size as int,
                    n,
                );
                &&& queued ==> final(self).order@ == old(self).order@.push(n)
                    && final(self).distances@ == old(self).distances@.update(
                    grid_index(n.0, n.1),
                    next_distance,
                ) && final(self).directions@ == old(self).directions@.update(
                    grid_index(n.0, n.1),
                    direction,
                ) && final(self).generations@ == old(self).generations@.update(
                    grid_index(n.0, n.1),
                    old(self).generation,
                )
                &&& !queued ==> final(self).order@ == old(self).order@ && final(self).distances@
                    == old(self).distances@ && final(self).directions@ == old(self).directions@
                    && final(self).generations@ == old(self).generations@
            }),
            old(self).overran@ ==> final(self).overran@,
            !final(self).overran@ && window_step(
                flags,
                collision,
                y as int,
                base_x as int,
                base_z as int,
                size as int,
                (old(self).curr_local_x as int, old(self).curr_local_z as int),
                (old(self).curr_local_x + dx, old(self).curr_local_z + dz),
            ) ==> final(self).seen(
                grid_index(old(self).curr_local_x + dx, old(self).curr_local_z + dz),
            ) && final(self).dist_at((old(self).curr_local_x + dx, old(self).curr_local_z + dz))
                <= old(self).dist_at((old(self).curr_local_x as int, old(self).curr_local_z as int))
                + 1,
    {
        let ghost pre: PathFinder = *self;
        let cx: i32 = self.curr_local_x;
        let cz: i32 = self.curr_local_z;
        let limit: i32 = DEFAULT_SEARCH_MAP_SIZE - size as i32;
        let x_inside: bool = if dx < 0 {
            cx > 0
        } else if dx > 0 {
            cx < limit
        } else {
            true
        };
        let z_inside: bool = if dz < 0 {
            cz > 0
        } else if dz > 0 {
            cz < limit
        } else {
            true
        };
        if !(x_inside && z_inside) {
            return;
        }
        let x: i32 = cx + dx as i32;
        let z: i32 = cz + dz as i32;
        let index: usize = Self::local_index(x, z);
        if self.generations[index] == self.generation {
            proof {
                if !self.overran@ {
                    assert(self.visited@.contains(index as int));
                    let k = choose|k: int|
                        0 <= k < self.order@.len() && index as int == grid_index(
                            (#[trigger] self.order@[k]).0,
                            self.order@[k].1,
                        );
                    assert(self.dist_at(self.order@[k]) <= self.dist_at(self.order@[self.reads@ - 1]) + 1);
                    assert(self.dist_at((x as int, z as int)) == self.dist_at(self.order@[k]));
                }
            }
            return;
        }
        if !can_travel(flags, y, base_x + cx, base_z + cz, dx, dz, size, 0, collision) {
            return;
        }
        proof {
            lemma_slot_round_trip(x as u32, z as u32);
        }
        self.append_direction(x, z, direction, next_distance);
        proof {
            let ci = grid_index(cx as int, cz as int);
            assert(ci != index as int);
            assert forall|i: int| 0 <= i < MAP_SIZE && #[trigger] pre.seen(i) implies self.seen(i)
                && self.distances@[i] == pre.distances@[i] by {
                assert(i != index as int);
            }
            assert forall|i: int|
                #![trigger self.generations@[i]]
                #![trigger self.visited@.contains(i)]
                0 <= i < MAP_SIZE implies (self.visited@.contains(i) <==> self.generations@[i]
                == self.generation) by {
                if i != index as int {
                    assert(pre.visited@.contains(i) <==> pre.generations@[i] == pre.generation);
                }
            }
            assert forall|i: int| #[trigger] self.visited@.contains(i) implies 0 <= i < MAP_SIZE
                && 0 <= self.distances@[i] < self.visited@.len() by {
                if i != index as int {
                    assert(pre.visited@.contains(i));
                }
            }
            assert forall|sl: int| 0 <= sl < 16384 && sl < self.visited@.len() implies #[trigger] self.slot_ok(
                self.valid_local@[sl],
            ) by {
                if sl != pre.buf_writer_index as int {
                    assert(pre.slot_ok(pre.valid_local@[sl]));
                    let p = pre.valid_local@[sl];
                    assert(pre.seen(grid_index(slot_x(p), slot_z(p))));
                }
            }
            assert forall|i: int| 0 <= i < MAP_SIZE && #[trigger] self.seen(i) && self.distances@[i] == 0 implies i
                == grid_index(64, 64) by {
                if i != index as int {
                    assert(pre.seen(i));
                }
            }
            assert forall|k: int|
                0 <= k < self.order@.len() implies in_grid((#[trigger] self.order@[k]).0, self.order@[k].1)
                && self.visited@.contains(grid_index(self.order@[k].0, self.order@[k].1)) by {
                if k < pre.order@.len() {
                    assert(self.order@[k] == pre.order@[k]);
                }
            }
            assert forall|i: int| #[trigger] self.visited@.contains(i) implies exists|k: int|
                0 <= k < self.order@.len() && i == grid_index(
                    (#[trigger] self.order@[k]).0,
                    self.order@[k].1,
                ) by {
                if i == index as int {
                    assert(self.order@[pre.order@.len() as int] == (x as int, z as int));
                } else {
                    assert(pre.visited@.contains(i));
                    let k = choose|k: int|
                        0 <= k < pre.order@.len() && i == grid_index(
                            (#[trigger] pre.order@[k]).0,
                            pre.order@[k].1,
                        );
                    assert(self.order@[k] == pre.order@[k]);
                }
            }
            assert(self.order@.len() >= 1 ==> self.order@[0] == pre.order@[0]);
            if !self.overran@ {
                Self::lemma_append_keeps_bfs(
                    &pre,
                    self,
                    flags,
                    collision,
                    y as int,
                    base_x as int,
                    base_z as int,
                    size as int,
                    reach@,
                    (x as int, z as int),
                );
            }
            assert forall|tx: int, tz: int| #[trigger] self.first_at(
                flags,
                collision,
                y as int,
                base_x as int,
                base_z as int,
                size as int,
                tx,
                tz,
            ) by {
                let ti = grid_index(tx, tz);
                if !self.overran@ && in_grid(tx, tz) && self.seen(ti) && self.distances@[ti] != 0 {
                    let r = pre.reads@ as int;
                    if ti == index as int {
                        assert((tx, tz) == (x as int, z as int));
                        assert forall|k: int| 0 <= k < r - 1 implies !#[trigger] window_step(
                            flags,
                            collision,
                            y as int,
                            base_x as int,
                            base_z as int,
                            size as int,
                            self.order@[k],
                            (tx, tz),
                        ) by {
                            assert(self.order@[k] == pre.order@[k]);
                            if window_step(
                                flags,
                                collision,
                                y as int,
                                base_x as int,
                                base_z as int,
                                size as int,
                                pre.order@[k],
                                (tx, tz),
                            ) {
                                assert(pre.seen(grid_index(tx, tz)));
                            }
                        }
                        assert(self.order@[r - 1] == pre.order@[r - 1]);
                        assert(first_step_from(
                            flags,
                            collision,
                            y as int,
                            base_x as int,
                            base_z as int,
                            size as int,
                            self.order@,
                            r - 1,
                            (tx, tz),
                        ));
                    } else {
                        assert(pre.first_at(
                            flags,
                            collision,
                            y as int,
                            base_x as int,
                            base_z as int,
                            size as int,
                            tx,
                            tz,
                        ));
                        assert(pre.seen(ti));
                        let m = choose|m: int|
                            m < pre.reads@ && #[trigger] first_step_from(
                                flags,
                                collision,
                                y as int,
                                base_x as int,
                                base_z as int,
                                size as int,
                                pre.order@,
                                m,
                                (tx, tz),
                            ) && pre.order@[m] == pre.parent_of((tx, tz));
                        assert forall|k: int| 0 <= k < m implies !#[trigger] window_step(
                            flags,
                            collision,
                            y as int,
                            base_x as int,
                            base_z as int,
                            size as int,
                            self.order@[k],
                            (tx, tz),
                        ) by {
                            assert(self.order@[k] == pre.order@[k]);
                        }
                        assert(self.order@[m] == pre.order@[m]);
                        assert(first_step_from(
                            flags,
                            collision,
                            y as int,
                            base_x as int,
                            base_z as int,
                            size as int,
                            self.order@,
                            m,
                            (tx, tz),
                        ));
                    }
                }
            }
            assert forall|tx: int, tz: int| #[trigger] self.linked(flags, collision, y as int, base_x as int, base_z as int, size as int, tx, tz) by {
                assert(pre.linked(flags, collision, y as int, base_x as int, base_z as int, size as int, tx, tz));
                if in_grid(tx, tz) && grid_index(tx, tz) != index as int && pre.seen(grid_index(tx, tz)) && pre.distances@[grid_index(tx, tz)] != 0 {
                    let d = pre.directions@[grid_index(tx, tz)];
                    let pi = grid_index(tx + from_x(d), tz + from_z(d));
                    assert(pi != index as int);
                }
            }
        }
    }


    /// Breadth-first search from the queued source until a tile is read from
    /// which the destination is reached (`true`, with that tile current) or
    /// the queue runs empty (`false`). An entity of `size` tiles expands to the
    /// eight neighbours in the order west, east, south, north, south-west,
    /// south-east, north-west, north-east.
    fn search<C: CollisionStrategy>(
        &mut self,
        flags: &CollisionFlagMap,
        collision: &C,
        y: i32,
        base_x: i32,
        base_z: i32,
        local_dest_x: i32,
        local_dest_z: i32,
        dest_width: u8,
        dest_height: u8,
        size: u8,
        angle: u8,
        shape: i8,
        block_access_flags: u8,
    ) -> (found: bool)
        requires
            old(self).only_source(),
            old(self).search_ok(flags, collision, y as int, base_x as int, base_z as int, size as int),
            within_world(base_x as int),
            within_world(base_z as int),
            within_world(base_x + 128),
            within_world(base_z + 128),
            within_world(base_x + local_dest_x),
            within_world(base_z + local_dest_z),
            size >= 1,
            angle_fits(angle, shape),
        ensures
            !final(self).overran@,
            found ==> final(self).reads@ >= 1 && final(self).order@
                == bfs_queue(flags, collision, y as int, base_x as int, base_z as int, size as int, (final(self).reads@ - 1) as nat),
            !found ==> final(self).order@ == bfs_queue(flags, collision, y as int, base_x as int, base_z as int, size as int, final(self).reads@),
            final(self).firsts_ok(flags, collision, y as int, base_x as int, base_z as int, size as int),
            final(self).reads@ <= final(self).order@.len() <= MAP_SIZE,
            found ==> final(self).order@[final(self).reads@ - 1] == (
                final(self).curr_local_x as int,
                final(self).curr_local_z as int,
            ) && forall|k: int|
                0 <= k < final(self).reads@ - 1 ==> !#[trigger] local_reach(
                    flags,
                    y as int,
                    base_x as int,
                    base_z as int,
                    local_dest_x as int,
                    local_dest_z as int,
                    dest_width,
                    dest_height,
                    size,
                    angle,
                    shape,
                    block_access_flags,
                    final(self).order@[k],
                ),
            !found ==> final(self).reads@ == final(self).order@.len(),
            final(self).search_ok(flags, collision, y as int, base_x as int, base_z as int, size as int),
            found ==> {
                let cx = final(self).curr_local_x as int;
                let cz = final(self).curr_local_z as int;
                &&& in_grid(cx, cz)
                &&& final(self).seen(grid_index(cx, cz))
                &&& local_reach(
                    flags,
                    y as int,
                    base_x as int,
                    base_z as int,
                    local_dest_x as int,
                    local_dest_z as int,
                    dest_width,
                    dest_height,
                    size,
                    angle,
                    shape,
                    block_access_flags,
                    (cx, cz),
                )
            },
            local_reach(
                flags,
                y as int,
                base_x as int,
                base_z as int,
                local_dest_x as int,
                local_dest_z as int,
                dest_width,
                dest_height,
                size,
                angle,
                shape,
                block_access_flags,
                (64, 64),
            ) ==> found && final(self).curr_local_x == 64 && final(self).curr_local_z == 64,
            found ==> forall|route: Seq<(int, int)>|
                window_route(flags, collision, y as int, base_x as int, base_z as int, size as int, route)
                    && #[trigger] local_reach(
                    flags,
                    y as int,
                    base_x as int,
                    base_z as int,
                    local_dest_x as int,
                    local_dest_z as int,
                    dest_width,
                    dest_height,
                    size,
                    angle,
                    shape,
                    block_access_flags,
                    route.last(),
                ) ==> route.len() - 1 >= final(self).dist_at(
                    (final(self).curr_local_x as int, final(self).curr_local_z as int),
                ),
            !found ==> forall|route: Seq<(int, int)>|
                #[trigger] window_route(flags, collision, y as int, base_x as int, base_z as int, size as int, route)
                    ==> in_grid(route.last().0, route.last().1) && final(self).seen(
                    grid_index(route.last().0, route.last().1),
                ) && final(self).dist_at(route.last()) <= route.len() - 1,
            !found ==> forall|route: Seq<(int, int)>|
                window_route(flags, collision, y as int, base_x as int, base_z as int, size as int, route)
                    ==> !#[trigger] local_reach(
                    flags,
                    y as int,
                    base_x as int,
                    base_z as int,
                    local_dest_x as int,
                    local_dest_z as int,
                    dest_width,
                    dest_height,
                    size,
                    angle,
                    shape,
                    block_access_flags,
                    route.last(),
                ),
    {
        let ghost reach: spec_fn(int, int) -> bool = |lx: int, lz: int|
            local_reach(
                flags,
                y as int,
                base_x as int,
                base_z as int,
                local_dest_x as int,
                local_dest_z as int,
                dest_width,
                dest_height,
                size,
                angle,
                shape,
                block_access_flags,
                (lx, lz),
            );
        proof {
            lemma_slot_round_trip(64, 64);
        }
        while self.buf_writer_index != self.buf_reader_index
            invariant
                self.search_ok(flags, collision, y as int, base_x as int, base_z as int, size as int),
                self.bfs_ok(
                    flags,
                    collision,
                    y as int,
                    base_x as int,
                    base_z as int,
                    size as int,
                    reach,
                    self.reads@ as int,
                ),
                self.reads@ == 0 ==> self.valid_local@[0] == (64u32 | (64u32 << 16u32))
                    && self.visited@.len() == 1 && self.order@ == seq![(64int, 64int)],
                self.reads@ > 0 ==> !reach(64, 64),
                forall|lx: int, lz: int|
                    #[trigger] reach(lx, lz) == local_reach(
                        flags,
                        y as int,
                        base_x as int,
                        base_z as int,
                        local_dest_x as int,
                        local_dest_z as int,
                        dest_width,
                        dest_height,
                        size,
                        angle,
                        shape,
                        block_access_flags,
                        (lx, lz),
                    ),
                within_world(base_x as int),
                within_world(base_z as int),
                within_world(base_x + 128),
                within_world(base_z + 128),
                within_world(base_x + local_dest_x),
                within_world(base_z + local_dest_z),
                size >= 1,
                !self.overran@,
                angle_fits(angle, shape),
                self.firsts_ok(flags, collision, y as int, base_x as int, base_z as int, size as int),
                !self.overran@ ==> self.order@ == bfs_queue(flags, collision, y as int, base_x as int, base_z as int, size as int, self.reads@),
            decreases MAP_SIZE - self.reads@,
        {
            let ghost pre: PathFinder = *self;
            let slot: usize = self.buf_reader_index;
            proof {
                let w = self.visited@.len();
                assert(self.reads@ < w);
                assert(slot < w) by {
                    if self.reads@ >= 16384 {
                        assert(slot < 16384);
                    }
                }
                assert(self.slot_ok(self.valid_local@[slot as int]));
                if !self.overran@ {
                    let r = self.reads@ as int;
                    assert(slot as int == r % 16384);
                    assert((slot_x(self.valid_local@[r % 16384]), slot_z(self.valid_local@[r % 16384]))
                        == self.order@[r]);
                }
            }
            let packed: u32 = self.valid_local[slot];
            self.curr_local_x = (packed & 0xffff) as i32;
            self.curr_local_z = (packed >> 16) as i32;
            let r1: usize = slot + 1;
            assert(r1 & 16383 == r1 % 16384) by (bit_vector)
                requires
                    r1 <= 16384,
            ;
            self.buf_reader_index = r1 & (DEFAULT_RING_BUFFER_SIZE - 1) as usize;
            proof {
                let old_reads = self.reads@;
                self.reads@ = old_reads + 1;
                vstd::arithmetic::div_mod::lemma_add_mod_noop(old_reads as int, 1, 16384);
                Self::lemma_read_keeps_search(&pre, self, flags, collision, y as int, base_x as int, base_z as int, size as int, reach);
                assert forall|tx: int, tz: int| #[trigger] self.first_at(
                    flags,
                    collision,
                    y as int,
                    base_x as int,
                    base_z as int,
                    size as int,
                    tx,
                    tz,
                ) by {
                    assert(pre.first_at(
                        flags,
                        collision,
                        y as int,
                        base_x as int,
                        base_z as int,
                        size as int,
                        tx,
                        tz,
                    ));
                }
            }
            let cx: i32 = self.curr_local_x;
            let cz: i32 = self.curr_local_z;
            if ReachStrategy::reached(
                flags,
                y,
                base_x + cx,
                base_z + cz,
                base_x + local_dest_x,
                base_z + local_dest_z,
                dest_width,
                dest_height,
                size,
                angle,
                shape,
                block_access_flags,
            ) {
                proof {
                    assert(reach(cx as int, cz as int));
                    if !self.overran@ {
                        Self::lemma_found_is_nearest(self, flags, collision, y as int, base_x as int, base_z as int, size as int, reach);
                        assert forall|route: Seq<(int, int)>|
                            window_route(flags, collision, y as int, base_x as int, base_z as int, size as int, route)
                                && #[trigger] local_reach(
                        flags,
                        y as int,
                        base_x as int,
                        base_z as int,
                        local_dest_x as int,
                        local_dest_z as int,
                        dest_width,
                        dest_height,
                        size,
                        angle,
                        shape,
                        block_access_flags,
                        route.last(),
                    ) implies route.len() - 1 >= self.dist_at(
                                (self.curr_local_x as int, self.curr_local_z as int),
                            ) by {
                            assert(route.last() == (route.last().0, route.last().1));
                            assert(reach(route.last().0, route.last().1));
                        }
                    }
                }
                return true;
            }
            let next_distance: i32 = self.distances[Self::local_index(cx, cz)] + 1;
            let ghost before_expand: PathFinder = *self;
            proof {
                Self::lemma_queued_is_fresh(
                    &before_expand,
                    flags,
                    collision,
                    y as int,
                    base_x as int,
                    base_z as int,
                    size as int,
                    8,
                );
            }
            self.expand_neighbours(flags, collision, y, base_x, base_z, size, next_distance, Ghost(reach));
            proof {
                if !self.overran@ {
                    let r = self.reads@ as int;
                    let q = bfs_queue(flags, collision, y as int, base_x as int, base_z as int, size as int, (r - 1) as nat);
                    assert(!before_expand.overran@);
                    assert(!pre.overran@);
                    assert(before_expand.reads@ == r);
                    assert(pre.reads@ == r - 1);
                    assert(before_expand.order@ == pre.order@);
                    assert(before_expand.order@ == q);
                    assert(q[r - 1] == (cx as int, cz as int));
                    assert(bfs_queue(flags, collision, y as int, base_x as int, base_z as int, size as int, self.reads@) == q + fresh_neighbours(
                        flags,
                        collision,
                        y as int,
                        base_x as int,
                        base_z as int,
                        size as int,
                        q,
                        q[r - 1],
                        8,
                    ));
                }
            }
        }
        proof {
            if !self.overran@ {
                let w = self.order@.len() as int;
                let r = self.reads@ as int;
                assert(w == r) by {
                    vstd::arithmetic::div_mod::lemma_fundamental_div_mod(w, 16384);
                    vstd::arithmetic::div_mod::lemma_fundamental_div_mod(r, 16384);
                    assert(w - r == 16384 * (w / 16384 - r / 16384)) by (nonlinear_arith)
                        requires
                            w == 16384 * (w / 16384) + w % 16384,
                            r == 16384 * (r / 16384) + r % 16384,
                            w % 16384 == r % 16384,
                    ;
                    assert(w - r == 0) by (nonlinear_arith)
                        requires
                            w - r == 16384 * (w / 16384 - r / 16384),
                            0 <= w - r < 16384,
                    ;
                }
                Self::lemma_no_route_reaches(self, flags, collision, y as int, base_x as int, base_z as int, size as int, reach);
                assert forall|route: Seq<(int, int)>|
                    window_route(flags, collision, y as int, base_x as int, base_z as int, size as int, route)
                        implies !#[trigger] local_reach(
                        flags,
                        y as int,
                        base_x as int,
                        base_z as int,
                        local_dest_x as int,
                        local_dest_z as int,
                        dest_width,
                        dest_height,
                        size,
                        angle,
                        shape,
                        block_access_flags,
                        route.last(),
                    ) by {
                    assert(route.last() == (route.last().0, route.last().1));
                    assert(!reach(route.last().0, route.last().1));
                }
            }
        }
        false
    }


    /// A tile reached in this search, fewer than a hundred steps from the
    /// source, within ten tiles of the destination on each axis.
    spec fn approach_candidate(&self, x: int, z: int, dest_x: int, dest_z: int) -> bool {
        &&& near_destination(x, z, dest_x, dest_z)
        &&& in_grid(x, z)
        &&& self.seen(grid_index(x, z))
        &&& self.distances@[grid_index(x, z)] < MAX_ALTERNATIVE_ROUTE_SEEK_RANGE
    }

    /// Candidate `(bx, bz)` is at least as close as `(x, z)`: a smaller
    /// approach cost, or the same cost and fewer steps from the source, or
    /// the same cost and steps and no later in the order of x, then z.
    spec fn no_better(
        &self,
        bx: int,
        bz: int,
        x: int,
        z: int,
        dest_x: int,
        dest_z: int,
        width: u8,
        height: u8,
    ) -> bool {
        let cb = approach_cost(bx, bz, dest_x, dest_z, width, height);
        let c = approach_cost(x, z, dest_x, dest_z, width, height);
        let db = self.distances@[grid_index(bx, bz)];
        let d = self.distances@[grid_index(x, z)];
        cb < c || (cb == c && (db < d || (db == d && (bx < x || (bx == x && bz <= z)))))
    }

    proof fn lemma_cost_bound(x: int, z: int, dest_x: int, dest_z: int, width: u8, height: u8)
        requires
            near_destination(x, z, dest_x, dest_z),
        ensures
            0 <= approach_cost(x, z, dest_x, dest_z, width, height) <= 242,
    {
        let dx = gap(x, dest_x, width as int);
        let dz = gap(z, dest_z, height as int);
        assert(0 <= dx <= 11);
        assert(0 <= dz <= 11);
        assert(0 <= dx * dx <= 121) by (nonlinear_arith)
            requires
                0 <= dx <= 11,
        ;
        assert(0 <= dz * dz <= 121) by (nonlinear_arith)
            requires
                0 <= dz <= 11,
        ;
    }

    fn axis_gap(v: i32, start: i32, len: u8) -> (r: i32)
        requires
            start - 10 <= v <= start + 10,
            -0x20000000 <= start <= 0x20000000,
        ensures
            r == gap(v as int, start as int, len as int),
            0 <= r <= 11,
    {
        if v < start {
            start - v
        } else if v > start + len as i32 - 1 {
            v - (len as i32 + start - 1)
        } else {
            0
        }
    }

    /// Picks, among the tiles reached fewer than a hundred steps from the
    /// source within ten tiles of the destination, the one with the lowest
    /// approach cost, ties going to the fewest steps, and makes it current.
    fn find_closest_approach_point(
        &mut self,
        local_dest_x: i32,
        local_dest_z: i32,
        width: u8,
        height: u8,
    ) -> (found: bool)
        requires
            old(self).wf(),
            -0x20000000 <= local_dest_x <= 0x20000000,
            -0x20000000 <= local_dest_z <= 0x20000000,
        ensures
            final(self).directions == old(self).directions,
            final(self).distances == old(self).distances,
            final(self).generations == old(self).generations,
            final(self).generation == old(self).generation,
            final(self).valid_local == old(self).valid_local,
            final(self).buf_reader_index == old(self).buf_reader_index,
            final(self).buf_writer_index == old(self).buf_writer_index,
            final(self).visited == old(self).visited,
            final(self).reads == old(self).reads,
            final(self).order == old(self).order,
            final(self).overran == old(self).overran,
            found == exists|x: int, z: int|
                #[trigger] old(self).approach_candidate(x, z, local_dest_x as int, local_dest_z as int),
            found ==> final(self).approach_candidate(
                final(self).curr_local_x as int,
                final(self).curr_local_z as int,
                local_dest_x as int,
                local_dest_z as int,
            ),
            found ==> forall|x: int, z: int|
                #[trigger] old(self).approach_candidate(x, z, local_dest_x as int, local_dest_z as int)
                    ==> final(self).no_better(
                    final(self).curr_local_x as int,
                    final(self).curr_local_z as int,
                    x,
                    z,
                    local_dest_x as int,
                    local_dest_z as int,
                    width,
                    height,
                ),
    {
        let ghost pre: PathFinder = *self;
        let ghost ldx: int = local_dest_x as int;
        let ghost ldz: int = local_dest_z as int;
        let mut lowest_cost: i32 = MAX_ALTERNATIVE_ROUTE_LOWEST_COST;
        let mut max_alternative_path: i32 = MAX_ALTERNATIVE_ROUTE_SEEK_RANGE;
        let range: i32 = MAX_ALTERNATIVE_ROUTE_DISTANCE_FROM_DESTINATION;
        let mut x: i32 = local_dest_x - range;
        while x <= local_dest_x + range
            invariant
                pre.wf(),
                self.directions == pre.directions,
                self.distances == pre.distances,
                self.generations == pre.generations,
                self.generation == pre.generation,
                self.valid_local == pre.valid_local,
                self.buf_reader_index == pre.buf_reader_index,
                self.buf_writer_index == pre.buf_writer_index,
                self.visited == pre.visited,
                self.reads == pre.reads,
                self.order == pre.order,
                self.overran == pre.overran,
                ldx == local_dest_x,
                ldz == local_dest_z,
                range == 10,
                -0x20000000 <= local_dest_x <= 0x20000000,
                -0x20000000 <= local_dest_z <= 0x20000000,
                local_dest_x - 10 <= x <= local_dest_x + 11,
                lowest_cost == MAX_ALTERNATIVE_ROUTE_LOWEST_COST ==> forall|cx: int, cz: int|
                    cx < x ==> !#[trigger] pre.approach_candidate(cx, cz, ldx, ldz),
                lowest_cost != MAX_ALTERNATIVE_ROUTE_LOWEST_COST ==> {
                    &&& pre.approach_candidate(self.curr_local_x as int, self.curr_local_z as int, ldx, ldz)
                    &&& self.curr_local_x < x
                    &&& lowest_cost == approach_cost(self.curr_local_x as int, self.curr_local_z as int, ldx, ldz, width, height)
                    &&& max_alternative_path == pre.distances@[grid_index(self.curr_local_x as int, self.curr_local_z as int)]
                    &&& forall|cx: int, cz: int|
                        cx < x && #[trigger] pre.approach_candidate(cx, cz, ldx, ldz) ==> pre.no_better(
                            self.curr_local_x as int,
                            self.curr_local_z as int,
                            cx,
                            cz,
                            ldx,
                            ldz,
                            width,
                            height,
                        )
                },
            decreases local_dest_x + range + 1 - x,
        {
            let mut z: i32 = local_dest_z - range;
            while z <= local_dest_z + range
                invariant
                    pre.wf(),
                    self.directions == pre.directions,
                    self.distances == pre.distances,
                    self.generations == pre.generations,
                    self.generation == pre.generation,
                    self.valid_local == pre.valid_local,
                    self.buf_reader_index == pre.buf_reader_index,
                    self.buf_writer_index == pre.buf_writer_index,
                    self.visited == pre.visited,
                    self.reads == pre.reads,
                    self.order == pre.order,
                    self.overran == pre.overran,
                    ldx == local_dest_x,
                    ldz == local_dest_z,
                    range == 10,
                    -0x20000000 <= local_dest_x <= 0x20000000,
                    -0x20000000 <= local_dest_z <= 0x20000000,
                    local_dest_x - 10 <= x <= local_dest_x + 10,
                    local_dest_z - 10 <= z <= local_dest_z + 11,
                    lowest_cost == MAX_ALTERNATIVE_ROUTE_LOWEST_COST ==> forall|cx: int, cz: int|
                        (cx < x || (cx == x && cz < z)) ==> !#[trigger] pre.approach_candidate(cx, cz, ldx, ldz),
                    lowest_cost != MAX_ALTERNATIVE_ROUTE_LOWEST_COST ==> {
                        &&& pre.approach_candidate(self.curr_local_x as int, self.curr_local_z as int, ldx, ldz)
                        &&& (self.curr_local_x < x || (self.curr_local_x == x && self.curr_local_z < z))
                        &&& lowest_cost == approach_cost(self.curr_local_x as int, self.curr_local_z as int, ldx, ldz, width, height)
                        &&& max_alternative_path == pre.distances@[grid_index(self.curr_local_x as int, self.curr_local_z as int)]
                        &&& forall|cx: int, cz: int|
                            (cx < x || (cx == x && cz < z)) && #[trigger] pre.approach_candidate(cx, cz, ldx, ldz) ==> pre.no_better(
                                self.curr_local_x as int,
                                self.curr_local_z as int,
                                cx,
                                cz,
                                ldx,
                                ldz,
                                width,
                                height,
                            )
                    },
                decreases local_dest_z + range + 1 - z,
            {
                let inside: bool = 0 <= x && x < DEFAULT_SEARCH_MAP_SIZE && 0 <= z && z
                    < DEFAULT_SEARCH_MAP_SIZE;
                if inside {
                    let index: usize = Self::local_index(x, z);
                    if self.generations[index] == self.generation
                        && self.distances[index] < MAX_ALTERNATIVE_ROUTE_SEEK_RANGE {
                        let dx: i32 = Self::axis_gap(x, local_dest_x, width);
                        let dz: i32 = Self::axis_gap(z, local_dest_z, height);
                        assert(0 <= dx * dx <= 121) by (nonlinear_arith)
                            requires
                                0 <= dx <= 11,
                        ;
                        assert(0 <= dz * dz <= 121) by (nonlinear_arith)
                            requires
                                0 <= dz <= 11,
                        ;
                        let cost: i32 = dx * dx + dz * dz;
                        let distance: i32 = self.distances[index];
                        proof {
                            assert(pre.approach_candidate(x as int, z as int, ldx, ldz));
                        }
                        if cost < lowest_cost || (cost == lowest_cost && max_alternative_path
                            > distance) {
                            self.curr_local_x = x;
                            self.curr_local_z = z;
                            lowest_cost = cost;
                            max_alternative_path = distance;
                        }
                    }
                }
                proof {
                    assert forall|cx: int, cz: int|
                        (cx < x || (cx == x && cz < z + 1)) && #[trigger] pre.approach_candidate(cx, cz, ldx, ldz)
                        implies lowest_cost != MAX_ALTERNATIVE_ROUTE_LOWEST_COST && pre.no_better(
                            self.curr_local_x as int,
                            self.curr_local_z as int,
                            cx,
                            cz,
                            ldx,
                            ldz,
                            width,
                            height,
                        ) by {
                        Self::lemma_cost_bound(cx, cz, ldx, ldz, width, height);
                    }
                }
                z = z + 1;
            }
            x = x + 1;
        }
        proof {
            if lowest_cost != MAX_ALTERNATIVE_ROUTE_LOWEST_COST {
                let cx = self.curr_local_x as int;
                let cz = self.curr_local_z as int;
                assert(pre.approach_candidate(cx, cz, ldx, ldz));
            } else {
                assert forall|cx: int, cz: int| !#[trigger] pre.approach_candidate(cx, cz, ldx, ldz) by {
                    if cx >= x {
                    }
                }
            }
        }
        lowest_cost != MAX_ALTERNATIVE_ROUTE_LOWEST_COST
    }


    /// Walks back from the reached local tile `(end_x, end_z)` to the source
    /// along the recorded directions, keeping, while fewer than `limit` are
    /// kept, each tile where the direction changes; the kept tiles are
    /// returned from the source's end.
    fn trace_route<C: CollisionStrategy>(
        &self,
        flags: &CollisionFlagMap,
        collision: &C,
        y: i32,
        base_x: i32,
        base_z: i32,
        size: u8,
        end_x: i32,
        end_z: i32,
        limit: u8,
    ) -> (r: Vec<u32>)
        requires
            !self.overran@,
            self.firsts_ok(flags, collision, y as int, base_x as int, base_z as int, size as int),
            self.search_ok(flags, collision, y as int, base_x as int, base_z as int, size as int),
            within_world(base_x as int),
            within_world(base_z as int),
            within_world(base_x + 128),
            within_world(base_z + 128),
            in_grid(end_x as int, end_z as int),
            self.seen(grid_index(end_x as int, end_z as int)),
        ensures
            r.len() <= limit,
            forall|i: int| 0 <= i < r.len() ==> level_of(#[trigger] r@[i]) == (y & 3) as u32,
            end_x == 64 && end_z == 64 ==> r.len() == 0,
            !(end_x == 64 && end_z == 64) && limit > 0 ==> r.len() > 0,
            r.len() > 0 ==> exists|route: Seq<(int, int)>|
                #[trigger] walks(
                    flags,
                    collision,
                    y as int,
                    size as int,
                    (base_x + 64, base_z + 64),
                    (base_x + end_x, base_z + end_z),
                    route,
                    r@,
                ) && route.len() == self.distances@[grid_index(end_x as int, end_z as int)] + 1
                    && r@ == waypoints_of(route, y as int, limit as int) && search_route(
                    flags,
                    collision,
                    y as int,
                    base_x + 64,
                    base_z + 64,
                    size as int,
                    route,
                ) && (follows_queue(
                    flags,
                    collision,
                    y as int,
                    base_x as int,
                    base_z as int,
                    size as int,
                    self.order@,
                    to_local(route, base_x + 64, base_z + 64),
                )),
    {
        let ghost end: (int, int) = (base_x + end_x, base_z + end_z);
        let ghost end_distance: int = self.distances@[grid_index(end_x as int, end_z as int)] as int;
        let ghost mut suffix: Seq<(int, int)> = seq![end];
        let mut kept: Vec<u32> = Vec::new();
        let mut x: i32 = end_x;
        let mut z: i32 = end_z;
        let mut next: i8 = self.directions[Self::local_index(x, z)];
        let mut curr: i8 = -1;
        while !(x == 64 && z == 64)
            invariant
                self.search_ok(flags, collision, y as int, base_x as int, base_z as int, size as int),
                within_world(base_x as int),
                within_world(base_z as int),
                within_world(base_x + 128),
                within_world(base_z + 128),
                in_grid(x as int, z as int),
                self.seen(grid_index(x as int, z as int)),
                next == self.directions@[grid_index(x as int, z as int)],
                end == (base_x + end_x, base_z + end_z),
                end_distance == self.distances@[grid_index(end_x as int, end_z as int)],
                suffix.len() >= 1,
                suffix[0] == (base_x + x, base_z + z),
                suffix.last() == end,
                is_route(flags, collision, y as int, size as int, suffix),
                suffix.len() - 1 + self.distances@[grid_index(x as int, z as int)] == end_distance,
                kept.len() <= limit,
                kept.len() <= suffix.len() - 1,
                suffix.len() == 1 ==> curr == -1,
                suffix.len() > 1 && limit > 0 ==> kept.len() > 0,
                kept.len() > 0 ==> kept@[0] == packed(y, (base_x + end_x) as i32, (base_z + end_z) as i32),
                forall|i: int| 0 <= i < kept.len() ==> on_route(suffix, y as int, #[trigger] kept@[i]),
                forall|i: int| 0 <= i < kept.len() ==> level_of(#[trigger] kept@[i]) == (y & 3) as u32,
                kept.len() == (if turns_from(suffix, 1).len() <= limit {
                    turns_from(suffix, 1).len() as int
                } else {
                    limit as int
                }),
                forall|i: int|
                    0 <= i < kept.len() ==> #[trigger] kept@[i] == packed(
                        y,
                        turns_from(suffix, 1)[turns_from(suffix, 1).len() - 1 - i].0 as i32,
                        turns_from(suffix, 1)[turns_from(suffix, 1).len() - 1 - i].1 as i32,
                    ),
                suffix.len() > 1 ==> is_direction(curr) && suffix[0] == (
                    suffix[1].0 + from_x(curr),
                    suffix[1].1 + from_z(curr),
                ),
                forall|k: int|
                    0 <= k < suffix.len() - 1 ==> #[trigger] window_step_at(
                        flags,
                        collision,
                        y as int,
                        base_x as int,
                        base_z as int,
                        size as int,
                        to_local(suffix, base_x + 64, base_z + 64),
                        k,
                    ),
                self.firsts_ok(flags, collision, y as int, base_x as int, base_z as int, size as int),
                forall|k: int|
                    0 <= k < suffix.len() - 1 ==> to_local(suffix, base_x + 64, base_z + 64)[k]
                        == self.parent_of(#[trigger] to_local(suffix, base_x + 64, base_z + 64)[k + 1]),
                forall|k: int|
                    0 <= k < suffix.len() ==> in_grid(
                        (#[trigger] to_local(suffix, base_x + 64, base_z + 64)[k]).0,
                        to_local(suffix, base_x + 64, base_z + 64)[k].1,
                    ) && self.seen(
                        grid_index(
                            to_local(suffix, base_x + 64, base_z + 64)[k].0,
                            to_local(suffix, base_x + 64, base_z + 64)[k].1,
                        ),
                    ) && self.distances@[grid_index(
                        to_local(suffix, base_x + 64, base_z + 64)[k].0,
                        to_local(suffix, base_x + 64, base_z + 64)[k].1,
                    )] == self.distances@[grid_index(x as int, z as int)] + k,
            decreases self.distances@[grid_index(x as int, z as int)],
        {
            let ghost here: int = grid_index(x as int, z as int);
            let ghost old_curr: i8 = curr;
            let ghost old_kept: Seq<u32> = kept@;
            proof {
                assert(self.linked(flags, collision, y as int, base_x as int, base_z as int, size as int, x as int, z as int));
                if self.distances@[here] == 0 {
                    assert(here == grid_index(64, 64));
                }
            }
            if curr != next {
                curr = next;
                if kept.len() < limit as usize {
                    let point: CoordGrid = CoordGrid::new(y, base_x + x, base_z + z);
                    proof {
                        assert(on_route(suffix, y as int, point.0)) by {
                            assert(point.0 == packed(y, suffix[0].0 as i32, suffix[0].1 as i32));
                        }
                    }
                    kept.push(point.0);
                }
            }
            proof {
                lemma_direction_bits(curr);
            }
            if curr & direction_flag::EAST != 0 {
                x = x + 1;
            } else if curr & direction_flag::WEST != 0 {
                x = x - 1;
            }
            if curr & direction_flag::NORTH != 0 {
                z = z + 1;
            } else if curr & direction_flag::SOUTH != 0 {
                z = z - 1;
            }
            proof {
                let prev = suffix;
                suffix = seq![(base_x + x, base_z + z)] + prev;
                assert(suffix[0] == (base_x + x, base_z + z));
                assert forall|k: int| 0 <= k < suffix.len() - 1 implies #[trigger] step_at(
                    flags,
                    collision,
                    y as int,
                    size as int,
                    suffix,
                    k,
                ) by {
                    if k > 0 {
                        assert(step_at(flags, collision, y as int, size as int, prev, k - 1));
                        assert(suffix[k] == prev[k - 1]);
                        assert(suffix[k + 1] == prev[k]);
                    } else {
                        assert(suffix[1] == prev[0]);
                    }
                }
                assert forall|i: int| 0 <= i < kept.len() implies on_route(
                    suffix,
                    y as int,
                    #[trigger] kept@[i],
                ) by {
                    assert(on_route(prev, y as int, kept@[i]));
                    let j = choose|j: int|
                        0 <= j < prev.len() && kept@[i] == packed(
                            y as i32,
                            #[trigger] prev[j].0 as i32,
                            prev[j].1 as i32,
                        );
                    assert(suffix[j + 1] == prev[j]);
                }
                let lp = to_local(prev, base_x + 64, base_z + 64);
                let ls = to_local(suffix, base_x + 64, base_z + 64);
                assert(ls =~= seq![(x as int, z as int)] + lp);
                assert forall|k: int| 0 <= k < suffix.len() - 1 implies #[trigger] window_step_at(
                    flags,
                    collision,
                    y as int,
                    base_x as int,
                    base_z as int,
                    size as int,
                    ls,
                    k,
                ) by {
                    if k > 0 {
                        assert(window_step_at(
                            flags,
                            collision,
                            y as int,
                            base_x as int,
                            base_z as int,
                            size as int,
                            lp,
                            k - 1,
                        ));
                    }
                }
                lemma_turns_shift(suffix[0], prev, 1);
                assert(suffix.subrange(1, suffix.len() as int) =~= prev);
                assert(suffix[1] == prev[0]);
                if prev.len() > 1 {
                    assert(suffix[2] == prev[1]);
                    if old_curr == next {
                        assert(!is_turn(suffix, 1));
                    } else {
                        if !is_turn(suffix, 1) {
                            lemma_direction_unique(old_curr, next);
                        }
                    }
                }
                assert(is_turn(suffix, 1) == (old_curr != next));
                let t = turns_from(prev, 1);
                let t2 = turns_from(suffix, 1);
                if is_turn(suffix, 1) {
                    assert(t2 == seq![prev[0]] + t);
                    assert forall|i: int| 0 <= i < kept.len() implies #[trigger] kept@[i] == packed(
                        y,
                        t2[t2.len() - 1 - i].0 as i32,
                        t2[t2.len() - 1 - i].1 as i32,
                    ) by {
                        if i < old_kept.len() {
                            assert(kept@[i] == old_kept[i]);
                            assert(t2[t2.len() - 1 - i] == t[t.len() - 1 - i]);
                        }
                    }
                } else {
                    assert(t2 == t);
                }
            }
            next = self.directions[Self::local_index(x, z)];
        }
        let mut r: Vec<u32> = Vec::new();
        let mut i: usize = kept.len();
        while i > 0
            invariant
                i <= kept.len(),
                r.len() == kept.len() - i,
                forall|k: int| 0 <= k < r.len() ==> r@[k] == kept@[kept.len() - 1 - k],
            decreases i,
        {
            i = i - 1;
            r.push(kept[i]);
        }
        proof {
            if r.len() > 0 {
                assert(suffix[0] == (base_x + 64, base_z + 64));
                assert(r@.last() == kept@[0]);
                assert forall|k: int| 0 <= k < r.len() implies on_route(suffix, y as int, #[trigger] r@[k]) by {
                    assert(r@[k] == kept@[kept.len() - 1 - k]);
                }
                assert(walks(
                    flags,
                    collision,
                    y as int,
                    size as int,
                    (base_x + 64, base_z + 64),
                    (base_x + end_x, base_z + end_z),
                    suffix,
                    r@,
                ));
                let t = turns_from(suffix, 1);
                let w = waypoints_of(suffix, y as int, limit as int);
                assert(w.len() == r.len());
                assert forall|k: int| 0 <= k < r.len() implies r@[k] == w[k] by {
                    assert(r@[k] == kept@[kept.len() - 1 - k]);
                }
                assert(r@ =~= w);
                assert(window_route(
                    flags,
                    collision,
                    y as int,
                    base_x as int,
                    base_z as int,
                    size as int,
                    to_local(suffix, base_x + 64, base_z + 64),
                ));
                let ls = to_local(suffix, base_x + 64, base_z + 64);
                if !self.overran@ {
                    assert forall|k: int| 0 <= k < ls.len() - 1 implies #[trigger] entered_first(
                        flags,
                        collision,
                        y as int,
                        base_x as int,
                        base_z as int,
                        size as int,
                        self.order@,
                        ls,
                        k,
                    ) by {
                        let t = ls[k + 1];
                        assert(in_grid(t.0, t.1) && self.seen(grid_index(t.0, t.1)));
                        assert(self.distances@[grid_index(t.0, t.1)] == k + 1);
                        assert(self.first_at(
                            flags,
                            collision,
                            y as int,
                            base_x as int,
                            base_z as int,
                            size as int,
                            t.0,
                            t.1,
                        ));
                        assert(ls[k] == self.parent_of(t));
                    }
                }
            }
            assert forall|k: int| 0 <= k < r.len() implies level_of(#[trigger] r@[k]) == (y & 3) as u32 by {
                assert(r@[k] == kept@[kept.len() - 1 - k]);
            }
        }
        r
    }


    /// Searches for a route for an entity of `src_size` tiles from
    /// `(src_x, src_z)` to the loc or tile at `(dest_x, dest_z)` on level `y`
    /// within the 128 by 128 window centred on the source, and returns its
    /// turning points, packed, in route order; where there are more than
    /// `max_waypoints`, the last of them. Where no tile reaches the
    /// destination and `move_near` is set, the route leads to the closest
    /// reached tile near it. An empty result means no route, or that the
    /// source itself is where the route ends.
    pub fn find_path<C: CollisionStrategy>(
        &mut self,
        flags: &CollisionFlagMap,
        y: i32,
        src_x: i32,
        src_z: i32,
        dest_x: i32,
        dest_z: i32,
        src_size: u8,
        dest_width: u8,
        dest_height: u8,
        angle: u8,
        shape: i8,
        move_near: bool,
        block_access_flags: u8,
        max_waypoints: u8,
        collision: &C,
    ) -> (r: Vec<u32>)
        requires
            old(self).wf(),
            within_world(src_x - 64),
            within_world(src_z - 64),
            within_world(src_x + 64),
            within_world(src_z + 64),
            within_world(dest_x as int),
            within_world(dest_z as int),
            src_size >= 1,
            angle_fits(angle, shape),
        ensures
            !move_near && no_reaching_route(
                flags,
                collision,
                y as int,
                src_x as int,
                src_z as int,
                dest_x as int,
                dest_z as int,
                src_size,
                dest_width,
                dest_height,
                angle,
                shape,
                block_access_flags,
            ) ==> r.len() == 0,
            final(self).wf(),
            r.len() <= max_waypoints,
            forall|i: int| 0 <= i < r.len() ==> level_of(#[trigger] r@[i]) == (y & 3) as u32,
            r.len() > 0 ==> exists|route: Seq<(int, int)>|
                #[trigger] found_route(
                    flags,
                    collision,
                    y as int,
                    src_x as int,
                    src_z as int,
                    dest_x as int,
                    dest_z as int,
                    src_size,
                    dest_width,
                    dest_height,
                    angle,
                    shape,
                    move_near,
                    block_access_flags,
                    route,
                    r@,
                ) && r@ == waypoints_of(route, y as int, max_waypoints as int) && search_route(
                flags,
                collision,
                y as int,
                src_x as int,
                src_z as int,
                src_size as int,
                route,
            ) && (!reach_result(
                flags,
                y as int,
                route.last().0,
                route.last().1,
                dest_x as int,
                dest_z as int,
                dest_width,
                dest_height,
                src_size,
                angle,
                shape,
                block_access_flags,
            ) ==> no_reaching_route(
                flags,
                collision,
                y as int,
                src_x as int,
                src_z as int,
                dest_x as int,
                dest_z as int,
                src_size,
                dest_width,
                dest_height,
                angle,
                shape,
                block_access_flags,
            )) && (exists|n: nat|
                #[trigger] queue_route(
                    flags,
                    collision,
                    y as int,
                    src_x as int,
                    src_z as int,
                    dest_x as int,
                    dest_z as int,
                    src_size,
                    dest_width,
                    dest_height,
                    angle,
                    shape,
                    block_access_flags,
                    route,
                    n,
                )) && (
                !reach_result(
                    flags,
                    y as int,
                    route.last().0,
                    route.last().1,
                    dest_x as int,
                    dest_z as int,
                    dest_width,
                    dest_height,
                    src_size,
                    angle,
                    shape,
                    block_access_flags,
                ) ==> no_closer_approach(
                    flags,
                    collision,
                    y as int,
                    src_x as int,
                    src_z as int,
                    dest_x as int,
                    dest_z as int,
                    src_size,
                    rotated(angle, dest_width, dest_height),
                    rotated(angle, dest_height, dest_width),
                    route,
                )) && (no_shorter_route(
                    flags,
                    collision,
                    y as int,
                    src_x as int,
                    src_z as int,
                    dest_x as int,
                    dest_z as int,
                    src_size,
                    dest_width,
                    dest_height,
                    angle,
                    shape,
                    block_access_flags,
                    route,
                )),
            max_waypoints > 0 && !reach_result(
                flags,
                y as int,
                src_x as int,
                src_z as int,
                dest_x as int,
                dest_z as int,
                dest_width,
                dest_height,
                src_size,
                angle,
                shape,
                block_access_flags,
            ) && (exists|other: Seq<(int, int)>|
                search_route(flags, collision, y as int, src_x as int, src_z as int, src_size as int, other)
                    && #[trigger] reach_result(
                    flags,
                    y as int,
                    other.last().0,
                    other.last().1,
                    dest_x as int,
                    dest_z as int,
                    dest_width,
                    dest_height,
                    src_size,
                    angle,
                    shape,
                    block_access_flags,
                )) ==> r.len() > 0,
            move_near && max_waypoints > 0 && r.len() == 0
                && !reach_result(
                flags,
                y as int,
                src_x as int,
                src_z as int,
                dest_x as int,
                dest_z as int,
                dest_width,
                dest_height,
                src_size,
                angle,
                shape,
                block_access_flags,
            ) ==> no_approach_route(
                flags,
                collision,
                y as int,
                src_x as int,
                src_z as int,
                dest_x as int,
                dest_z as int,
                src_size,
            ) || (near_destination(src_x as int, src_z as int, dest_x as int, dest_z as int)
                && no_closer_approach(
                flags,
                collision,
                y as int,
                src_x as int,
                src_z as int,
                dest_x as int,
                dest_z as int,
                src_size,
                rotated(angle, dest_width, dest_height),
                rotated(angle, dest_height, dest_width),
                seq![(src_x as int, src_z as int)],
            )),
            reach_result(
                flags,
                y as int,
                src_x as int,
                src_z as int,
                dest_x as int,
                dest_z as int,
                dest_width,
                dest_height,
                src_size,
                angle,
                shape,
                block_access_flags,
            ) ==> r.len() == 0,
    {
        self.reset();
        let base_x: i32 = src_x - SEARCH_HALF_MAP_SIZE;
        let base_z: i32 = src_z - SEARCH_HALF_MAP_SIZE;
        let local_src_x: i32 = src_x - base_x;
        let local_src_z: i32 = src_z - base_z;
        let local_dest_x: i32 = dest_x - base_x;
        let local_dest_z: i32 = dest_z - base_z;
        proof {
            assert(!self.seen(grid_index(64, 64)));
            assert(self.counted());
            assert(self.ring_ok());
            lemma_slot_round_trip(64, 64);
        }
        self.append_direction(local_src_x, local_src_z, DEFAULT_SRC_DIRECTION_VALUE, 0);
        proof {
            let src = grid_index(64, 64);
            assert(self.visited@ =~= set![src]);
            assert forall|i: int| 0 <= i < MAP_SIZE && i != src implies #[trigger] self.generations@[i]
                < self.generation by {}
            Self::lemma_only_source_ok(self, flags, collision, y as int, base_x as int, base_z as int, src_size as int);
        }
        let mut found: bool = self.search(
            flags,
            collision,
            y,
            base_x,
            base_z,
            local_dest_x,
            local_dest_z,
            dest_width,
            dest_height,
            src_size,
            angle,
            shape,
            block_access_flags,
        );
        let ghost searched: bool = found;
        let ghost after_search: PathFinder = *self;
        let ghost searched_distance: int = self.dist_at((self.curr_local_x as int, self.curr_local_z as int));
        proof {
            if !self.overran@ {
                if found {
                    Self::lemma_world_nearest(flags,
                    collision,
                    y as int,
                    src_x as int,
                    src_z as int,
                    dest_x as int,
                    dest_z as int,
                    src_size,
                    dest_width,
                    dest_height,
                    angle,
                    shape,
                    block_access_flags,
                        searched_distance,
                    );
                } else {
                    Self::lemma_no_world_route(flags,
                    collision,
                    y as int,
                    src_x as int,
                    src_z as int,
                    dest_x as int,
                    dest_z as int,
                    src_size,
                    dest_width,
                    dest_height,
                    angle,
                    shape,
                    block_access_flags,
                    );
                }
            }
        }
        if !found {
            if !move_near {
                return Vec::new();
            }
            let ghost before: PathFinder = *self;
            found = self.find_closest_approach_point(
                local_dest_x,
                local_dest_z,
                rotate(angle, dest_width, dest_height),
                rotate(angle, dest_height, dest_width),
            );
            proof {
                Self::lemma_search_frame(&before, self, flags, collision, y as int, base_x as int, base_z as int, src_size as int);
                assert forall|tx: int, tz: int| #[trigger] self.first_at(
                    flags,
                    collision,
                    y as int,
                    base_x as int,
                    base_z as int,
                    src_size as int,
                    tx,
                    tz,
                ) by {
                    assert(before.first_at(
                        flags,
                        collision,
                        y as int,
                        base_x as int,
                        base_z as int,
                        src_size as int,
                        tx,
                        tz,
                    ));
                }
            }
            if !found {
                proof {
                    if !self.overran@ {
                        Self::lemma_no_approach(
                            &after_search,
                            flags,
                            collision,
                            y as int,
                            base_x as int,
                            base_z as int,
                            src_size,
                            local_dest_x as int,
                            local_dest_z as int,
                        );
                    }
                }
                return Vec::new();
            }
        }
        let end_x: i32 = self.curr_local_x;
        let end_z: i32 = self.curr_local_z;
        let r: Vec<u32> = self.trace_route(
            flags,
            collision,
            y,
            base_x,
            base_z,
            src_size,
            end_x,
            end_z,
            max_waypoints,
        );
        proof {
            if r.len() == 0 && !self.overran@ && !searched && end_x == 64 && end_z == 64 {
                Self::lemma_approach_is_closest(
                    &after_search,
                    self,
                    flags,
                    collision,
                    y as int,
                    base_x as int,
                    base_z as int,
                    src_size,
                    local_dest_x as int,
                    local_dest_z as int,
                    rotated(angle, dest_width, dest_height),
                    rotated(angle, dest_height, dest_width),
                    seq![(src_x as int, src_z as int)],
                );
            }
            if r.len() > 0 {
                let route = choose|route: Seq<(int, int)>|
                    #[trigger] walks(
                        flags,
                        collision,
                        y as int,
                        src_size as int,
                        (base_x + 64, base_z + 64),
                        (base_x + end_x, base_z + end_z),
                        route,
                        r@,
                    ) && route.len() == self.distances@[grid_index(end_x as int, end_z as int)] + 1
                        && r@ == waypoints_of(route, y as int, max_waypoints as int)
                        && search_route(
                        flags,
                        collision,
                        y as int,
                        base_x + 64,
                        base_z + 64,
                        src_size as int,
                        route,
                    ) && (!self.overran@ ==> follows_queue(
                        flags,
                        collision,
                        y as int,
                        base_x as int,
                        base_z as int,
                        src_size as int,
                        self.order@,
                        to_local(route, base_x + 64, base_z + 64),
                    ));
                if !self.overran@ {
                    let local = to_local(route, base_x + 64, base_z + 64);
                    assert(local.last() == (end_x as int, end_z as int));
                    if searched {
                        let n = (self.reads@ - 1) as nat;
                        assert(queue_route(
                            flags,
                            collision,
                            y as int,
                            src_x as int,
                            src_z as int,
                            dest_x as int,
                            dest_z as int,
                            src_size,
                            dest_width,
                            dest_height,
                            angle,
                            shape,
                            block_access_flags,
                            route,
                            n,
                        ));
                    } else {
                        let n = self.reads@;
                        assert(queue_route(
                            flags,
                            collision,
                            y as int,
                            src_x as int,
                            src_z as int,
                            dest_x as int,
                            dest_z as int,
                            src_size,
                            dest_width,
                            dest_height,
                            angle,
                            shape,
                            block_access_flags,
                            route,
                            n,
                        ));
                    }
                }
                assert(found_route(
                    flags,
                    collision,
                    y as int,
                    src_x as int,
                    src_z as int,
                    dest_x as int,
                    dest_z as int,
                    src_size,
                    dest_width,
                    dest_height,
                    angle,
                    shape,
                    move_near,
                    block_access_flags,
                    route,
                    r@,
                ));
                if !self.overran@ && searched {
                    assert(route.len() == searched_distance + 1);
                }
                if !self.overran@ && !searched {
                    Self::lemma_approach_is_closest(
                        &after_search,
                        self,
                        flags,
                        collision,
                        y as int,
                        base_x as int,
                        base_z as int,
                        src_size,
                        local_dest_x as int,
                        local_dest_z as int,
                        rotated(angle, dest_width, dest_height),
                        rotated(angle, dest_height, dest_width),
                        route,
                    );
                }
            }
        }
        r
    }

    /// The search invariant depends on nothing but the arrays, the queue and
    /// the ghost counters.
    proof fn lemma_search_frame<C: CollisionStrategy>(
        a: &PathFinder,
        b: &PathFinder,
        flags: &CollisionFlagMap,
        c: &C,
        y: int,
        bx: int,
        bz: int,
        size: int,
    )
        requires
            a.search_ok(flags, c, y, bx, bz, size),
            b.directions == a.directions,
            b.distances == a.distances,
            b.generations == a.generations,
            b.generation == a.generation,
            b.valid_local == a.valid_local,
            b.buf_reader_index == a.buf_reader_index,
            b.buf_writer_index == a.buf_writer_index,
            b.visited == a.visited,
            b.reads == a.reads,
            b.order == a.order,
            b.overran == a.overran,
        ensures
            b.search_ok(flags, c, y, bx, bz, size),
    {
        assert forall|sl: int| 0 <= sl < 16384 && sl < b.visited@.len() implies #[trigger] b.slot_ok(
            b.valid_local@[sl],
        ) by {
            assert(a.slot_ok(a.valid_local@[sl]));
        }
        assert forall|i: int| 0 <= i < MAP_SIZE && #[trigger] b.seen(i) && b.distances@[i] == 0 implies i
            == grid_index(64, 64) by {
            assert(a.seen(i));
        }
        assert forall|tx: int, tz: int| #[trigger] b.linked(flags, c, y, bx, bz, size, tx, tz) by {
            assert(a.linked(flags, c, y, bx, bz, size, tx, tz));
        }
    }


    /// Only the source reached, at distance 0, queued in the first slot.
    spec fn only_source(&self) -> bool {
        let src = grid_index(64, 64);
        &&& self.wf()
        &&& self.visited@ == set![src]
        &&& self.order@ == seq![(64int, 64int)]
        &&& self.reads@ == 0
        &&& !self.overran@
        &&& self.buf_writer_index == 1
        &&& self.buf_reader_index == 0
        &&& self.valid_local@[0] == (64u32 | (64u32 << 16u32))
        &&& self.distances@[src] == 0
        &&& self.generations@[src] == self.generation
        &&& forall|i: int| 0 <= i < MAP_SIZE && i != src ==> #[trigger] self.generations@[i] < self.generation
    }

    proof fn lemma_only_source_ok<C: CollisionStrategy>(
        pf: &PathFinder,
        flags: &CollisionFlagMap,
        c: &C,
        y: int,
        bx: int,
        bz: int,
        size: int,
    )
        requires
            pf.only_source(),
        ensures
            pf.search_ok(flags, c, y, bx, bz, size),
    {
        let src = grid_index(64, 64);
        lemma_slot_round_trip(64, 64);
        assert forall|i: int| 0 <= i < MAP_SIZE && #[trigger] pf.seen(i) implies i == src by {
            if i != src {
                assert(pf.generations@[i] < pf.generation);
            }
        }
        assert forall|i: int|
            #![trigger pf.generations@[i]]
            #![trigger pf.visited@.contains(i)]
            0 <= i < MAP_SIZE implies (pf.visited@.contains(i) <==> pf.generations@[i] == pf.generation) by {
            if i != src {
                assert(pf.generations@[i] < pf.generation);
            }
        }
        assert forall|tx: int, tz: int| #[trigger] pf.linked(flags, c, y, bx, bz, size, tx, tz) by {
            if in_grid(tx, tz) && pf.seen(grid_index(tx, tz)) {
                assert(grid_index(tx, tz) == src);
            }
        }
        assert forall|sl: int| 0 <= sl < 16384 && sl < pf.visited@.len() implies #[trigger] pf.slot_ok(
            pf.valid_local@[sl],
        ) by {
            assert(sl == 0);
        }
        assert forall|i: int| #[trigger] pf.visited@.contains(i) implies exists|k: int|
            0 <= k < pf.order@.len() && i == grid_index(
                (#[trigger] pf.order@[k]).0,
                pf.order@[k].1,
            ) by {
            assert(pf.order@[0] == (64int, 64int));
        }
    }


    /// Queueing a new tile one step past the tile last read keeps the
    /// breadth-first order.
    proof fn lemma_append_keeps_bfs<C: CollisionStrategy>(
        pre: &PathFinder,
        post: &PathFinder,
        flags: &CollisionFlagMap,
        c: &C,
        y: int,
        bx: int,
        bz: int,
        size: int,
        reach: spec_fn(int, int) -> bool,
        t: (int, int),
    )
        requires
            pre.search_ok(flags, c, y, bx, bz, size),
            !pre.overran@,
            !post.overran@,
            pre.reads@ >= 1,
            pre.bfs_ok(flags, c, y, bx, bz, size, reach, pre.reads@ - 1),
            in_grid(t.0, t.1),
            !pre.seen(grid_index(t.0, t.1)),
            post.order@ == pre.order@.push(t),
            post.reads == pre.reads,
            post.generation == pre.generation,
            post.generations@ == pre.generations@.update(grid_index(t.0, t.1), pre.generation),
            post.distances@ == pre.distances@.update(
                grid_index(t.0, t.1),
                post.distances@[grid_index(t.0, t.1)],
            ),
            post.dist_at(t) == pre.dist_at(pre.order@[pre.reads@ - 1]) + 1,
            post.valid_local@ == pre.valid_local@.update(
                pre.buf_writer_index as int,
                ((t.0 as u32) | ((t.1 as u32) << 16u32)),
            ),
            post.order@.len() - post.reads@ < 16384,
            size >= 1,
        ensures
            post.bfs_ok(flags, c, y, bx, bz, size, reach, pre.reads@ - 1),
    {
        let w = pre.order@.len() as int;
        let r = pre.reads@ as int;
        let ti = grid_index(t.0, t.1);
        lemma_slot_round_trip(t.0 as u32, t.1 as u32);
        assert(pre.buf_writer_index == w % 16384);
        assert forall|k: int| 0 <= k < w implies pre.seen(
            grid_index((#[trigger] pre.order@[k]).0, pre.order@[k].1),
        ) && grid_index(pre.order@[k].0, pre.order@[k].1) != ti by {
            assert(pre.visited@.contains(grid_index(pre.order@[k].0, pre.order@[k].1)));
        }
        assert forall|k: int| r <= k < w + 1 implies (
            slot_x(post.valid_local@[k % 16384]),
            slot_z(post.valid_local@[k % 16384]),
        ) == #[trigger] post.order@[k] by {
            if k < w {
                assert(k % 16384 != w % 16384) by {
                    assert(0 < w - k < 16384);
                    vstd::arithmetic::div_mod::lemma_fundamental_div_mod(k, 16384);
                    vstd::arithmetic::div_mod::lemma_fundamental_div_mod(w, 16384);
                    if k % 16384 == w % 16384 {
                        assert(w - k == 16384 * (w / 16384 - k / 16384)) by (nonlinear_arith)
                            requires
                                k == 16384 * (k / 16384) + k % 16384,
                                w == 16384 * (w / 16384) + w % 16384,
                                k % 16384 == w % 16384,
                        ;
                        assert(false) by (nonlinear_arith)
                            requires
                                w - k == 16384 * (w / 16384 - k / 16384),
                                0 < w - k < 16384,
                        ;
                    }
                }
                assert(post.order@[k] == pre.order@[k]);
            } else {
                assert(k == w);
            }
        }
        assert forall|k1: int, k2: int| 0 <= k1 <= k2 < w + 1 implies post.dist_at(
            #[trigger] post.order@[k1],
        ) <= post.dist_at(#[trigger] post.order@[k2]) by {
            if k2 < w {
                assert(post.order@[k1] == pre.order@[k1]);
                assert(post.order@[k2] == pre.order@[k2]);
                assert(pre.dist_at(pre.order@[k1]) <= pre.dist_at(pre.order@[k2]));
            } else if k1 < w {
                assert(post.order@[k1] == pre.order@[k1]);
                assert(pre.dist_at(pre.order@[k1]) <= pre.dist_at(pre.order@[r - 1]) + 1);
            }
        }
        assert forall|k: int| 0 <= k < w + 1 implies post.dist_at(#[trigger] post.order@[k]) <= post.dist_at(
            post.order@[r - 1],
        ) + 1 by {
            assert(post.order@[r - 1] == pre.order@[r - 1]);
            if k < w {
                assert(post.order@[k] == pre.order@[k]);
            }
        }
        assert forall|k: int| 0 <= k < r - 1 implies !reach((#[trigger] post.order@[k]).0, post.order@[k].1) by {
            assert(post.order@[k] == pre.order@[k]);
        }
        assert forall|k: int, b: (int, int)|
            0 <= k < r - 1 && #[trigger] window_step(flags, c, y, bx, bz, size, post.order@[k], b)
            implies post.seen(grid_index(b.0, b.1)) && post.dist_at(b) <= post.dist_at(post.order@[k]) + 1 by {
            assert(post.order@[k] == pre.order@[k]);
            assert(in_grid(b.0, b.1));
            assert(pre.seen(grid_index(b.0, b.1)));
            assert(grid_index(b.0, b.1) != ti);
            assert(pre.seen(grid_index(pre.order@[k].0, pre.order@[k].1)));
        }
    }


    /// Reading the next queued tile keeps the search invariants, and the tile
    /// read is the next one in the ghost order.
    proof fn lemma_read_keeps_search<C: CollisionStrategy>(
        pre: &PathFinder,
        post: &PathFinder,
        flags: &CollisionFlagMap,
        c: &C,
        y: int,
        bx: int,
        bz: int,
        size: int,
        reach: spec_fn(int, int) -> bool,
    )
        requires
            pre.search_ok(flags, c, y, bx, bz, size),
            pre.bfs_ok(flags, c, y, bx, bz, size, reach, pre.reads@ as int),
            pre.reads@ == 0 ==> pre.valid_local@[0] == (64u32 | (64u32 << 16u32))
                && pre.visited@.len() == 1 && pre.order@ == seq![(64int, 64int)],
            pre.reads@ < pre.visited@.len(),
            post.directions == pre.directions,
            post.distances == pre.distances,
            post.generations == pre.generations,
            post.generation == pre.generation,
            post.valid_local == pre.valid_local,
            post.buf_writer_index == pre.buf_writer_index,
            post.visited == pre.visited,
            post.order == pre.order,
            post.overran == pre.overran,
            post.reads@ == pre.reads@ + 1,
            post.buf_reader_index == post.reads@ % 16384,
            pre.buf_reader_index == pre.reads@ % 16384,
            post.curr_local_x as int == slot_x(pre.valid_local@[pre.buf_reader_index as int]),
            post.curr_local_z as int == slot_z(pre.valid_local@[pre.buf_reader_index as int]),
        ensures
            post.search_ok(flags, c, y, bx, bz, size),
            post.bfs_ok(flags, c, y, bx, bz, size, reach, post.reads@ - 1),
            in_grid(post.curr_local_x as int, post.curr_local_z as int),
            post.seen(grid_index(post.curr_local_x as int, post.curr_local_z as int)),
            !post.overran@ ==> post.order@[post.reads@ - 1] == (
                post.curr_local_x as int,
                post.curr_local_z as int,
            ),
            pre.reads@ == 0 ==> post.curr_local_x == 64 && post.curr_local_z == 64,
    {
        let slot = pre.buf_reader_index as int;
        let w = pre.visited@.len();
        assert(slot < w) by {
            if pre.reads@ >= 16384 {
                assert(slot < 16384);
            }
        }
        assert(pre.slot_ok(pre.valid_local@[slot]));
        if pre.reads@ == 0 {
            lemma_slot_round_trip(64, 64);
        }
        assert forall|sl: int| 0 <= sl < 16384 && sl < post.visited@.len() implies #[trigger] post.slot_ok(
            post.valid_local@[sl],
        ) by {
            assert(pre.slot_ok(pre.valid_local@[sl]));
        }
        assert forall|i: int| 0 <= i < MAP_SIZE && #[trigger] post.seen(i) && post.distances@[i] == 0 implies i
            == grid_index(64, 64) by {
            assert(pre.seen(i));
        }
        assert forall|tx: int, tz: int| #[trigger] post.linked(flags, c, y, bx, bz, size, tx, tz) by {
            assert(pre.linked(flags, c, y, bx, bz, size, tx, tz));
        }
        assert forall|i: int| #[trigger] post.visited@.contains(i) implies exists|k: int|
            0 <= k < post.order@.len() && i == grid_index(
                (#[trigger] post.order@[k]).0,
                post.order@[k].1,
            ) by {
            assert(pre.visited@.contains(i));
        }
        if !post.overran@ {
            let r = post.reads@ as int;
            assert(post.order@[r - 1] == (post.curr_local_x as int, post.curr_local_z as int));
            assert forall|k: int| 0 <= k < post.order@.len() implies post.dist_at(
                #[trigger] post.order@[k],
            ) <= post.dist_at(post.order@[r - 1]) + 1 by {
                if pre.reads@ >= 1 {
                    assert(pre.dist_at(pre.order@[k]) <= pre.dist_at(pre.order@[r - 2]) + 1);
                    assert(pre.dist_at(pre.order@[r - 2]) <= pre.dist_at(pre.order@[r - 1]));
                }
            }
        }
    }

    /// Search steps from the tiles read so far reach every tile of a search
    /// route whose distances stay below `limit`, at no more steps than the
    /// route takes.
    proof fn lemma_route_reached<C: CollisionStrategy>(
        pf: &PathFinder,
        flags: &CollisionFlagMap,
        c: &C,
        y: int,
        bx: int,
        bz: int,
        size: int,
        reach: spec_fn(int, int) -> bool,
        done: int,
        limit: int,
        route: Seq<(int, int)>,
        j: int,
    )
        requires
            pf.search_ok(flags, c, y, bx, bz, size),
            !pf.overran@,
            pf.bfs_ok(flags, c, y, bx, bz, size, reach, done),
            size >= 1,
            window_route(flags, c, y, bx, bz, size, route),
            0 <= j < route.len(),
            j <= limit,
            forall|k: int|
                0 <= k < pf.order@.len() && pf.dist_at(#[trigger] pf.order@[k]) < limit ==> k < done,
        ensures
            in_grid(route[j].0, route[j].1),
            pf.seen(grid_index(route[j].0, route[j].1)),
            pf.dist_at(route[j]) <= j,
        decreases j,
    {
        if j == 0 {
            assert(route[0] == (64int, 64int));
        } else {
            Self::lemma_route_reached(pf, flags, c, y, bx, bz, size, reach, done, limit, route, j - 1);
            let a = route[j - 1];
            let b = route[j];
            assert(window_step_at(flags, c, y, bx, bz, size, route, j - 1));
            assert(pf.visited@.contains(grid_index(a.0, a.1)));
            let k = choose|k: int|
                0 <= k < pf.order@.len() && grid_index(a.0, a.1) == grid_index(
                    (#[trigger] pf.order@[k]).0,
                    pf.order@[k].1,
                );
            assert(in_grid(pf.order@[k].0, pf.order@[k].1));
            assert(pf.order@[k] == a);
            assert(k < done);
            assert(window_step(flags, c, y, bx, bz, size, pf.order@[k], b));
        }
    }

    /// When the search reads a tile that reaches the destination, no search
    /// route reaches it in fewer steps than that tile's distance.
    proof fn lemma_found_is_nearest<C: CollisionStrategy>(
        pf: &PathFinder,
        flags: &CollisionFlagMap,
        c: &C,
        y: int,
        bx: int,
        bz: int,
        size: int,
        reach: spec_fn(int, int) -> bool,
    )
        requires
            pf.search_ok(flags, c, y, bx, bz, size),
            !pf.overran@,
            pf.reads@ >= 1,
            pf.bfs_ok(flags, c, y, bx, bz, size, reach, pf.reads@ - 1),
            pf.order@[pf.reads@ - 1] == (pf.curr_local_x as int, pf.curr_local_z as int),
            size >= 1,
        ensures
            forall|route: Seq<(int, int)>|
                window_route(flags, c, y, bx, bz, size, route) && #[trigger] reach(
                    route.last().0,
                    route.last().1,
                ) ==> route.len() - 1 >= pf.dist_at(
                    (pf.curr_local_x as int, pf.curr_local_z as int),
                ),
    {
        let f = pf.reads@ - 1;
        let d = pf.dist_at(pf.order@[f]);
        assert forall|k: int| 0 <= k < pf.order@.len() && pf.dist_at(#[trigger] pf.order@[k]) < d implies k < f by {
            if k >= f {
                assert(pf.dist_at(pf.order@[f]) <= pf.dist_at(pf.order@[k]));
            }
        }
        assert forall|route: Seq<(int, int)>|
            window_route(flags, c, y, bx, bz, size, route) && #[trigger] reach(
                route.last().0,
                route.last().1,
            ) implies route.len() - 1 >= d by {
            if route.len() - 1 < d {
                let j = route.len() - 1;
                Self::lemma_route_reached(pf, flags, c, y, bx, bz, size, reach, f, d, route, j);
                let u = route[j];
                assert(pf.visited@.contains(grid_index(u.0, u.1)));
                let k = choose|k: int|
                    0 <= k < pf.order@.len() && grid_index(u.0, u.1) == grid_index(
                        (#[trigger] pf.order@[k]).0,
                        pf.order@[k].1,
                    );
                assert(in_grid(pf.order@[k].0, pf.order@[k].1));
                assert(pf.order@[k] == u);
                assert(k < f);
                assert(!reach(pf.order@[k].0, pf.order@[k].1));
            }
        }
    }

    /// When every queued tile has been read without reaching the destination,
    /// no search route reaches it.
    proof fn lemma_no_route_reaches<C: CollisionStrategy>(
        pf: &PathFinder,
        flags: &CollisionFlagMap,
        c: &C,
        y: int,
        bx: int,
        bz: int,
        size: int,
        reach: spec_fn(int, int) -> bool,
    )
        requires
            pf.search_ok(flags, c, y, bx, bz, size),
            !pf.overran@,
            pf.bfs_ok(flags, c, y, bx, bz, size, reach, pf.reads@ as int),
            pf.order@.len() == pf.reads@,
            size >= 1,
        ensures
            forall|route: Seq<(int, int)>|
                window_route(flags, c, y, bx, bz, size, route) ==> !#[trigger] reach(
                    route.last().0,
                    route.last().1,
                ),
            forall|route: Seq<(int, int)>|
                #[trigger] window_route(flags, c, y, bx, bz, size, route) ==> in_grid(
                    route.last().0,
                    route.last().1,
                ) && pf.seen(grid_index(route.last().0, route.last().1)) && pf.dist_at(route.last())
                    <= route.len() - 1,
    {
        assert forall|route: Seq<(int, int)>|
            #[trigger] window_route(flags, c, y, bx, bz, size, route) implies in_grid(
                route.last().0,
                route.last().1,
            ) && pf.seen(grid_index(route.last().0, route.last().1)) && pf.dist_at(route.last())
                <= route.len() - 1 by {
            let j = route.len() - 1;
            Self::lemma_route_reached(pf, flags, c, y, bx, bz, size, reach, pf.reads@ as int, route.len() as int, route, j);
        }
        assert forall|route: Seq<(int, int)>|
            window_route(flags, c, y, bx, bz, size, route) implies !#[trigger] reach(
                route.last().0,
                route.last().1,
            ) by {
            let j = route.len() - 1;
            Self::lemma_route_reached(pf, flags, c, y, bx, bz, size, reach, pf.reads@ as int, route.len() as int, route, j);
            let u = route[j];
            assert(pf.visited@.contains(grid_index(u.0, u.1)));
            let k = choose|k: int|
                0 <= k < pf.order@.len() && grid_index(u.0, u.1) == grid_index(
                    (#[trigger] pf.order@[k]).0,
                    pf.order@[k].1,
                );
            assert(in_grid(pf.order@[k].0, pf.order@[k].1));
            assert(pf.order@[k] == u);
        }
    }

    /// Once the eight neighbours of the tile last read are done, that tile
    /// counts as explored.
    proof fn lemma_expanded<C: CollisionStrategy>(
        pf: &PathFinder,
        flags: &CollisionFlagMap,
        c: &C,
        y: int,
        bx: int,
        bz: int,
        size: int,
        reach: spec_fn(int, int) -> bool,
        steps: Seq<(i8, i8, i8)>,
    )
        requires
            pf.search_ok(flags, c, y, bx, bz, size),
            pf.reads@ >= 1,
            pf.bfs_ok(flags, c, y, bx, bz, size, reach, pf.reads@ - 1),
            !pf.overran@ ==> pf.order@[pf.reads@ - 1] == (
                pf.curr_local_x as int,
                pf.curr_local_z as int,
            ),
            !reach(pf.curr_local_x as int, pf.curr_local_z as int),
            steps == seq![
                (-1i8, 0i8, direction_flag::EAST),
                (1i8, 0i8, direction_flag::WEST),
                (0i8, -1i8, direction_flag::NORTH),
                (0i8, 1i8, direction_flag::SOUTH),
                (-1i8, -1i8, direction_flag::NORTH_EAST),
                (1i8, -1i8, direction_flag::NORTH_WEST),
                (-1i8, 1i8, direction_flag::SOUTH_EAST),
                (1i8, 1i8, direction_flag::SOUTH_WEST),
            ],
            forall|j: int|
                0 <= j < 8 && !pf.overran@ && window_step(
                    flags,
                    c,
                    y,
                    bx,
                    bz,
                    size,
                    (pf.curr_local_x as int, pf.curr_local_z as int),
                    (pf.curr_local_x + steps[j].0, pf.curr_local_z + steps[j].1),
                ) ==> pf.seen(grid_index(pf.curr_local_x + steps[j].0, pf.curr_local_z + steps[j].1))
                    && pf.dist_at((pf.curr_local_x + steps[j].0, pf.curr_local_z + steps[j].1))
                    <= pf.dist_at((pf.curr_local_x as int, pf.curr_local_z as int)) + 1,
        ensures
            pf.bfs_ok(flags, c, y, bx, bz, size, reach, pf.reads@ as int),
    {
        if !pf.overran@ {
            let r = pf.reads@ as int;
            let cur = (pf.curr_local_x as int, pf.curr_local_z as int);
            assert forall|k: int| 0 <= k < r implies !reach((#[trigger] pf.order@[k]).0, pf.order@[k].1) by {
                if k < r - 1 {
                }
            }
            assert forall|k: int, b: (int, int)|
                0 <= k < r && #[trigger] window_step(flags, c, y, bx, bz, size, pf.order@[k], b)
                implies pf.seen(grid_index(b.0, b.1)) && pf.dist_at(b) <= pf.dist_at(pf.order@[k]) + 1 by {
                if k == r - 1 {
                    let dx = b.0 - cur.0;
                    let dz = b.1 - cur.1;
                    let j: int = if dx == -1 && dz == 0 {
                        0
                    } else if dx == 1 && dz == 0 {
                        1
                    } else if dx == 0 && dz == -1 {
                        2
                    } else if dx == 0 && dz == 1 {
                        3
                    } else if dx == -1 && dz == -1 {
                        4
                    } else if dx == 1 && dz == -1 {
                        5
                    } else if dx == -1 && dz == 1 {
                        6
                    } else {
                        7
                    };
                    assert(b == (cur.0 + steps[j].0, cur.1 + steps[j].1));
                }
            }
        }
    }


    /// Queues the neighbours of the tile last read, in the order west, east,
    /// south, north, south-west, south-east, north-west, north-east.
    #[verifier::rlimit(40)]
    fn expand_neighbours<C: CollisionStrategy>(
        &mut self,
        flags: &CollisionFlagMap,
        collision: &C,
        y: i32,
        base_x: i32,
        base_z: i32,
        size: u8,
        next_distance: i32,
        reach: Ghost<spec_fn(int, int) -> bool>,
    )
        requires
            old(self).firsts_ok(flags, collision, y as int, base_x as int, base_z as int, size as int),
            old(self).search_ok(flags, collision, y as int, base_x as int, base_z as int, size as int),
            old(self).bfs_ok(
                flags,
                collision,
                y as int,
                base_x as int,
                base_z as int,
                size as int,
                reach@,
                old(self).reads@ - 1,
            ),
            old(self).reads@ >= 1,
            in_grid(old(self).curr_local_x as int, old(self).curr_local_z as int),
            old(self).seen(grid_index(old(self).curr_local_x as int, old(self).curr_local_z as int)),
            next_distance == old(self).dist_at(
                (old(self).curr_local_x as int, old(self).curr_local_z as int),
            ) + 1,
            !old(self).overran@ ==> old(self).order@[old(self).reads@ - 1] == (
                old(self).curr_local_x as int,
                old(self).curr_local_z as int,
            ),
            !reach@(old(self).curr_local_x as int, old(self).curr_local_z as int),
            within_world(base_x as int),
            within_world(base_z as int),
            within_world(base_x + 128),
            within_world(base_z + 128),
            size >= 1,
        ensures
            final(self).overran@ == old(self).overran@,
            old(self).overran@ ==> final(self).overran@,
            final(self).firsts_ok(flags, collision, y as int, base_x as int, base_z as int, size as int),
            final(self).order@ == old(self).order@ + old(self).queued_from(
                flags,
                collision,
                y as int,
                base_x as int,
                base_z as int,
                size as int,
                8,
            ),
            final(self).search_ok(flags, collision, y as int, base_x as int, base_z as int, size as int),
            final(self).bfs_ok(
                flags,
                collision,
                y as int,
                base_x as int,
                base_z as int,
                size as int,
                reach@,
                old(self).reads@ as int,
            ),
            final(self).reads == old(self).reads,
            final(self).buf_reader_index == old(self).buf_reader_index,
            final(self).curr_local_x == old(self).curr_local_x,
            final(self).curr_local_z == old(self).curr_local_z,
    {
        let cx: i32 = self.curr_local_x;
        let cz: i32 = self.curr_local_z;
        let ghost reach: spec_fn(int, int) -> bool = reach@;
        let steps: [(i8, i8, i8); 8] = [
            (-1, 0, direction_flag::EAST),
            (1, 0, direction_flag::WEST),
            (0, -1, direction_flag::NORTH),
            (0, 1, direction_flag::SOUTH),
            (-1, -1, direction_flag::NORTH_EAST),
            (1, -1, direction_flag::NORTH_WEST),
            (-1, 1, direction_flag::SOUTH_EAST),
            (1, 1, direction_flag::SOUTH_WEST),
        ];
        let ghost mid: PathFinder = *self;
        let mut i: usize = 0;
        while i < 8
            invariant
                0 <= i <= 8,
                steps@ == seq![
                    (-1i8, 0i8, direction_flag::EAST),
                    (1i8, 0i8, direction_flag::WEST),
                    (0i8, -1i8, direction_flag::NORTH),
                    (0i8, 1i8, direction_flag::SOUTH),
                    (-1i8, -1i8, direction_flag::NORTH_EAST),
                    (1i8, -1i8, direction_flag::NORTH_WEST),
                    (-1i8, 1i8, direction_flag::SOUTH_EAST),
                    (1i8, 1i8, direction_flag::SOUTH_WEST),
                ],
                self.search_ok(flags, collision, y as int, base_x as int, base_z as int, size as int),
                self.bfs_ok(
                    flags,
                    collision,
                    y as int,
                    base_x as int,
                    base_z as int,
                    size as int,
                    reach,
                    self.reads@ - 1,
                ),
                self.reads == mid.reads,
                self.reads@ >= 1,
                self.curr_local_x == cx,
                self.curr_local_z == cz,
                in_grid(cx as int, cz as int),
                self.seen(grid_index(cx as int, cz as int)),
                next_distance == self.dist_at((cx as int, cz as int)) + 1,
                self.overran@ == false ==> self.order@[self.reads@ - 1] == (cx as int, cz as int),
                !reach(cx as int, cz as int),
                self.order@ == mid.order@ + mid.queued_from(
                    flags,
                    collision,
                    y as int,
                    base_x as int,
                    base_z as int,
                    size as int,
                    i as int,
                ),
                self.generation == mid.generation,
                forall|m: int|
                    #![trigger self.generations@[m]]
                    0 <= m < MAP_SIZE && self.generations@[m] != mid.generations@[m] ==> exists|j: int|
                        0 <= j < i && m == grid_index(cx + steps@[j].0, cz + steps@[j].1)
                            && in_grid(cx + steps@[j].0, cz + steps@[j].1),
                mid.curr_local_x == cx,
                mid.curr_local_z == cz,
                self.firsts_ok(flags, collision, y as int, base_x as int, base_z as int, size as int),
                self.overran@ == mid.overran@,
                mid.overran@ ==> self.overran@,
                forall|j: int|
                    0 <= j < i && !self.overran@ && window_step(
                        flags,
                        collision,
                        y as int,
                        base_x as int,
                        base_z as int,
                        size as int,
                        (cx as int, cz as int),
                        (cx + steps@[j].0, cz + steps@[j].1),
                    ) ==> self.seen(grid_index(cx + steps@[j].0, cz + steps@[j].1))
                        && self.dist_at((cx + steps@[j].0, cz + steps@[j].1)) <= self.dist_at(
                        (cx as int, cz as int),
                    ) + 1,
                within_world(base_x as int),
                within_world(base_z as int),
                within_world(base_x + 128),
                within_world(base_z + 128),
                size >= 1,
            decreases 8 - i,
        {
            let (dx, dz, direction): (i8, i8, i8) = steps[i];
            let ghost before: PathFinder = *self;
            proof {
                let n = (cx + dx, cz + dz);
                assert((dx as int, dz as int) == expansion_step(i as int));
                if in_grid(n.0, n.1) && before.generations@[grid_index(n.0, n.1)]
                    != mid.generations@[grid_index(n.0, n.1)] {
                    let j = choose|j: int|
                        0 <= j < i && grid_index(n.0, n.1) == grid_index(cx + steps@[j].0, cz + steps@[j].1)
                            && in_grid(cx + steps@[j].0, cz + steps@[j].1);
                    assert(false);
                }
                assert(before.queues(
                    flags,
                    collision,
                    y as int,
                    base_x as int,
                    base_z as int,
                    size as int,
                    n,
                ) == mid.queues(
                    flags,
                    collision,
                    y as int,
                    base_x as int,
                    base_z as int,
                    size as int,
                    n,
                ));
            }
            self.expand(
                flags,
                collision,
                y,
                base_x,
                base_z,
                size,
                dx,
                dz,
                direction,
                next_distance,
                Ghost(reach),
            );
            proof {
                let n = (cx + dx as int, cz + dz as int);
                let q = mid.queued_from(
                    flags,
                    collision,
                    y as int,
                    base_x as int,
                    base_z as int,
                    size as int,
                    i as int,
                );
                let tail = if mid.queues(
                    flags,
                    collision,
                    y as int,
                    base_x as int,
                    base_z as int,
                    size as int,
                    n,
                ) {
                    seq![n]
                } else {
                    Seq::empty()
                };
                assert(mid.queued_from(
                    flags,
                    collision,
                    y as int,
                    base_x as int,
                    base_z as int,
                    size as int,
                    i as int + 1,
                ) == q + tail);
                assert(self.order@ =~= mid.order@ + (q + tail));
            }
            proof {
                assert(self.order@[self.reads@ - 1] == before.order@[self.reads@ - 1] || self.overran@);
                assert forall|j: int|
                    0 <= j < i + 1 && !self.overran@ && window_step(
                        flags,
                        collision,
                        y as int,
                        base_x as int,
                        base_z as int,
                        size as int,
                        (cx as int, cz as int),
                        (cx + steps@[j].0, cz + steps@[j].1),
                    ) implies self.seen(grid_index(cx + steps@[j].0, cz + steps@[j].1))
                    && self.dist_at((cx + steps@[j].0, cz + steps@[j].1)) <= self.dist_at(
                    (cx as int, cz as int),
                ) + 1 by {
                    if j < i {
                        assert(before.seen(grid_index(cx + steps@[j].0, cz + steps@[j].1)));
                    }
                }
            }
            i = i + 1;
        }
        proof {
            Self::lemma_expanded(self, flags, collision, y as int, base_x as int, base_z as int, size as int, reach, steps@);
        }
    }



    /// The neighbours the current tile queues are those of the breadth-first
    /// queue's expansion of it: the reached tiles are exactly the queued ones.
    proof fn lemma_queued_is_fresh<C: CollisionStrategy>(
        pf: &PathFinder,
        flags: &CollisionFlagMap,
        c: &C,
        y: int,
        bx: int,
        bz: int,
        size: int,
        j: int,
    )
        requires
            pf.search_ok(flags, c, y, bx, bz, size),
            size >= 1,
            0 <= j <= 8,
        ensures
            pf.queued_from(flags, c, y, bx, bz, size, j) == fresh_neighbours(
                flags,
                c,
                y,
                bx,
                bz,
                size,
                pf.order@,
                (pf.curr_local_x as int, pf.curr_local_z as int),
                j,
            ),
        decreases j,
    {
        if j > 0 {
            Self::lemma_queued_is_fresh(pf, flags, c, y, bx, bz, size, j - 1);
            let t = (pf.curr_local_x as int, pf.curr_local_z as int);
            let n = (t.0 + expansion_step(j - 1).0, t.1 + expansion_step(j - 1).1);
            if window_step(flags, c, y, bx, bz, size, t, n) {
                lemma_only_unit_steps(flags, c, y, bx + t.0, bz + t.1, n.0 - t.0, n.1 - t.1, size, 0);
                assert(in_grid(n.0, n.1));
                let ni = grid_index(n.0, n.1);
                if pf.order@.contains(n) {
                    let k = choose|k: int| 0 <= k < pf.order@.len() && pf.order@[k] == n;
                    assert(in_grid(pf.order@[k].0, pf.order@[k].1));
                    assert(pf.visited@.contains(ni));
                }
                if pf.seen(ni) {
                    assert(pf.visited@.contains(ni));
                    let k = choose|k: int|
                        0 <= k < pf.order@.len() && ni == grid_index(
                            (#[trigger] pf.order@[k]).0,
                            pf.order@[k].1,
                        );
                    assert(in_grid(pf.order@[k].0, pf.order@[k].1));
                    assert(pf.order@[k] == n);
                }
                assert(pf.queues(flags, c, y, bx, bz, size, n) == !pf.order@.contains(n));
            }
        }
    }




    /// After an exhaustive search, the approach point picked among the
    /// reached tiles is the closest of the ends of all search routes.
    proof fn lemma_approach_is_closest<C: CollisionStrategy>(
        pre: &PathFinder,
        post: &PathFinder,
        flags: &CollisionFlagMap,
        c: &C,
        y: int,
        bx: int,
        bz: int,
        size: u8,
        ldx: int,
        ldz: int,
        width: u8,
        height: u8,
        route: Seq<(int, int)>,
    )
        requires
            forall|l: Seq<(int, int)>|
                #[trigger] window_route(flags, c, y, bx, bz, size as int, l) ==> in_grid(
                    l.last().0,
                    l.last().1,
                ) && pre.seen(grid_index(l.last().0, l.last().1)) && pre.dist_at(l.last()) <= l.len()
                    - 1,
            forall|x: int, z: int|
                #[trigger] pre.approach_candidate(x, z, ldx, ldz) ==> post.no_better(
                    post.curr_local_x as int,
                    post.curr_local_z as int,
                    x,
                    z,
                    ldx,
                    ldz,
                    width,
                    height,
                ),
            post.distances == pre.distances,
            route.last() == (bx + post.curr_local_x, bz + post.curr_local_z),
            route.len() == post.distances@[grid_index(
                post.curr_local_x as int,
                post.curr_local_z as int,
            )] + 1,
        ensures
            no_closer_approach(flags, c, y, bx + 64, bz + 64, bx + ldx, bz + ldz, size, width, height, route),
    {
        assert forall|other: Seq<(int, int)>|
            search_route(flags, c, y, bx + 64, bz + 64, size as int, other) && other.len() <= 100
                && #[trigger] near_destination(
                other.last().0,
                other.last().1,
                bx + ldx,
                bz + ldz,
            ) implies {
            let mine = approach_cost(route.last().0, route.last().1, bx + ldx, bz + ldz, width, height);
            let theirs = approach_cost(other.last().0, other.last().1, bx + ldx, bz + ldz, width, height);
            mine < theirs || (mine == theirs && (route.len() < other.len() || (route.len()
                == other.len() && (route.last().0 < other.last().0 || (route.last().0
                == other.last().0 && route.last().1 <= other.last().1)))))
        } by {
            Self::lemma_route_to_local(flags, c, y, bx + 64, bz + 64, size as int, other);
            let l = to_local(other, bx + 64, bz + 64);
            assert(window_route(flags, c, y, bx, bz, size as int, l));
            let t = l.last();
            assert(pre.approach_candidate(t.0, t.1, ldx, ldz));
            let cx = post.curr_local_x as int;
            let cz = post.curr_local_z as int;
            assert(approach_cost(route.last().0, route.last().1, bx + ldx, bz + ldz, width, height)
                == approach_cost(cx, cz, ldx, ldz, width, height));
            assert(approach_cost(other.last().0, other.last().1, bx + ldx, bz + ldz, width, height)
                == approach_cost(t.0, t.1, ldx, ldz, width, height));
        }
    }

    /// After an exhaustive search that left no approach candidate, no search
    /// route ends near the destination.
    proof fn lemma_no_approach<C: CollisionStrategy>(
        pre: &PathFinder,
        flags: &CollisionFlagMap,
        c: &C,
        y: int,
        bx: int,
        bz: int,
        size: u8,
        ldx: int,
        ldz: int,
    )
        requires
            forall|l: Seq<(int, int)>|
                #[trigger] window_route(flags, c, y, bx, bz, size as int, l) ==> in_grid(
                    l.last().0,
                    l.last().1,
                ) && pre.seen(grid_index(l.last().0, l.last().1)) && pre.dist_at(l.last()) <= l.len()
                    - 1,
            !exists|x: int, z: int| #[trigger] pre.approach_candidate(x, z, ldx, ldz),
        ensures
            no_approach_route(flags, c, y, bx + 64, bz + 64, bx + ldx, bz + ldz, size),
    {
        assert forall|other: Seq<(int, int)>|
            search_route(flags, c, y, bx + 64, bz + 64, size as int, other) && other.len() <= 100
                implies !#[trigger] near_destination(other.last().0, other.last().1, bx + ldx, bz + ldz) by {
            Self::lemma_route_to_local(flags, c, y, bx + 64, bz + 64, size as int, other);
            let l = to_local(other, bx + 64, bz + 64);
            assert(window_route(flags, c, y, bx, bz, size as int, l));
            let t = l.last();
            if near_destination(other.last().0, other.last().1, bx + ldx, bz + ldz) {
                assert(pre.approach_candidate(t.0, t.1, ldx, ldz));
            }
        }
    }

    proof fn lemma_route_to_local<C: CollisionStrategy>(
        flags: &CollisionFlagMap,
        c: &C,
        y: int,
        src_x: int,
        src_z: int,
        size: int,
        route: Seq<(int, int)>,
    )
        requires
            search_route(flags, c, y, src_x, src_z, size, route),
        ensures
            window_route(flags, c, y, src_x - 64, src_z - 64, size, to_local(route, src_x, src_z)),
            to_local(route, src_x, src_z).len() == route.len(),
            to_local(route, src_x, src_z).last() == (
                route.last().0 - (src_x - 64),
                route.last().1 - (src_z - 64),
            ),
    {
    }

    /// What the search shows of the window carries over to routes in world
    /// tiles: when no search route in local tiles reaches the destination,
    /// none in world tiles does.
    proof fn lemma_no_world_route<C: CollisionStrategy>(
        flags: &CollisionFlagMap,
        c: &C,
        y: int,
        src_x: int,
        src_z: int,
        dest_x: int,
        dest_z: int,
        src_size: u8,
        dest_width: u8,
        dest_height: u8,
        angle: u8,
        shape: i8,
        block_access_flags: u8,
    )
        requires
            forall|route: Seq<(int, int)>|
                window_route(flags, c, y, src_x - 64, src_z - 64, src_size as int, route)
                    ==> !#[trigger] local_reach(
                    flags,
                    y,
                    src_x - 64,
                    src_z - 64,
                    dest_x - (src_x - 64),
                    dest_z - (src_z - 64),
                    dest_width,
                    dest_height,
                    src_size,
                    angle,
                    shape,
                    block_access_flags,
                    route.last(),
                ),
        ensures
            forall|other: Seq<(int, int)>|
                search_route(flags, c, y, src_x, src_z, src_size as int, other) ==> !#[trigger] reach_result(
                    flags,
                    y,
                    other.last().0,
                    other.last().1,
                    dest_x,
                    dest_z,
                    dest_width,
                    dest_height,
                    src_size,
                    angle,
                    shape,
                    block_access_flags,
                ),
    {
        assert forall|other: Seq<(int, int)>|
            search_route(flags, c, y, src_x, src_z, src_size as int, other) implies !#[trigger] reach_result(
                flags,
                y,
                other.last().0,
                other.last().1,
                dest_x,
                dest_z,
                dest_width,
                dest_height,
                src_size,
                angle,
                shape,
                block_access_flags,
            ) by {
            Self::lemma_route_to_local(flags, c, y, src_x, src_z, src_size as int, other);
            let l = to_local(other, src_x, src_z);
            assert(!local_reach(
                flags,
                y,
                src_x - 64,
                src_z - 64,
                dest_x - (src_x - 64),
                dest_z - (src_z - 64),
                dest_width,
                dest_height,
                src_size,
                angle,
                shape,
                block_access_flags,
                l.last(),
            ));
        }
    }

    /// Likewise for the length of the shortest route.
    proof fn lemma_world_nearest<C: CollisionStrategy>(
        flags: &CollisionFlagMap,
        c: &C,
        y: int,
        src_x: int,
        src_z: int,
        dest_x: int,
        dest_z: int,
        src_size: u8,
        dest_width: u8,
        dest_height: u8,
        angle: u8,
        shape: i8,
        block_access_flags: u8,
        d: int,
    )
        requires
            forall|route: Seq<(int, int)>|
                window_route(flags, c, y, src_x - 64, src_z - 64, src_size as int, route)
                    && #[trigger] local_reach(
                    flags,
                    y,
                    src_x - 64,
                    src_z - 64,
                    dest_x - (src_x - 64),
                    dest_z - (src_z - 64),
                    dest_width,
                    dest_height,
                    src_size,
                    angle,
                    shape,
                    block_access_flags,
                    route.last(),
                ) ==> route.len() - 1 >= d,
        ensures
            forall|other: Seq<(int, int)>|
                search_route(flags, c, y, src_x, src_z, src_size as int, other) && #[trigger] reach_result(
                    flags,
                    y,
                    other.last().0,
                    other.last().1,
                    dest_x,
                    dest_z,
                    dest_width,
                    dest_height,
                    src_size,
                    angle,
                    shape,
                    block_access_flags,
                ) ==> other.len() - 1 >= d,
    {
        assert forall|other: Seq<(int, int)>|
            search_route(flags, c, y, src_x, src_z, src_size as int, other) && #[trigger] reach_result(
                flags,
                y,
                other.last().0,
                other.last().1,
                dest_x,
                dest_z,
                dest_width,
                dest_height,
                src_size,
                angle,
                shape,
                block_access_flags,
            ) implies other.len() - 1 >= d by {
            Self::lemma_route_to_local(flags, c, y, src_x, src_z, src_size as int, other);
            let l = to_local(other, src_x, src_z);
            assert(local_reach(
                flags,
                y,
                src_x - 64,
                src_z - 64,
                dest_x - (src_x - 64),
                dest_z - (src_z - 64),
                dest_width,
                dest_height,
                src_size,
                angle,
                shape,
                block_access_flags,
                l.last(),
            ));
        }
    }

}

} // verus!
