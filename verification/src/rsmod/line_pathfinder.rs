//! Rays cast between two rectangles of tiles: the tiles a projectile or a
//! straight walk crosses, or nothing when the ray is blocked.
use crate::rsmod::collision::collision::CollisionFlagMap;
use crate::rsmod::coord_grid::{packed, CoordGrid};
use crate::rsmod::flag::collision_flag::{
    lemma_wall_caught,
    LOC,
    LOC_PROJ_BLOCKER,
    WALL_EAST,
    WALL_NORTH,
    WALL_SOUTH,
    WALL_WEST,
};
use crate::rsmod::line::{
    clamped,
    Line,
    HALF_TILE,
    SIGHT_BLOCKED_EAST,
    SIGHT_BLOCKED_NORTH,
    SIGHT_BLOCKED_SOUTH,
    SIGHT_BLOCKED_WEST,
    WALK_BLOCKED_EAST,
    WALK_BLOCKED_NORTH,
    WALK_BLOCKED_SOUTH,
    WALK_BLOCKED_WEST,
};
use vstd::prelude::*;

verus! {

/// A world coordinate: fourteen bits.
pub open spec fn in_world(v: int) -> bool {
    0 <= v < 0x4000
}

pub open spec fn abs(v: int) -> int {
    if v < 0 {
        -v
    } else {
        v
    }
}

/// Division rounding toward zero.
pub open spec fn trunc_div(n: int, d: int) -> int {
    if n >= 0 {
        n / d
    } else {
        -((-n) / d)
    }
}

/// The tile that a 16.16 fixed-point coordinate falls in.
pub open spec fn tile_of(scaled: int) -> int {
    scaled / 65536
}

/// The ray advances a whole tile along x at every step.
pub open spec fn x_major(sx: int, sz: int, ex: int, ez: int) -> bool {
    abs(ex - sx) > abs(ez - sz)
}

/// The number of steps along the major axis.
pub open spec fn ray_length(sx: int, sz: int, ex: int, ez: int) -> int {
    if x_major(sx, sz, ex, ez) {
        abs(ex - sx)
    } else {
        abs(ez - sz)
    }
}

/// The minor coordinate at the start, in 16.16 fixed point: the middle of the
/// start tile, less one unit when the ray heads toward lower values.
pub open spec fn ray_origin(sx: int, sz: int, ex: int, ez: int) -> int {
    if x_major(sx, sz, ex, ez) {
        sz * 65536 + 32768 + (if ez >= sz {
            0int
        } else {
            -1int
        })
    } else {
        sx * 65536 + 32768 + (if ex >= sx {
            0int
        } else {
            -1int
        })
    }
}

/// How far the minor coordinate moves per step, in 16.16 fixed point.
pub open spec fn ray_tangent(sx: int, sz: int, ex: int, ez: int) -> int {
    if x_major(sx, sz, ex, ez) {
        trunc_div((ez - sz) * 65536, abs(ex - sx))
    } else {
        trunc_div((ex - sx) * 65536, abs(ez - sz))
    }
}

/// The tiles tested at step `i` (from 1): the tile reached along the major
/// axis, then, when the minor coordinate crosses into the next tile during the
/// step, that tile too. The flag says whether a tile is tested against the
/// mask for crossing along x (`true`) or along z.
pub open spec fn step_probes(sx: int, sz: int, ex: int, ez: int, i: int) -> Seq<(int, int, bool)> {
    let o = ray_origin(sx, sz, ex, ez);
    let t = ray_tangent(sx, sz, ex, ez);
    let m0 = tile_of(o + (i - 1) * t);
    let m1 = tile_of(o + i * t);
    if x_major(sx, sz, ex, ez) {
        let x = if ex >= sx {
            sx + i
        } else {
            sx - i
        };
        if m1 != m0 {
            seq![(x, m0, true), (x, m1, false)]
        } else {
            seq![(x, m0, true)]
        }
    } else {
        let z = if ez >= sz {
            sz + i
        } else {
            sz - i
        };
        if m1 != m0 {
            seq![(m0, z, false), (m1, z, true)]
        } else {
            seq![(m0, z, false)]
        }
    }
}

/// The tiles tested during the first `n` steps, in order.
pub open spec fn ray_probes(sx: int, sz: int, ex: int, ez: int, n: nat) -> Seq<(int, int, bool)>
    decreases n,
{
    if n == 0 {
        Seq::empty()
    } else {
        ray_probes(sx, sz, ex, ez, (n - 1) as nat) + step_probes(sx, sz, ex, ez, n as int)
    }
}

/// The mask a probed tile is tested with: its axis's mask, without the
/// projectile bits on the end tile of a line of sight.
pub open spec fn probe_mask(
    p: (int, int, bool),
    ex: int,
    ez: int,
    x_mask: u32,
    z_mask: u32,
    flag_proj: u32,
    los: bool,
) -> u32 {
    let m = if p.2 {
        x_mask
    } else {
        z_mask
    };
    if los && p.0 == ex && p.1 == ez {
        m & !flag_proj
    } else {
        m
    }
}

/// A flagged tile: its zone exists and the tile has a bit of `mask`.
pub open spec fn tile_flagged(flags: &CollisionFlagMap, x: int, z: int, y: int, mask: u32) -> bool {
    flags.zone_allocated(x, z, y) && flags.tile_flag(x, z, y) & mask != 0
}

pub open spec fn packed_probe(y: int, p: (int, int, bool)) -> u32 {
    packed(y as i32, p.0 as i32, p.1 as i32)
}

/// The ray from the tile of the source rectangle nearest the destination to
/// the tile of the destination rectangle nearest the source: the packed tiles
/// crossed, empty when both are one tile, or `None` when a crossed tile is
/// flagged for its crossing direction (or, for a line of sight, the start tile
/// holds `flag_loc`).
pub open spec fn ray_path(
    flags: &CollisionFlagMap,
    y: int,
    src_x: int,
    src_z: int,
    dest_x: int,
    dest_z: int,
    src_width: u8,
    src_height: u8,
    dest_width: u8,
    dest_height: u8,
    flag_west: u32,
    flag_east: u32,
    flag_south: u32,
    flag_north: u32,
    flag_loc: u32,
    flag_proj: u32,
    los: bool,
) -> Option<Seq<u32>> {
    let sx = clamped(src_x, dest_x, src_width as int);
    let sz = clamped(src_z, dest_z, src_height as int);
    let ex = clamped(dest_x, src_x, dest_width as int);
    let ez = clamped(dest_z, src_z, dest_height as int);
    let x_mask = if ex - sx >= 0 {
        flag_west
    } else {
        flag_east
    };
    let z_mask = if ez - sz >= 0 {
        flag_south
    } else {
        flag_north
    };
    if sx == ex && sz == ez {
        Some(Seq::empty())
    } else if los && tile_flagged(flags, sx, sz, y, flag_loc) {
        None
    } else {
        probe_walk(flags, y, sx, sz, ex, ez, x_mask, z_mask, flag_proj, los)
    }
}

/// The packed tiles the ray from `(sx, sz)` to `(ex, ez)` crosses, or `None`
/// when one of them is flagged for the mask it is tested with.
pub open spec fn probe_walk(
    flags: &CollisionFlagMap,
    y: int,
    sx: int,
    sz: int,
    ex: int,
    ez: int,
    x_mask: u32,
    z_mask: u32,
    flag_proj: u32,
    los: bool,
) -> Option<Seq<u32>> {
    let probes = ray_probes(sx, sz, ex, ez, ray_length(sx, sz, ex, ez) as nat);
    if exists|k: int|
        0 <= k < probes.len() && #[trigger] tile_flagged(
            flags,
            probes[k].0,
            probes[k].1,
            y,
            probe_mask(probes[k], ex, ez, x_mask, z_mask, flag_proj, los),
        ) {
        None
    } else {
        Some(probes.map_values(|p: (int, int, bool)| packed_probe(y, p)))
    }
}

/// The line of sight: projectile blockers, the end tile's own projectile
/// bits ignored, and no standing on a loc.
pub open spec fn sight_path(
    flags: &CollisionFlagMap,
    y: int,
    src_x: int,
    src_z: int,
    dest_x: int,
    dest_z: int,
    src_width: u8,
    src_height: u8,
    dest_width: u8,
    dest_height: u8,
    extra_flag: u32,
) -> Option<Seq<u32>> {
    ray_path(
        flags,
        y,
        src_x,
        src_z,
        dest_x,
        dest_z,
        src_width,
        src_height,
        dest_width,
        dest_height,
        SIGHT_BLOCKED_WEST | extra_flag,
        SIGHT_BLOCKED_EAST | extra_flag,
        SIGHT_BLOCKED_SOUTH | extra_flag,
        SIGHT_BLOCKED_NORTH | extra_flag,
        LOC | extra_flag,
        LOC_PROJ_BLOCKER | extra_flag,
        true,
    )
}

/// The line of walk: walls and walk blockers.
pub open spec fn walk_path(
    flags: &CollisionFlagMap,
    y: int,
    src_x: int,
    src_z: int,
    dest_x: int,
    dest_z: int,
    src_width: u8,
    src_height: u8,
    dest_width: u8,
    dest_height: u8,
    extra_flag: u32,
) -> Option<Seq<u32>> {
    ray_path(
        flags,
        y,
        src_x,
        src_z,
        dest_x,
        dest_z,
        src_width,
        src_height,
        dest_width,
        dest_height,
        WALK_BLOCKED_WEST | extra_flag,
        WALK_BLOCKED_EAST | extra_flag,
        WALK_BLOCKED_SOUTH | extra_flag,
        WALK_BLOCKED_NORTH | extra_flag,
        LOC | extra_flag,
        LOC_PROJ_BLOCKER | extra_flag,
        false,
    )
}

/// The tiles a walk between the two rectangles tests, with the axis each is
/// entered along.
pub open spec fn walk_probes(
    src_x: int,
    src_z: int,
    dest_x: int,
    dest_z: int,
    src_width: u8,
    src_height: u8,
    dest_width: u8,
    dest_height: u8,
) -> Seq<(int, int, bool)> {
    let sx = clamped(src_x, dest_x, src_width as int);
    let sz = clamped(src_z, dest_z, src_height as int);
    let ex = clamped(dest_x, src_x, dest_width as int);
    let ez = clamped(dest_z, src_z, dest_height as int);
    ray_probes(sx, sz, ex, ez, ray_length(sx, sz, ex, ez) as nat)
}

/// A walk that goes through never enters a tile through the wall on the side
/// it comes from: heading east, no tile it enters along x has a west wall;
/// heading west, none has an east wall; heading north, no tile it enters
/// along z has a south wall; heading south, none has a north wall.
pub proof fn lemma_walk_respects_walls(
    flags: &CollisionFlagMap,
    y: int,
    src_x: int,
    src_z: int,
    dest_x: int,
    dest_z: int,
    src_width: u8,
    src_height: u8,
    dest_width: u8,
    dest_height: u8,
    extra_flag: u32,
    k: int,
)
    requires
        walk_path(
            flags,
            y,
            src_x,
            src_z,
            dest_x,
            dest_z,
            src_width,
            src_height,
            dest_width,
            dest_height,
            extra_flag,
        ) is Some,
        0 <= k < walk_probes(
            src_x,
            src_z,
            dest_x,
            dest_z,
            src_width,
            src_height,
            dest_width,
            dest_height,
        ).len(),
    ensures
        ({
            let p = walk_probes(
                src_x,
                src_z,
                dest_x,
                dest_z,
                src_width,
                src_height,
                dest_width,
                dest_height,
            )[k];
            let sx = clamped(src_x, dest_x, src_width as int);
            let sz = clamped(src_z, dest_z, src_height as int);
            let ex = clamped(dest_x, src_x, dest_width as int);
            let ez = clamped(dest_z, src_z, dest_height as int);
            &&& p.2 && ex > sx ==> !tile_flagged(flags, p.0, p.1, y, WALL_WEST)
            &&& p.2 && ex < sx ==> !tile_flagged(flags, p.0, p.1, y, WALL_EAST)
            &&& !p.2 && ez > sz ==> !tile_flagged(flags, p.0, p.1, y, WALL_SOUTH)
            &&& !p.2 && ez < sz ==> !tile_flagged(flags, p.0, p.1, y, WALL_NORTH)
        }),
{
    let probes = walk_probes(
        src_x,
        src_z,
        dest_x,
        dest_z,
        src_width,
        src_height,
        dest_width,
        dest_height,
    );
    let p = probes[k];
    let sx = clamped(src_x, dest_x, src_width as int);
    let sz = clamped(src_z, dest_z, src_height as int);
    let ex = clamped(dest_x, src_x, dest_width as int);
    let ez = clamped(dest_z, src_z, dest_height as int);
    let x_mask = if ex - sx >= 0 {
        WALK_BLOCKED_WEST | extra_flag
    } else {
        WALK_BLOCKED_EAST | extra_flag
    };
    let z_mask = if ez - sz >= 0 {
        WALK_BLOCKED_SOUTH | extra_flag
    } else {
        WALK_BLOCKED_NORTH | extra_flag
    };
    let mask = probe_mask(p, ex, ez, x_mask, z_mask, LOC_PROJ_BLOCKER | extra_flag, false);
    if sx == ex && sz == ez {
        assert(ray_length(sx, sz, ex, ez) == 0);
        assert(probes.len() == 0);
    }
    assert(!tile_flagged(flags, p.0, p.1, y, mask));
    lemma_wall_caught(flags.tile_flag(p.0, p.1, y), extra_flag);
}

/// The `k`-th tile (from 0) a straight ray along a row or a column enters:
/// one tile further along the ray per step, entered along the ray's axis.
pub open spec fn straight_probe(sx: int, sz: int, ex: int, ez: int, k: int) -> (int, int, bool) {
    if sz == ez {
        (
            if ex > sx {
                sx + k + 1
            } else {
                sx - k - 1
            },
            sz,
            true,
        )
    } else {
        (
            sx,
            if ez > sz {
                sz + k + 1
            } else {
                sz - k - 1
            },
            false,
        )
    }
}

/// A ray along a row or a column tests exactly the tiles after its start, one
/// per step, each entered along the ray's axis.
pub proof fn lemma_straight_probes(sx: int, sz: int, ex: int, ez: int, n: nat)
    requires
        (sz == ez && sx != ex) || (sx == ex && sz != ez),
    ensures
        ray_probes(sx, sz, ex, ez, n).len() == n,
        forall|k: int| 0 <= k < n ==> #[trigger] ray_probes(sx, sz, ex, ez, n)[k] == straight_probe(sx, sz, ex, ez, k),
    decreases n,
{
    if n > 0 {
        lemma_straight_probes(sx, sz, ex, ez, (n - 1) as nat);
        let o = ray_origin(sx, sz, ex, ez);
        let t = ray_tangent(sx, sz, ex, ez);
        assert(t == 0);
        assert((n - 1) * t == 0 && n * t == 0) by (nonlinear_arith)
            requires
                t == 0,
        ;
        if sz == ez {
            assert(tile_of(o) == sz);
        } else {
            assert(tile_of(o) == sx);
        }
        let prev = ray_probes(sx, sz, ex, ez, (n - 1) as nat);
        let step = step_probes(sx, sz, ex, ez, n as int);
        assert(step.len() == 1 && step[0] == straight_probe(sx, sz, ex, ez, n - 1));
        assert forall|k: int| 0 <= k < n implies #[trigger] ray_probes(sx, sz, ex, ez, n)[k]
            == straight_probe(sx, sz, ex, ez, k) by {
            if k < n - 1 {
                assert(ray_probes(sx, sz, ex, ez, n)[k] == prev[k]);
            }
        }
    }
}

/// A walk between two single tiles of one row or one column is blocked by
/// any tile it enters through a wall: heading east, by a west wall on a tile
/// after the start up to the end; heading west, by an east wall; heading
/// north, by a south wall; heading south, by a north wall.
pub proof fn lemma_straight_walk_blocked(
    flags: &CollisionFlagMap,
    y: int,
    x: int,
    z: int,
    dest_x: int,
    dest_z: int,
    extra_flag: u32,
    t: int,
)
    requires
        ({
            ||| z == dest_z && x < t <= dest_x && tile_flagged(flags, t, z, y, WALL_WEST)
            ||| z == dest_z && dest_x <= t < x && tile_flagged(flags, t, z, y, WALL_EAST)
            ||| x == dest_x && z < t <= dest_z && tile_flagged(flags, x, t, y, WALL_SOUTH)
            ||| x == dest_x && dest_z <= t < z && tile_flagged(flags, x, t, y, WALL_NORTH)
        }),
    ensures
        walk_path(flags, y, x, z, dest_x, dest_z, 1, 1, 1, 1, extra_flag) is None,
{
    if walk_path(flags, y, x, z, dest_x, dest_z, 1, 1, 1, 1, extra_flag) is Some {
        assert(clamped(x, dest_x, 1) == x && clamped(z, dest_z, 1) == z);
        assert(clamped(dest_x, x, 1) == dest_x && clamped(dest_z, z, 1) == dest_z);
        let n = ray_length(x, z, dest_x, dest_z) as nat;
        lemma_straight_probes(x, z, dest_x, dest_z, n);
        let k = if z == dest_z {
            abs(t - x) - 1
        } else {
            abs(t - z) - 1
        };
        assert(ray_probes(x, z, dest_x, dest_z, n)[k] == straight_probe(x, z, dest_x, dest_z, k));
        lemma_walk_respects_walls(flags, y, x, z, dest_x, dest_z, 1, 1, 1, 1, extra_flag, k);
    }
}

/// The probes of fewer steps are a prefix of those of more.
pub proof fn lemma_probes_prefix(sx: int, sz: int, ex: int, ez: int, m: nat, n: nat)
    requires
        m <= n,
    ensures
        ray_probes(sx, sz, ex, ez, m).len() <= ray_probes(sx, sz, ex, ez, n).len(),
        forall|k: int|
            0 <= k < ray_probes(sx, sz, ex, ez, m).len() ==> #[trigger] ray_probes(
                sx,
                sz,
                ex,
                ez,
                n,
            )[k] == ray_probes(sx, sz, ex, ez, m)[k],
    decreases n,
{
    if m < n {
        lemma_probes_prefix(sx, sz, ex, ez, m, (n - 1) as nat);
        let prev = ray_probes(sx, sz, ex, ez, (n - 1) as nat);
        assert(ray_probes(sx, sz, ex, ez, n) == prev + step_probes(sx, sz, ex, ez, n as int));
        assert forall|k: int| 0 <= k < ray_probes(sx, sz, ex, ez, m).len() implies #[trigger] ray_probes(
            sx,
            sz,
            ex,
            ez,
            n,
        )[k] == ray_probes(sx, sz, ex, ez, m)[k] by {
            assert(ray_probes(sx, sz, ex, ez, n)[k] == prev[k]);
        }
    }
}

/// `n * trunc_div(num, n)` lies between 0 and `num`, and so does every smaller
/// multiple.
proof fn lemma_tangent_steps(num: int, n: int, i: int)
    requires
        n > 0,
        0 <= i <= n,
    ensures
        num >= 0 ==> 0 <= i * trunc_div(num, n) <= num,
        num < 0 ==> num <= i * trunc_div(num, n) <= 0,
{
    if num >= 0 {
        let q = num / n;
        assert(0 <= q * n <= num) by (nonlinear_arith)
            requires
                n > 0,
                num >= 0,
                q == num / n,
        ;
        assert(0 <= i * q <= q * n) by (nonlinear_arith)
            requires
                0 <= i <= n,
                q >= 0,
        ;
    } else {
        let q = (-num) / n;
        assert(0 <= q * n <= -num) by (nonlinear_arith)
            requires
                n > 0,
                -num > 0,
                q == (-num) / n,
        ;
        assert(0 <= i * q <= q * n) by (nonlinear_arith)
            requires
                0 <= i <= n,
                q >= 0,
        ;
        assert(i * (-q) == -(i * q)) by (nonlinear_arith);
    }
}

fn truncating_div(num: i32, den: i32) -> (r: i32)
    requires
        den > 0,
    ensures
        r == trunc_div(num as int, den as int),
{
    num / den
}

/// The result of a walk as a sequence: `None` for a blocked ray.
pub open spec fn walked(r: Option<Vec<u32>>) -> Option<Seq<u32>> {
    match r {
        Some(v) => Some(v@),
        None => None,
    }
}

/// Coordinates from which rays are cast without leaving `i32` in 16.16 fixed point.
pub open spec fn ray_coordinate(v: int) -> bool {
    0 <= v <= 0x4100
}

/// Steps one tile at a time along x from `(start_x, start_z)` to
/// `(end_x, end_z)`, testing each tile entered and, when z crosses into the
/// next tile, that tile as well.
fn cast_along_x(
    flags: &CollisionFlagMap,
    y: i32,
    start_x: i32,
    start_z: i32,
    end_x: i32,
    end_z: i32,
    x_mask: u32,
    z_mask: u32,
    flag_proj: u32,
    los: bool,
) -> (r: Option<Vec<u32>>)
    requires
        ray_coordinate(start_x as int),
        ray_coordinate(start_z as int),
        ray_coordinate(end_x as int),
        ray_coordinate(end_z as int),
        x_major(start_x as int, start_z as int, end_x as int, end_z as int),
    ensures
        walked(r) == probe_walk(
            flags,
            y as int,
            start_x as int,
            start_z as int,
            end_x as int,
            end_z as int,
            x_mask,
            z_mask,
            flag_proj,
            los,
        ),
{
    let ghost sx: int = start_x as int;
    let ghost sz: int = start_z as int;
    let ghost ex: int = end_x as int;
    let ghost ez: int = end_z as int;
    let ghost n: nat = ray_length(sx, sz, ex, ez) as nat;
    let ghost o: int = ray_origin(sx, sz, ex, ez);
    let ghost t: int = ray_tangent(sx, sz, ex, ez);
    let delta_x: i32 = end_x - start_x;
    let delta_z: i32 = end_z - start_z;
    let absolute_delta_x: i32 = if delta_x < 0 {
        -delta_x
    } else {
        delta_x
    };
    let offset_x: i32 = if delta_x >= 0 {
        1
    } else {
        -1
    };
    let offset_z: i32 = if delta_z >= 0 {
        0
    } else {
        -1
    };
    let mut scaled_z: i32 = Line::scale_up(start_z) + HALF_TILE + offset_z;
    let tangent: i32 = truncating_div(Line::scale_up(delta_z), absolute_delta_x);
    let mut out: Vec<u32> = Vec::new();
    let mut curr_x: i32 = start_x;
    let ghost mut i: int = 0;
    while curr_x != end_x
        invariant
            ray_coordinate(sx),
            ray_coordinate(sz),
            ray_coordinate(ex),
            ray_coordinate(ez),
            x_major(sx, sz, ex, ez),
            sx == start_x,
            sz == start_z,
            ex == end_x,
            ez == end_z,
            n == absolute_delta_x,
            n == abs(ex - sx),
            offset_x == (if ex >= sx {
                1int
            } else {
                -1int
            }),
            o == ray_origin(sx, sz, ex, ez),
            t == ray_tangent(sx, sz, ex, ez),
            tangent == t,
            0 <= i <= n,
            curr_x == (if ex >= sx {
                sx + i
            } else {
                sx - i
            }),
            scaled_z == o + i * t,
            out.len() == ray_probes(sx, sz, ex, ez, i as nat).len(),
            forall|k: int|
                0 <= k < out.len() ==> out@[k] == packed_probe(
                    y as int,
                    #[trigger] ray_probes(sx, sz, ex, ez, i as nat)[k],
                ),
            forall|k: int|
                0 <= k < ray_probes(sx, sz, ex, ez, i as nat).len() ==> !tile_flagged(
                    flags,
                    ray_probes(sx, sz, ex, ez, i as nat)[k].0,
                    ray_probes(sx, sz, ex, ez, i as nat)[k].1,
                    y as int,
                    probe_mask(
                        #[trigger] ray_probes(sx, sz, ex, ez, i as nat)[k],
                        ex,
                        ez,
                        x_mask,
                        z_mask,
                        flag_proj,
                        los,
                    ),
                ),
        decreases n - i,
    {
        let ghost before: Seq<(int, int, bool)> = ray_probes(sx, sz, ex, ez, i as nat);
        let ghost step: Seq<(int, int, bool)> = step_probes(sx, sz, ex, ez, i + 1);
        proof {
            assert(i < n);
            assert(ray_probes(sx, sz, ex, ez, (i + 1) as nat) == before + step);
            lemma_tangent_steps((ez - sz) * 65536, n as int, i);
            lemma_tangent_steps((ez - sz) * 65536, n as int, i + 1);
            lemma_probes_prefix(sx, sz, ex, ez, (i + 1) as nat, n);
            assert((i + 1) * t == i * t + t) by (nonlinear_arith);
        }
        curr_x = curr_x + offset_x;
        let curr_z: i32 = Line::scale_down(scaled_z);
        let mask: u32 = if los && curr_x == end_x && curr_z == end_z {
            x_mask & !flag_proj
        } else {
            x_mask
        };
        if flags.is_flagged(curr_x, curr_z, y, mask) {
            proof {
                let k = before.len() as int;
                assert(ray_probes(sx, sz, ex, ez, (i + 1) as nat)[k] == step[0]);
                assert(tile_flagged(
                    flags,
                    ray_probes(sx, sz, ex, ez, n)[k].0,
                    ray_probes(sx, sz, ex, ez, n)[k].1,
                    y as int,
                    probe_mask(ray_probes(sx, sz, ex, ez, n)[k], ex, ez, x_mask, z_mask, flag_proj, los),
                ));
            }
            return None;
        }
        out.push(CoordGrid::new(y, curr_x, curr_z).0);
        scaled_z = scaled_z + tangent;
        let next_z: i32 = Line::scale_down(scaled_z);
        if next_z != curr_z {
            let mask: u32 = if los && curr_x == end_x && next_z == end_z {
                z_mask & !flag_proj
            } else {
                z_mask
            };
            if flags.is_flagged(curr_x, next_z, y, mask) {
                proof {
                    let k = before.len() + 1int;
                    assert(ray_probes(sx, sz, ex, ez, (i + 1) as nat)[k] == step[1]);
                    assert(tile_flagged(
                        flags,
                        ray_probes(sx, sz, ex, ez, n)[k].0,
                        ray_probes(sx, sz, ex, ez, n)[k].1,
                        y as int,
                        probe_mask(ray_probes(sx, sz, ex, ez, n)[k], ex, ez, x_mask, z_mask, flag_proj, los),
                    ));
                }
                return None;
            }
            out.push(CoordGrid::new(y, curr_x, next_z).0);
        }
        proof {
            let after = ray_probes(sx, sz, ex, ez, (i + 1) as nat);
            assert forall|k: int| 0 <= k < out.len() implies out@[k] == packed_probe(
                y as int,
                #[trigger] after[k],
            ) by {
                if k < before.len() {
                    assert(after[k] == before[k]);
                }
            }
            assert forall|k: int| 0 <= k < after.len() implies !tile_flagged(
                flags,
                after[k].0,
                after[k].1,
                y as int,
                probe_mask(#[trigger] after[k], ex, ez, x_mask, z_mask, flag_proj, los),
            ) by {
                if k < before.len() {
                    assert(after[k] == before[k]);
                }
            }
            i = i + 1;
        }
    }
    proof {
        let probes = ray_probes(sx, sz, ex, ez, n);
        assert(i == n);
        assert(out@ =~= probes.map_values(|p: (int, int, bool)| packed_probe(y as int, p)));
    }
    Some(out)
}


/// Steps one tile at a time along z from `(start_x, start_z)` to
/// `(end_x, end_z)`, testing each tile entered and, when x crosses into the
/// next tile, that tile as well.
fn cast_along_z(
    flags: &CollisionFlagMap,
    y: i32,
    start_x: i32,
    start_z: i32,
    end_x: i32,
    end_z: i32,
    x_mask: u32,
    z_mask: u32,
    flag_proj: u32,
    los: bool,
) -> (r: Option<Vec<u32>>)
    requires
        ray_coordinate(start_x as int),
        ray_coordinate(start_z as int),
        ray_coordinate(end_x as int),
        ray_coordinate(end_z as int),
        !x_major(start_x as int, start_z as int, end_x as int, end_z as int),
        start_x != end_x || start_z != end_z,
    ensures
        walked(r) == probe_walk(
            flags,
            y as int,
            start_x as int,
            start_z as int,
            end_x as int,
            end_z as int,
            x_mask,
            z_mask,
            flag_proj,
            los,
        ),
{
    let ghost sx: int = start_x as int;
    let ghost sz: int = start_z as int;
    let ghost ex: int = end_x as int;
    let ghost ez: int = end_z as int;
    let ghost n: nat = ray_length(sx, sz, ex, ez) as nat;
    let ghost o: int = ray_origin(sx, sz, ex, ez);
    let ghost t: int = ray_tangent(sx, sz, ex, ez);
    let delta_x: i32 = end_x - start_x;
    let delta_z: i32 = end_z - start_z;
    let absolute_delta_z: i32 = if delta_z < 0 {
        -delta_z
    } else {
        delta_z
    };
    let offset_x: i32 = if delta_x >= 0 {
        0
    } else {
        -1
    };
    let offset_z: i32 = if delta_z >= 0 {
        1
    } else {
        -1
    };
    let mut scaled_x: i32 = Line::scale_up(start_x) + HALF_TILE + offset_x;
    let tangent: i32 = truncating_div(Line::scale_up(delta_x), absolute_delta_z);
    let mut out: Vec<u32> = Vec::new();
    let mut curr_z: i32 = start_z;
    let ghost mut i: int = 0;
    while curr_z != end_z
        invariant
            ray_coordinate(sx),
            ray_coordinate(sz),
            ray_coordinate(ex),
            ray_coordinate(ez),
            !x_major(sx, sz, ex, ez),
            sx != ex || sz != ez,
            sx == start_x,
            sz == start_z,
            ex == end_x,
            ez == end_z,
            n == absolute_delta_z,
            n == abs(ez - sz),
            offset_z == (if ez >= sz {
                1int
            } else {
                -1int
            }),
            o == ray_origin(sx, sz, ex, ez),
            t == ray_tangent(sx, sz, ex, ez),
            tangent == t,
            0 <= i <= n,
            curr_z == (if ez >= sz {
                sz + i
            } else {
                sz - i
            }),
            scaled_x == o + i * t,
            out.len() == ray_probes(sx, sz, ex, ez, i as nat).len(),
            forall|k: int|
                0 <= k < out.len() ==> out@[k] == packed_probe(
                    y as int,
                    #[trigger] ray_probes(sx, sz, ex, ez, i as nat)[k],
                ),
            forall|k: int|
                0 <= k < ray_probes(sx, sz, ex, ez, i as nat).len() ==> !tile_flagged(
                    flags,
                    ray_probes(sx, sz, ex, ez, i as nat)[k].0,
                    ray_probes(sx, sz, ex, ez, i as nat)[k].1,
                    y as int,
                    probe_mask(
                        #[trigger] ray_probes(sx, sz, ex, ez, i as nat)[k],
                        ex,
                        ez,
                        x_mask,
                        z_mask,
                        flag_proj,
                        los,
                    ),
                ),
        decreases n - i,
    {
        let ghost before: Seq<(int, int, bool)> = ray_probes(sx, sz, ex, ez, i as nat);
        let ghost step: Seq<(int, int, bool)> = step_probes(sx, sz, ex, ez, i + 1);
        proof {
            assert(i < n);
            assert(ray_probes(sx, sz, ex, ez, (i + 1) as nat) == before + step);
            lemma_tangent_steps((ex - sx) * 65536, n as int, i);
            lemma_tangent_steps((ex - sx) * 65536, n as int, i + 1);
            lemma_probes_prefix(sx, sz, ex, ez, (i + 1) as nat, n);
            assert((i + 1) * t == i * t + t) by (nonlinear_arith);
        }
        curr_z = curr_z + offset_z;
        let curr_x: i32 = Line::scale_down(scaled_x);
        let mask: u32 = if los && curr_x == end_x && curr_z == end_z {
            z_mask & !flag_proj
        } else {
            z_mask
        };
        if flags.is_flagged(curr_x, curr_z, y, mask) {
            proof {
                let k = before.len() as int;
                assert(ray_probes(sx, sz, ex, ez, (i + 1) as nat)[k] == step[0]);
                assert(tile_flagged(
                    flags,
                    ray_probes(sx, sz, ex, ez, n)[k].0,
                    ray_probes(sx, sz, ex, ez, n)[k].1,
                    y as int,
                    probe_mask(ray_probes(sx, sz, ex, ez, n)[k], ex, ez, x_mask, z_mask, flag_proj, los),
                ));
            }
            return None;
        }
        out.push(CoordGrid::new(y, curr_x, curr_z).0);
        scaled_x = scaled_x + tangent;
        let next_x: i32 = Line::scale_down(scaled_x);
        if next_x != curr_x {
            let mask: u32 = if los && next_x == end_x && curr_z == end_z {
                x_mask & !flag_proj
            } else {
                x_mask
            };
            if flags.is_flagged(next_x, curr_z, y, mask) {
                proof {
                    let k = before.len() + 1int;
                    assert(ray_probes(sx, sz, ex, ez, (i + 1) as nat)[k] == step[1]);
                    assert(tile_flagged(
                        flags,
                        ray_probes(sx, sz, ex, ez, n)[k].0,
                        ray_probes(sx, sz, ex, ez, n)[k].1,
                        y as int,
                        probe_mask(ray_probes(sx, sz, ex, ez, n)[k], ex, ez, x_mask, z_mask, flag_proj, los),
                    ));
                }
                return None;
            }
            out.push(CoordGrid::new(y, next_x, curr_z).0);
        }
        proof {
            let after = ray_probes(sx, sz, ex, ez, (i + 1) as nat);
            assert forall|k: int| 0 <= k < out.len() implies out@[k] == packed_probe(
                y as int,
                #[trigger] after[k],
            ) by {
                if k < before.len() {
                    assert(after[k] == before[k]);
                }
            }
            assert forall|k: int| 0 <= k < after.len() implies !tile_flagged(
                flags,
                after[k].0,
                after[k].1,
                y as int,
                probe_mask(#[trigger] after[k], ex, ez, x_mask, z_mask, flag_proj, los),
            ) by {
                if k < before.len() {
                    assert(after[k] == before[k]);
                }
            }
            i = i + 1;
        }
    }
    proof {
        let probes = ray_probes(sx, sz, ex, ez, n);
        assert(i == n);
        assert(out@ =~= probes.map_values(|p: (int, int, bool)| packed_probe(y as int, p)));
    }
    Some(out)
}


/// Casts the ray between the two rectangles: `None` when it is blocked,
/// otherwise the packed tiles crossed (none when the rectangles meet in one
/// tile).
pub fn ray_cast(
    flags: &CollisionFlagMap,
    y: i32,
    src_x: i32,
    src_z: i32,
    dest_x: i32,
    dest_z: i32,
    src_width: u8,
    src_height: u8,
    dest_width: u8,
    dest_height: u8,
    flag_west: u32,
    flag_east: u32,
    flag_south: u32,
    flag_north: u32,
    flag_loc: u32,
    flag_proj: u32,
    los: bool,
) -> (r: Option<Vec<u32>>)
    requires
        in_world(src_x as int),
        in_world(src_z as int),
        in_world(dest_x as int),
        in_world(dest_z as int),
    ensures
        walked(r) == ray_path(
            flags,
            y as int,
            src_x as int,
            src_z as int,
            dest_x as int,
            dest_z as int,
            src_width,
            src_height,
            dest_width,
            dest_height,
            flag_west,
            flag_east,
            flag_south,
            flag_north,
            flag_loc,
            flag_proj,
            los,
        ),
{
    let start_x: i32 = Line::coordinate(src_x, dest_x, src_width);
    let start_z: i32 = Line::coordinate(src_z, dest_z, src_height);
    let end_x: i32 = Line::coordinate(dest_x, src_x, dest_width);
    let end_z: i32 = Line::coordinate(dest_z, src_z, dest_height);
    if start_x == end_x && start_z == end_z {
        return Some(Vec::new());
    }
    if los && flags.is_flagged(start_x, start_z, y, flag_loc) {
        return None;
    }
    let delta_x: i32 = end_x - start_x;
    let delta_z: i32 = end_z - start_z;
    let absolute_delta_x: i32 = if delta_x < 0 {
        -delta_x
    } else {
        delta_x
    };
    let absolute_delta_z: i32 = if delta_z < 0 {
        -delta_z
    } else {
        delta_z
    };
    let x_mask: u32 = if delta_x >= 0 {
        flag_west
    } else {
        flag_east
    };
    let z_mask: u32 = if delta_z >= 0 {
        flag_south
    } else {
        flag_north
    };
    if absolute_delta_x > absolute_delta_z {
        cast_along_x(flags, y, start_x, start_z, end_x, end_z, x_mask, z_mask, flag_proj, los)
    } else {
        cast_along_z(flags, y, start_x, start_z, end_x, end_z, x_mask, z_mask, flag_proj, los)
    }
}

/// The tiles of the ray between the two rectangles; empty when it is blocked
/// or the rectangles meet in one tile.
pub fn ray_cast_path(
    flags: &CollisionFlagMap,
    y: i32,
    src_x: i32,
    src_z: i32,
    dest_x: i32,
    dest_z: i32,
    src_width: u8,
    src_height: u8,
    dest_width: u8,
    dest_height: u8,
    flag_west: u32,
    flag_east: u32,
    flag_south: u32,
    flag_north: u32,
    flag_loc: u32,
    flag_proj: u32,
    los: bool,
) -> (r: Vec<u32>)
    requires
        in_world(src_x as int),
        in_world(src_z as int),
        in_world(dest_x as int),
        in_world(dest_z as int),
    ensures
        r@ == path_or_empty(
            ray_path(
                flags,
                y as int,
                src_x as int,
                src_z as int,
                dest_x as int,
                dest_z as int,
                src_width,
                src_height,
                dest_width,
                dest_height,
                flag_west,
                flag_east,
                flag_south,
                flag_north,
                flag_loc,
                flag_proj,
                los,
            ),
        ),
{
    match ray_cast(
        flags,
        y,
        src_x,
        src_z,
        dest_x,
        dest_z,
        src_width,
        src_height,
        dest_width,
        dest_height,
        flag_west,
        flag_east,
        flag_south,
        flag_north,
        flag_loc,
        flag_proj,
        los,
    ) {
        Some(tiles) => tiles,
        None => Vec::new(),
    }
}

/// The tiles of a ray, or no tiles for a blocked one.
pub open spec fn path_or_empty(r: Option<Seq<u32>>) -> Seq<u32> {
    match r {
        Some(s) => s,
        None => Seq::empty(),
    }
}

/// The tiles a projectile crosses from the source rectangle to the
/// destination rectangle; empty when it is blocked.
pub fn line_of_sight(
    flags: &CollisionFlagMap,
    y: i32,
    src_x: i32,
    src_z: i32,
    dest_x: i32,
    dest_z: i32,
    src_width: u8,
    src_height: u8,
    dest_width: u8,
    dest_height: u8,
    extra_flag: u32,
) -> (r: Vec<u32>)
    requires
        in_world(src_x as int),
        in_world(src_z as int),
        in_world(dest_x as int),
        in_world(dest_z as int),
    ensures
        r@ == path_or_empty(
            sight_path(
                flags,
                y as int,
                src_x as int,
                src_z as int,
                dest_x as int,
                dest_z as int,
                src_width,
                src_height,
                dest_width,
                dest_height,
                extra_flag,
            ),
        ),
{
    ray_cast_path(
        flags,
        y,
        src_x,
        src_z,
        dest_x,
        dest_z,
        src_width,
        src_height,
        dest_width,
        dest_height,
        SIGHT_BLOCKED_WEST | extra_flag,
        SIGHT_BLOCKED_EAST | extra_flag,
        SIGHT_BLOCKED_SOUTH | extra_flag,
        SIGHT_BLOCKED_NORTH | extra_flag,
        LOC | extra_flag,
        LOC_PROJ_BLOCKER | extra_flag,
        true,
    )
}

/// The tiles of a straight walk from the source rectangle to the destination
/// rectangle; empty when it is blocked.
pub fn line_of_walk(
    flags: &CollisionFlagMap,
    y: i32,
    src_x: i32,
    src_z: i32,
    dest_x: i32,
    dest_z: i32,
    src_width: u8,
    src_height: u8,
    dest_width: u8,
    dest_height: u8,
    extra_flag: u32,
) -> (r: Vec<u32>)
    requires
        in_world(src_x as int),
        in_world(src_z as int),
        in_world(dest_x as int),
        in_world(dest_z as int),
    ensures
        r@ == path_or_empty(
            walk_path(
                flags,
                y as int,
                src_x as int,
                src_z as int,
                dest_x as int,
                dest_z as int,
                src_width,
                src_height,
                dest_width,
                dest_height,
                extra_flag,
            ),
        ),
{
    ray_cast_path(
        flags,
        y,
        src_x,
        src_z,
        dest_x,
        dest_z,
        src_width,
        src_height,
        dest_width,
        dest_height,
        WALK_BLOCKED_WEST | extra_flag,
        WALK_BLOCKED_EAST | extra_flag,
        WALK_BLOCKED_SOUTH | extra_flag,
        WALK_BLOCKED_NORTH | extra_flag,
        LOC | extra_flag,
        LOC_PROJ_BLOCKER | extra_flag,
        false,
    )
}

} // verus!
