//! Whether a projectile or a straight walk gets from one rectangle of tiles to
//! another.
use crate::rsmod::collision::collision::CollisionFlagMap;
use crate::rsmod::flag::collision_flag::{LOC, LOC_PROJ_BLOCKER};
use crate::rsmod::line::{
    SIGHT_BLOCKED_EAST,
    SIGHT_BLOCKED_NORTH,
    SIGHT_BLOCKED_SOUTH,
    SIGHT_BLOCKED_WEST,
    WALK_BLOCKED_EAST,
    WALK_BLOCKED_NORTH,
    WALK_BLOCKED_SOUTH,
    WALK_BLOCKED_WEST,
};
use crate::rsmod::coord_grid::{lemma_unpack_packed, level_of};
use crate::rsmod::line::clamped;
use crate::rsmod::line_pathfinder::{
    in_world,
    packed_probe,
    path_or_empty,
    ray_cast,
    ray_length,
    ray_path,
    ray_probes,
    sight_path,
    step_probes,
    walk_path,
};
use vstd::prelude::*;

verus! {

/// Whether a projectile can travel from the source rectangle to the
/// destination rectangle: `true` when they meet in one tile, `false` when the
/// source's start tile holds a loc or a crossed tile blocks.
pub fn has_line_of_sight(
    flags: &CollisionFlagMap,
    y: i32,
    src_x: i32,
    src_z: i32,
    dest_x: i32,
    dest_z: i32,
    src_width: u8,
    src_height: u8,
    dest_width: u8,
    dest_height: u8,
    extra_flag: u32,
) -> (r: bool)
    requires
        in_world(src_x as int),
        in_world(src_z as int),
        in_world(dest_x as int),
        in_world(dest_z as int),
    ensures
        r == sight_path(
            flags,
            y as int,
            src_x as int,
            src_z as int,
            dest_x as int,
            dest_z as int,
            src_width,
            src_height,
            dest_width,
            dest_height,
            extra_flag,
        ) is Some,
{
    ray_cast(
        flags,
        y,
        src_x,
        src_z,
        dest_x,
        dest_z,
        src_width,
        src_height,
        dest_width,
        dest_height,
        SIGHT_BLOCKED_WEST | extra_flag,
        SIGHT_BLOCKED_EAST | extra_flag,
        SIGHT_BLOCKED_SOUTH | extra_flag,
        SIGHT_BLOCKED_NORTH | extra_flag,
        LOC | extra_flag,
        LOC_PROJ_BLOCKER | extra_flag,
        true,
    ).is_some()
}

/// Whether an entity can walk in a straight line from the source rectangle to
/// the destination rectangle.
pub fn has_line_of_walk(
    flags: &CollisionFlagMap,
    y: i32,
    src_x: i32,
    src_z: i32,
    dest_x: i32,
    dest_z: i32,
    src_width: u8,
    src_height: u8,
    dest_width: u8,
    dest_height: u8,
    extra_flag: u32,
) -> (r: bool)
    requires
        in_world(src_x as int),
        in_world(src_z as int),
        in_world(dest_x as int),
        in_world(dest_z as int),
    ensures
        r == walk_path(
            flags,
            y as int,
            src_x as int,
            src_z as int,
            dest_x as int,
            dest_z as int,
            src_width,
            src_height,
            dest_width,
            dest_height,
            extra_flag,
        ) is Some,
{
    ray_cast(
        flags,
        y,
        src_x,
        src_z,
        dest_x,
        dest_z,
        src_width,
        src_height,
        dest_width,
        dest_height,
        WALK_BLOCKED_WEST | extra_flag,
        WALK_BLOCKED_EAST | extra_flag,
        WALK_BLOCKED_SOUTH | extra_flag,
        WALK_BLOCKED_NORTH | extra_flag,
        LOC | extra_flag,
        LOC_PROJ_BLOCKER | extra_flag,
        false,
    ).is_some()
}


/// Every step of a ray tests at least one tile.
pub proof fn lemma_probes_len(sx: int, sz: int, ex: int, ez: int, n: nat)
    ensures
        ray_probes(sx, sz, ex, ez, n).len() >= n,
    decreases n,
{
    if n > 0 {
        lemma_probes_len(sx, sz, ex, ez, (n - 1) as nat);
        assert(step_probes(sx, sz, ex, ez, n as int).len() >= 1);
    }
}

/// A ray gets through exactly when it crosses some tile or starts where it
/// ends: the yes-or-no check and the tiles returned agree. Every tile it
/// returns lies on level `y`.
pub proof fn lemma_ray_check_agrees_with_path(
    flags: &CollisionFlagMap,
    y: int,
    src_x: int,
    src_z: int,
    dest_x: int,
    dest_z: int,
    src_width: u8,
    src_height: u8,
    dest_width: u8,
    dest_height: u8,
    flag_west: u32,
    flag_east: u32,
    flag_south: u32,
    flag_north: u32,
    flag_loc: u32,
    flag_proj: u32,
    los: bool,
)
    ensures
        ({
            let r = ray_path(
                flags,
                y,
                src_x,
                src_z,
                dest_x,
                dest_z,
                src_width,
                src_height,
                dest_width,
                dest_height,
                flag_west,
                flag_east,
                flag_south,
                flag_north,
                flag_loc,
                flag_proj,
                los,
            );
            let same = clamped(src_x, dest_x, src_width as int) == clamped(
                dest_x,
                src_x,
                dest_width as int,
            ) && clamped(src_z, dest_z, src_height as int) == clamped(
                dest_z,
                src_z,
                dest_height as int,
            );
            &&& (r is Some <==> (path_or_empty(r).len() > 0 || same))
            &&& forall|i: int|
                0 <= i < path_or_empty(r).len() ==> level_of(#[trigger] path_or_empty(r)[i]) == (
                y as i32 & 3) as u32
        }),
{
    let sx = clamped(src_x, dest_x, src_width as int);
    let sz = clamped(src_z, dest_z, src_height as int);
    let ex = clamped(dest_x, src_x, dest_width as int);
    let ez = clamped(dest_z, src_z, dest_height as int);
    let n = ray_length(sx, sz, ex, ez);
    lemma_probes_len(sx, sz, ex, ez, n as nat);
    let r = ray_path(
        flags,
        y,
        src_x,
        src_z,
        dest_x,
        dest_z,
        src_width,
        src_height,
        dest_width,
        dest_height,
        flag_west,
        flag_east,
        flag_south,
        flag_north,
        flag_loc,
        flag_proj,
        los,
    );
    assert forall|i: int|
        0 <= i < path_or_empty(r).len() implies level_of(#[trigger] path_or_empty(r)[i]) == (
        y as i32 & 3) as u32 by {
        let probes = ray_probes(sx, sz, ex, ez, n as nat);
        let p = probes[i];
        lemma_unpack_packed(y as i32, p.0 as i32, p.1 as i32);
        assert(path_or_empty(r)[i] == packed_probe(y, p));
    }
}

} // verus!
