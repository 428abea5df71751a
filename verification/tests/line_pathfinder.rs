use rsmod::rsmod::collision::collision::CollisionFlagMap;
use rsmod::rsmod::flag::collision_flag;
use rsmod::rsmod::line_pathfinder::{line_of_sight, line_of_walk};

const ARGS: [[i32; 2]; 4] = [[0, -1], [0, 1], [-1, 0], [1, 0]];

fn build_collision_map(x1: i32, z1: i32, x2: i32, z2: i32) -> CollisionFlagMap {
    let mut collision = CollisionFlagMap::new();
    for y in 0..4 {
        for z in z1.min(z2)..=z1.max(z2) {
            for x in x1.min(x2)..=x1.max(x2) {
                collision.allocate_if_absent(x, z, y);
            }
        }
    }
    return collision;
}

#[test]
fn test_low_partial_line_of_walk() {
    let src_x = 3200;
    let src_z = 3200;

    let mut collision = CollisionFlagMap::new();

    {
        collision.set(3200, 3205, 0, collision_flag::LOC);

        let line = line_of_walk(&collision, 0, src_x, src_z, 3200, 3207, 1, 1, 0, 0, 0);
        assert!(!(line.len() > 0));
    }
}

#[test]
fn test_low_clear_line_of_walk() {
    for [dir_x, dir_z] in ARGS {
        let src_x = 3200;
        let src_z = 3200;
        let dest_x = src_x + dir_x * 3;
        let dest_z = src_z + dir_z * 3;

        {
            let mut collision = build_collision_map(src_x, src_z, dest_x, dest_z);
            for y in 0..4 {
                collision.allocate_if_absent(src_x + dir_x, src_z + dir_z, y);

                let line =
                    line_of_walk(&collision, y, src_x, src_z, dest_x, dest_z, 1, 1, 0, 0, 0);
                assert!(line.len() > 0);
            }
        }
    }
}

#[test]
fn test_low_loc_blocking() {
    for [dir_x, dir_z] in ARGS {
        let src_x = 3200;
        let src_z = 3200;
        let dest_x = src_x + dir_x * 3;
        let dest_z = src_z + dir_z * 3;

        {
            let mut collision = build_collision_map(src_x, src_z, dest_x, dest_z);
            for y in 0..4 {
                collision.set(src_x + dir_x, src_z + dir_z, y, collision_flag::LOC);

                let line =
                    line_of_walk(&collision, y, src_x, src_z, dest_x, dest_z, 1, 1, 0, 0, 0);
                assert!(!(line.len() > 0));
            }
        }
    }
}

#[test]
fn test_low_extra_flag_blocking() {
    let flags = [
        collision_flag::PLAYER,
        collision_flag::NPC,
        collision_flag::PLAYER | collision_flag::NPC,
    ];

    for [dir_x, dir_z] in ARGS {
        let src_x = 3200;
        let src_z = 3200;
        let dest_x = src_x + dir_x * 3;
        let dest_z = src_z + dir_z * 3;

        {
            let mut collision = build_collision_map(src_x, src_z, dest_x, dest_z);
            for y in 0..4 {
                for flag in flags {
                    collision.set(src_x + dir_x, src_z + dir_z, y, flag);

                    let line = line_of_walk(
                        &collision, y, src_x, src_z, dest_x, dest_z, 1, 1, 0, 0, flag,
                    );
                    assert!(!(line.len() > 0));
                }
            }
        }
    }
}

#[test]
fn test_los_with_extra_flag_on_target_coords() {
    let src_x = 3200;
    let src_z = 3200;

    let mut collision = CollisionFlagMap::new();

    {
        collision.add(src_x, src_z, 0, collision_flag::PLAYER);

        let line = line_of_sight(
            &collision,
            0,
            3200,
            3202,
            3200,
            3200,
            1,
            1,
            1,
            1,
            collision_flag::PLAYER,
        );
        assert_eq!(line.len(), 2);
        assert_eq!(line[0] & 0x3fff, 3201);
        assert_eq!((line[0] >> 14) & 0x3fff, 3200);
        assert_eq!(line[1] & 0x3fff, 3200);
        assert_eq!((line[1] >> 14) & 0x3fff, 3200);
    }
}

#[test]
fn test_los_with_extra_flag_past_target_coords() {
    let src_x = 3200;
    let src_z = 3200;

    let mut collision = CollisionFlagMap::new();

    {
        collision.add(src_x, src_z, 0, collision_flag::PLAYER);

        let line = line_of_sight(
            &collision,
            0,
            3200,
            3202,
            3200,
            3199,
            1,
            1,
            1,
            1,
            collision_flag::PLAYER,
        );
        assert!(!(line.len() > 0));
    }
}

#[test]
fn test_los_on_top_of_loc_fails_line_of_sight() {
    let src_x = 3200;
    let src_z = 3200;

    let mut collision = CollisionFlagMap::new();

    {
        collision.add(src_x, src_z, 0, collision_flag::LOC);

        let line = line_of_sight(&collision, 0, src_x, src_z, 3200, 3201, 1, 1, 0, 0, 0);
        assert!(!(line.len() > 0));
    }
}

#[test]
fn test_los_on_top_of_extra_flag_fails_line_of_sight() {
    let src_x = 3200;
    let src_z = 3200;

    let mut collision = CollisionFlagMap::new();

    {
        collision.add(src_x, src_z, 0, collision_flag::PLAYER);

        let line = line_of_sight(
            &collision,
            0,
            src_x,
            src_z,
            3200,
            3201,
            1,
            1,
            0,
            0,
            collision_flag::PLAYER,
        );
        assert!(!(line.len() > 0));
    }
}

// #[test]
// fn test_los_same_tile_has_line_of_sight() {
//     let src_x = 3200;
//     let src_z = 3200;
//
//     let mut collision = CollisionFlagMap::new();
//
//     {
//         collision.allocate_if_absent(src_x, src_z, 0);
//
//         let line = line_of_sight(&collision, 0, src_x, src_z, src_x, src_z, 1, 1, 0, 0, 0);
//         assert!(line.len() > 0);
//     }
// }

#[test]
fn test_los_partial_line_of_sight() {
    let src_x = 3200;
    let src_z = 3200;

    let mut collision = CollisionFlagMap::new();

    {
        collision.set(3200, 3205, 0, collision_flag::LOC_PROJ_BLOCKER);

        let line = line_of_sight(&collision, 0, src_x, src_z, 3200, 3207, 1, 1, 0, 0, 0);
        assert!(!(line.len() > 0));
    }
}

#[test]
fn test_los_valid_line_of_sight() {
    let flags = [
        collision_flag::OPEN,
        collision_flag::FLOOR,
        collision_flag::FLOOR_DECORATION,
        collision_flag::FLOOR | collision_flag::FLOOR_DECORATION,
    ];

    for [dir_x, dir_z] in ARGS {
        let src_x = 3200;
        let src_z = 3200;
        let dest_x = src_x + dir_x * 3;
        let dest_z = src_z + dir_z * 3;

        {
            let mut collision = build_collision_map(src_x, src_z, dest_x, dest_z);
            for y in 0..4 {
                for flag in flags {
                    collision.set(src_x + dir_x, src_z + dir_z, y, flag);
                }
                let line =
                    line_of_sight(&collision, y, src_x, src_z, dest_x, dest_z, 1, 1, 0, 0, 0);
                assert!(line.len() > 0);
            }
        }
    }
}

#[test]
fn test_los_loc_blocking() {
    for [dir_x, dir_z] in ARGS {
        let src_x = 3200;
        let src_z = 3200;
        let dest_x = src_x + dir_x * 3;
        let dest_z = src_z + dir_z * 3;

        {
            let mut collision = build_collision_map(src_x, src_z, dest_x, dest_z);
            for y in 0..4 {
                collision.set(
                    src_x + dir_x,
                    src_z + dir_z,
                    y,
                    collision_flag::LOC_PROJ_BLOCKER,
                );
                let line =
                    line_of_sight(&collision, y, src_x, src_z, dest_x, dest_z, 1, 1, 0, 0, 0);
                assert!(!(line.len() > 0));
            }
        }
    }
}

#[test]
fn test_los_extra_flag_blocking() {
    let flags = [
        collision_flag::PLAYER,
        collision_flag::NPC,
        collision_flag::PLAYER | collision_flag::NPC,
    ];

    for [dir_x, dir_z] in ARGS {
        let src_x = 3200;
        let src_z = 3200;
        let dest_x = src_x + dir_x * 3;
        let dest_z = src_z + dir_z * 3;

        {
            let mut collision = build_collision_map(src_x, src_z, dest_x, dest_z);
            for y in 0..4 {
                for flag in flags {
                    collision.set(src_x + dir_x, src_z + dir_z, y, flag);

                    let line = line_of_sight(
                        &collision, y, src_x, src_z, dest_x, dest_z, 1, 1, 0, 0, flag,
                    );
                    assert!(!(line.len() > 0));
                }
            }
        }
    }
}

#[test]
fn test_line_diagonal_walk_tiles() {
    let collision = build_collision_map(3196, 3196, 3210, 3210);
    let line = line_of_walk(&collision, 0, 3200, 3200, 3202, 3202, 1, 1, 1, 1, 0);
    let tiles: Vec<(u32, u32)> = line.iter().map(|w| ((w >> 14) & 0x3fff, w & 0x3fff)).collect();
    assert_eq!(tiles, vec![(3200, 3201), (3201, 3201), (3201, 3202), (3202, 3202)]);
}

#[test]
fn test_line_west_walk_tiles() {
    let collision = build_collision_map(3190, 3196, 3210, 3210);
    let line = line_of_walk(&collision, 0, 3200, 3200, 3196, 3201, 1, 1, 1, 1, 0);
    let tiles: Vec<(u32, u32)> = line.iter().map(|w| ((w >> 14) & 0x3fff, w & 0x3fff)).collect();
    assert_eq!(tiles, vec![(3199, 3200), (3198, 3200), (3198, 3201), (3197, 3201), (3196, 3201)]);
}
