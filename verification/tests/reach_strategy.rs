use rsmod::rsmod::collision::collision::CollisionFlagMap;
use rsmod::rsmod::flag::block_flag;
use rsmod::rsmod::flag::collision_flag;
use rsmod::rsmod::reach::reach_strategy::ReachStrategy;
use rsmod::rsmod::reach::rectangle_boundary::collides;

const ARGS: [[i32; 4]; 9] = [
    [3203, 3203, 1, 1],
    [3203, 3203, 1, 2],
    [3203, 3203, 1, 3],
    [3203, 3203, 2, 1],
    [3203, 3203, 2, 2],
    [3203, 3203, 2, 3],
    [3203, 3203, 3, 1],
    [3203, 3203, 3, 2],
    [3203, 3203, 3, 3],
];

fn build_collision_map(x1: i32, z1: i32, x2: i32, z2: i32) -> CollisionFlagMap {
    let mut collision = CollisionFlagMap::new();
    for y in 0..4 {
        for z in z1.min(z2)..=z1.max(z2) {
            for x in x1.min(x2)..=x1.max(x2) {
                collision.allocate_if_absent(x, z, y);
            }
        }
    }
    collision
}

fn flag(
    flags: &mut CollisionFlagMap,
    base_x: i32,
    base_z: i32,
    width: i32,
    height: i32,
    mask: u32,
) {
    for y in 0..4 {
        for z in 0..height {
            for x in 0..width {
                flags.set(base_x + x, base_z + z, y, mask);
            }
        }
    }
}

/**
 * Test that object rotations are taken into account within [ReachStrategy.reached]
 * and do not rely on external modifications. For example, given the parameters of
 * an object in coordinates (3203, 3203) with a dimension of 3 x 1 (width x height),
 * the following test should pass:
 *
 * Object rotation of [0] or [2]. (normal)
 * ```
 * --------
 * --------
 * --------
 * ---ooo--
 * --o   o-
 * ---ooo--
 * --------
 * --------
 * ```
 * Where:
 * - Area starts from bottom-left and makes its way to top-right. (3200,3200 - 3207,3207)
 * - ' ' (whitespace) are the tiles occupied by the rotated object.
 * - 'o' are the tiles that successfully pass [ReachStrategy.reached].
 * - '-' represents every other tile in the area. (in this case a zone, or 8x8 tile area)
 */
#[test]
fn test_reach_rotated_loc_normal() {
    for [obj_x, obj_z, width, height] in ARGS {
        let min_x = obj_x - 16;
        let min_z = obj_z - 16;
        let max_x = obj_x + 16;
        let max_z = obj_z + 16;

        {
            let mut collision = build_collision_map(min_x, min_z, max_x, max_z);
            flag(
                &mut collision,
                obj_x,
                obj_z,
                width,
                height,
                collision_flag::LOC,
            );

            let reached = |src_x: i32, src_z: i32, rot: u8, block_access_flags: u8| -> bool {
                ReachStrategy::reached(
                    &collision,
                    0,
                    src_x,
                    src_z,
                    obj_x,
                    obj_z,
                    width as u8,
                    height as u8,
                    1,
                    rot,
                    -2, // Use rectangular exclusive strategy
                    block_access_flags,
                )
            };

            for x in 0..width {
                // Test coming from south tiles.
                assert!(reached(obj_x + x, obj_z - 1, 0, 0));
                assert!(reached(obj_x + x, obj_z - 1, 2, 0));
                // Test coming from north tiles.
                assert!(reached(obj_x + x, obj_z + height, 0, 0));
                assert!(reached(obj_x + x, obj_z + height, 2, 0));
                // Test coming from south tiles with access blocked.
                assert!(!reached(
                    obj_x + x,
                    obj_z - 1,
                    0,
                    block_flag::SOUTH
                ));
                assert!(!reached(
                    obj_x + x,
                    obj_z - 1,
                    2,
                    block_flag::NORTH
                ));
                // Test coming from north tiles with access blocked.
                assert!(!reached(
                    obj_x + x,
                    obj_z + height,
                    0,
                    block_flag::NORTH
                ));
                assert!(!reached(
                    obj_x + x,
                    obj_z + height,
                    2,
                    block_flag::SOUTH
                ));
            }

            for z in 0..height {
                // Test coming from west tiles.
                assert!(reached(obj_x - 1, obj_z + z, 0, 0));
                assert!(reached(obj_x - 1, obj_z + z, 2, 0));
                // Test coming from east tiles.
                assert!(reached(obj_x + width, obj_z + z, 0, 0));
                assert!(reached(obj_x + width, obj_z + z, 2, 0));
                // Test coming from west tiles with access blocked.
                assert!(!reached(
                    obj_x - 1,
                    obj_z + z,
                    0,
                    block_flag::WEST
                ));
                assert!(!reached(
                    obj_x - 1,
                    obj_z + z,
                    2,
                    block_flag::EAST
                ));
                // Test coming from east tiles with access blocked.
                assert!(!reached(
                    obj_x + width,
                    obj_z + z,
                    0,
                    block_flag::EAST
                ));
                assert!(!reached(
                    obj_x + width,
                    obj_z + z,
                    2,
                    block_flag::WEST
                ));
            }
        }
    }
}

/**
 * Test that object rotations are taken into account within [ReachStrategy.reached]
 * and do not rely on external modifications. For example, given the parameters of
 * an object in coordinates (3203, 3203) with a dimension of 3 x 1 (width x height),
 * the following test should pass:
 *
 * Object rotation of [1] or [3]. (flipped)
 * ```
 * --------
 * ---o----
 * --o o---
 * --o o---
 * --o o---
 * ---o----
 * --------
 * --------
 * ```
 * Where:
 * - Area starts from bottom-left and makes its way to top-right. (3200,3200 - 3207,3207)
 * - ' ' (whitespace) are the tiles occupied by the rotated object.
 * - 'o' are the tiles that successfully pass [ReachStrategy.reached].
 * - '-' represents every other tile in the area. (in this case a zone, or 8x8 tile area)
 */
#[test]
fn test_reach_rotated_loc_flipped() {
    for [obj_x, obj_z, width, height] in ARGS {
        let min_x = obj_x - 16;
        let min_z = obj_z - 16;
        let max_x = obj_x + 16;
        let max_z = obj_z + 16;

        {
            let mut collision = build_collision_map(min_x, min_z, max_x, max_z);
            flag(
                &mut collision,
                obj_x,
                obj_z,
                width,
                height,
                collision_flag::LOC,
            );

            let reached = |src_x: i32, src_z: i32, rot: u8, block_access_flags: u8| -> bool {
                ReachStrategy::reached(
                    &collision,
                    0,
                    src_x,
                    src_z,
                    obj_x,
                    obj_z,
                    width as u8,
                    height as u8,
                    1,
                    rot,
                    -2, // Use rectangular exclusive strategy
                    block_access_flags,
                )
            };

            for x in 0..height {
                // width and height are swapped
                // Test coming from south tiles.
                assert!(reached(obj_x + x, obj_z - 1, 1, 0));
                assert!(reached(obj_x + x, obj_z - 1, 3, 0));
                // Test coming from north tiles.
                assert!(reached(obj_x + x, obj_z + width, 1, 0)); // width and height are swapped
                assert!(reached(obj_x + x, obj_z + width, 3, 0)); // width and height are swapped

                // Test coming from south tiles with access blocked.
                assert!(!reached(
                    obj_x + x,
                    obj_z - 1,
                    1,
                    block_flag::EAST
                ));
                assert!(!reached(
                    obj_x + x,
                    obj_z - 1,
                    3,
                    block_flag::WEST
                ));
                // Test coming from north tiles with access blocked.
                assert!(!reached(
                    obj_x + x,
                    obj_z + width, // width and height are swapped
                    1,
                    block_flag::WEST
                ));
                assert!(!reached(
                    obj_x + x,
                    obj_z + width, // width and height are swapped
                    3,
                    block_flag::EAST
                ));
            }

            for z in 0..width {
                // width and height are swapped
                // Test coming from west tiles.
                assert!(reached(obj_x - 1, obj_z + z, 1, 0));
                assert!(reached(obj_x - 1, obj_z + z, 3, 0));
                // Test coming from east tiles.
                assert!(reached(obj_x + height, obj_z + z, 1, 0)); // width and height are swapped
                assert!(reached(obj_x + height, obj_z + z, 3, 0)); // width and height are swapped

                // Test coming from west tiles with access blocked.
                assert!(!reached(
                    obj_x - 1,
                    obj_z + z,
                    1,
                    block_flag::SOUTH
                ));
                assert!(!reached(
                    obj_x - 1,
                    obj_z + z,
                    3,
                    block_flag::NORTH
                ));
                // Test coming from east tiles with access blocked.
                assert!(!reached(
                    obj_x + height, // width and height are swapped
                    obj_z + z,
                    1,
                    block_flag::NORTH
                ));
                assert!(!reached(
                    obj_x + height, // width and height are swapped
                    obj_z + z,
                    3,
                    block_flag::SOUTH
                ));
            }
        }
    }
}

const BLOCK_ACCESS_FLAG_TEST_ARGS: [[i32; 3]; 4] = [
    [0, 1, 1],  // north
    [1, 0, 2],  // east
    [0, -1, 4], // south
    [-1, 0, 8], // west
];

const DIMENSIONS_TEST_ARGS: [[i32; 2]; 9] = [
    [1, 1],
    [1, 2],
    [1, 3],
    [2, 1],
    [2, 2],
    [2, 3],
    [3, 1],
    [3, 2],
    [3, 3],
];

const WALL_STRAIGHT_STRATEGY_TEST_ARGS: [[i32; 4]; 8] = [
    [0, 0, 1, collision_flag::WALL_SOUTH as i32],
    [0, 0, -1, collision_flag::WALL_NORTH as i32],
    [1, -1, 0, collision_flag::WALL_EAST as i32],
    [1, 1, 0, collision_flag::WALL_WEST as i32],
    [2, 0, 1, collision_flag::WALL_SOUTH as i32],
    [2, 0, -1, collision_flag::WALL_NORTH as i32],
    [3, -1, 0, collision_flag::WALL_EAST as i32],
    [3, 1, 0, collision_flag::WALL_WEST as i32],
];

const WALL_L_STRATEGY_TEST_ARGS: [[i32; 4]; 8] = [
    [0, 1, 0, collision_flag::WALL_WEST as i32],
    [0, 0, -1, collision_flag::WALL_NORTH as i32],
    [1, -1, 0, collision_flag::WALL_EAST as i32],
    [1, 0, -1, collision_flag::BLOCK_NORTH as i32],
    [2, -1, 0, collision_flag::BLOCK_EAST as i32],
    [2, 0, 1, collision_flag::BLOCK_NORTH as i32],
    [3, 0, 1, collision_flag::BLOCK_SOUTH as i32],
    [3, 1, 0, collision_flag::BLOCK_WEST as i32],
];

const WALLDECOR_DIAGONAL_OFFSET_STRATEGY_TEST_ARGS: [[i32; 4]; 8] = [
    [0, 1, 0, collision_flag::WALL_WEST as i32],
    [0, 0, -1, collision_flag::WALL_NORTH as i32],
    [1, -1, 0, collision_flag::WALL_EAST as i32],
    [1, 0, -1, collision_flag::WALL_NORTH as i32],
    [2, -1, 0, collision_flag::WALL_EAST as i32],
    [2, 0, 1, collision_flag::WALL_SOUTH as i32],
    [3, 1, 0, collision_flag::WALL_WEST as i32],
    [3, 0, 1, collision_flag::WALL_SOUTH as i32],
];

#[test]
fn test_strategy_wall_decor_shape_6() {
    let src_x = 3200;
    let src_z = 3200;
    let obj_x = 3200;
    let obj_z = 3200;

    {
        let mut collision = build_collision_map(src_x, src_z, obj_x, obj_z);

        for [rotation, dir_x, dir_z, flag] in WALLDECOR_DIAGONAL_OFFSET_STRATEGY_TEST_ARGS {
            collision.set(obj_x + dir_x, obj_z + dir_z, 0, flag as u32);
            let reached = ReachStrategy::reached(
                &collision,
                0,
                src_x + dir_x,
                obj_z + dir_z,
                obj_x,
                obj_z,
                1,
                1,
                1,
                rotation as u8,
                6,
                0,
            );
            assert!(!reached);

            collision.set(obj_x + dir_x, obj_z + dir_z, 0, collision_flag::OPEN);
            let reached = ReachStrategy::reached(
                &collision,
                0,
                src_x + dir_x,
                obj_z + dir_z,
                obj_x,
                obj_z,
                1,
                1,
                1,
                rotation as u8,
                6,
                0,
            );
            assert!(reached);
        }
    }
}

#[test]
fn test_strategy_wall_decor_shape_7() {
    let src_x = 3200;
    let src_z = 3200;
    let obj_x = 3200;
    let obj_z = 3200;

    {
        let mut collision = build_collision_map(src_x, src_z, obj_x, obj_z);

        for [rotation, dir_x, dir_z, flag] in WALLDECOR_DIAGONAL_OFFSET_STRATEGY_TEST_ARGS {
            collision.set(obj_x + dir_x, obj_z + dir_z, 0, flag as u32);
            let reached = ReachStrategy::reached(
                &collision,
                0,
                src_x + dir_x,
                obj_z + dir_z,
                obj_x,
                obj_z,
                1,
                1,
                1,
                ReachStrategy::altered_rotation(rotation as u8, 7),
                7,
                0,
            );
            assert!(!reached);

            collision.set(obj_x + dir_x, obj_z + dir_z, 0, collision_flag::OPEN);
            let reached = ReachStrategy::reached(
                &collision,
                0,
                src_x + dir_x,
                obj_z + dir_z,
                obj_x,
                obj_z,
                1,
                1,
                1,
                ReachStrategy::altered_rotation(rotation as u8, 7),
                7,
                0,
            );
            assert!(reached);
        }
    }
}

#[test]
fn test_strategy_wall_decor_shape_8() {
    let src_x = 3200;
    let src_z = 3200;
    let obj_x = 3200;
    let obj_z = 3200;

    {
        let mut collision = build_collision_map(src_x, src_z, obj_x, obj_z);

        for [rotation, dir_x, dir_z, flag] in WALLDECOR_DIAGONAL_OFFSET_STRATEGY_TEST_ARGS {
            collision.set(obj_x + dir_x, obj_z + dir_z, 0, flag as u32);
            let reached = ReachStrategy::reached(
                &collision,
                0,
                src_x + dir_x,
                obj_z + dir_z,
                obj_x,
                obj_z,
                1,
                1,
                1,
                rotation as u8,
                8,
                0,
            );
            assert!(!reached);

            collision.set(obj_x + dir_x, obj_z + dir_z, 0, collision_flag::OPEN);
            let reached = ReachStrategy::reached(
                &collision,
                0,
                src_x + dir_x,
                obj_z + dir_z,
                obj_x,
                obj_z,
                1,
                1,
                1,
                rotation as u8,
                8,
                0,
            );
            assert!(reached);
        }
    }
}

#[test]
fn test_strategy_wall_no_flags_shape_0() {
    let src_x = 3200;
    let src_z = 3200;
    let obj_x = 3200;
    let obj_z = 3200;

    {
        let mut collision = build_collision_map(src_x, src_z, obj_x, obj_z);

        for [rotation, dir_x, dir_z, flag] in WALL_STRAIGHT_STRATEGY_TEST_ARGS {
            collision.set(obj_x + dir_x, obj_z + dir_z, 0, flag as u32);
            let reached = ReachStrategy::reached(
                &collision,
                0,
                obj_x + dir_x,
                obj_z + dir_z,
                obj_x,
                obj_z,
                1,
                1,
                1,
                rotation as u8,
                0,
                0,
            );
            assert!(!reached);

            let reached = ReachStrategy::reached(
                &collision,
                0,
                obj_x,
                obj_z,
                obj_x + dir_x,
                obj_z + dir_z,
                1,
                1,
                1,
                rotation as u8,
                0,
                0,
            );
            assert!(reached);

            collision.remove(obj_x + dir_x, obj_z + dir_z, 0, flag as u32);
        }
    }
}

#[test]
fn test_strategy_wall_no_flags_shape_2() {
    let src_x = 3200;
    let src_z = 3200;
    let obj_x = 3200;
    let obj_z = 3200;

    {
        let mut collision = build_collision_map(src_x, src_z, obj_x, obj_z);

        for [rotation, dir_x, dir_z, flag] in WALL_L_STRATEGY_TEST_ARGS {
            collision.set(obj_x + dir_x, obj_z + dir_z, 0, flag as u32);
            let reached = ReachStrategy::reached(
                &collision,
                0,
                obj_x + dir_x,
                obj_z + dir_z,
                obj_x,
                obj_z,
                1,
                1,
                1,
                rotation as u8,
                2,
                0,
            );
            assert!(!reached);

            let reached = ReachStrategy::reached(
                &collision,
                0,
                obj_x,
                obj_z,
                obj_x + dir_x,
                obj_z + dir_z,
                1,
                1,
                1,
                rotation as u8,
                2,
                0,
            );
            assert!(reached);

            collision.remove(obj_x + dir_x, obj_z + dir_z, 0, flag as u32);
        }
    }
}

#[test]
fn test_strategy_wall_no_flags_shape_9() {
    let src_x = 3200;
    let src_z = 3200;
    let obj_x = 3200;
    let obj_z = 3200;

    {
        let mut collision = build_collision_map(src_x, src_z, obj_x, obj_z);

        for [rotation, dir_x, dir_z, flag] in WALL_STRAIGHT_STRATEGY_TEST_ARGS {
            collision.set(obj_x + dir_x, obj_z + dir_z, 0, flag as u32);
            let reached = ReachStrategy::reached(
                &collision,
                0,
                obj_x + dir_x,
                obj_z + dir_z,
                obj_x,
                obj_z,
                1,
                1,
                1,
                rotation as u8,
                9,
                0,
            );
            assert!(!reached);

            let reached = ReachStrategy::reached(
                &collision,
                0,
                obj_x,
                obj_z,
                obj_x + dir_x,
                obj_z + dir_z,
                1,
                1,
                1,
                rotation as u8,
                9,
                0,
            );
            assert!(reached);

            collision.remove(obj_x + dir_x, obj_z + dir_z, 0, flag as u32);
        }
    }
}

#[test]
fn test_strategy_wall_with_flags_shape_0() {
    let src_x = 3200;
    let src_z = 3200;
    let obj_x = 3200;
    let obj_z = 3200;

    {
        let mut collision = build_collision_map(src_x, src_z, obj_x, obj_z);

        for [rotation, dir_x, dir_z, flag] in WALL_STRAIGHT_STRATEGY_TEST_ARGS {
            collision.set(obj_x + dir_x, obj_z + dir_z, 0, flag as u32);
            let reached = ReachStrategy::reached(
                &collision,
                0,
                src_x + dir_x,
                obj_z + dir_z,
                obj_x,
                obj_z,
                1,
                1,
                1,
                rotation as u8,
                0,
                0,
            );
            assert!(!reached);

            collision.set(obj_x + dir_x, obj_z + dir_z, 0, collision_flag::OPEN);
            let reached = ReachStrategy::reached(
                &collision,
                0,
                src_x + dir_x,
                obj_z + dir_z,
                obj_x,
                obj_z,
                1,
                1,
                1,
                rotation as u8,
                0,
                0,
            );
            assert!(reached);

            collision.remove(obj_x + dir_x, obj_z + dir_z, 0, flag as u32);
        }
    }
}

#[test]
fn test_strategy_wall_with_flags_shape_2() {
    let src_x = 3200;
    let src_z = 3200;
    let obj_x = 3200;
    let obj_z = 3200;

    {
        let mut collision = build_collision_map(src_x, src_z, obj_x, obj_z);

        for [rotation, dir_x, dir_z, flag] in WALL_L_STRATEGY_TEST_ARGS {
            collision.set(obj_x + dir_x, obj_z + dir_z, 0, flag as u32);
            let reached = ReachStrategy::reached(
                &collision,
                0,
                src_x + dir_x,
                obj_z + dir_z,
                obj_x,
                obj_z,
                1,
                1,
                1,
                rotation as u8,
                2,
                0,
            );
            assert!(!reached);

            collision.set(obj_x + dir_x, obj_z + dir_z, 0, collision_flag::OPEN);
            let reached = ReachStrategy::reached(
                &collision,
                0,
                src_x + dir_x,
                obj_z + dir_z,
                obj_x,
                obj_z,
                1,
                1,
                1,
                rotation as u8,
                2,
                0,
            );
            assert!(reached);

            collision.remove(obj_x + dir_x, obj_z + dir_z, 0, flag as u32);
        }
    }
}

#[test]
fn test_strategy_wall_with_flags_shape_9() {
    let src_x = 3200;
    let src_z = 3200;
    let obj_x = 3200;
    let obj_z = 3200;

    {
        let mut collision = build_collision_map(src_x, src_z, obj_x, obj_z);

        for [rotation, dir_x, dir_z, flag] in WALL_STRAIGHT_STRATEGY_TEST_ARGS {
            collision.set(obj_x + dir_x, obj_z + dir_z, 0, flag as u32);
            let reached = ReachStrategy::reached(
                &collision,
                0,
                src_x + dir_x,
                obj_z + dir_z,
                obj_x,
                obj_z,
                1,
                1,
                1,
                rotation as u8,
                9,
                0,
            );
            assert!(!reached);

            collision.set(obj_x + dir_x, obj_z + dir_z, 0, collision_flag::OPEN);
            let reached = ReachStrategy::reached(
                &collision,
                0,
                src_x + dir_x,
                obj_z + dir_z,
                obj_x,
                obj_z,
                1,
                1,
                1,
                rotation as u8,
                9,
                0,
            );
            assert!(reached);

            collision.remove(obj_x + dir_x, obj_z + dir_z, 0, flag as u32);
        }
    }
}

#[test]
fn test_strategy_divided_by_loc() {
    let src_x = 3200;
    let src_z = 3200;
    let obj_x = 3200;
    let obj_z = 3201;

    {
        let mut collision = build_collision_map(src_x, src_z, obj_x, obj_z);

        // test blocked north
        collision.set(src_x, src_z, 0, collision_flag::WALL_NORTH);
        assert!(!ReachStrategy::reached(
            &collision, 0, src_x, src_z, obj_x, obj_z, 1, 1, 1, 0, 10, 0
        ));

        // test free east
        collision.set(src_x, src_z, 0, collision_flag::WALL_EAST);
        assert!(ReachStrategy::reached(
            &collision, 0, src_x, src_z, obj_x, obj_z, 1, 1, 1, 0, 10, 0
        ));

        // test free south
        collision.set(src_x, src_z, 0, collision_flag::WALL_SOUTH);
        assert!(ReachStrategy::reached(
            &collision, 0, src_x, src_z, obj_x, obj_z, 1, 1, 1, 0, 10, 0
        ));

        // test free west
        collision.set(src_x, src_z, 0, collision_flag::WALL_WEST);
        assert!(ReachStrategy::reached(
            &collision, 0, src_x, src_z, obj_x, obj_z, 1, 1, 1, 0, 10, 0
        ));

        // test free northwest
        collision.set(src_x, src_z, 0, collision_flag::WALL_NORTH_WEST);
        assert!(ReachStrategy::reached(
            &collision, 0, src_x, src_z, obj_x, obj_z, 1, 1, 1, 0, 10, 0
        ));

        // test free northeast
        collision.set(src_x, src_z, 0, collision_flag::WALL_NORTH_EAST);
        assert!(ReachStrategy::reached(
            &collision, 0, src_x, src_z, obj_x, obj_z, 1, 1, 1, 0, 10, 0
        ));

        // test free southeast
        collision.set(src_x, src_z, 0, collision_flag::WALL_SOUTH_EAST);
        assert!(ReachStrategy::reached(
            &collision, 0, src_x, src_z, obj_x, obj_z, 1, 1, 1, 0, 10, 0
        ));

        // test free southwest
        collision.set(src_x, src_z, 0, collision_flag::WALL_SOUTH_WEST);
        assert!(ReachStrategy::reached(
            &collision, 0, src_x, src_z, obj_x, obj_z, 1, 1, 1, 0, 10, 0
        ));
    }
}

#[test]
fn test_strategy_divided_by_wall() {
    let src_x = 3200;
    let src_z = 3200;
    let obj_x = 3200;
    let obj_z = 3201;

    {
        let mut collision = build_collision_map(src_x, src_z, obj_x, obj_z);

        // test blocked north
        collision.set(src_x, src_z, 0, collision_flag::WALL_NORTH);
        assert!(!ReachStrategy::reach_rectangle(
            &collision, 0, src_x, src_z, obj_x, obj_z, 1, 1, 1, 0, 0
        ));

        // test free east
        collision.set(src_x, src_z, 0, collision_flag::WALL_EAST);
        assert!(ReachStrategy::reach_rectangle(
            &collision, 0, src_x, src_z, obj_x, obj_z, 1, 1, 1, 0, 0
        ));

        // test free south
        collision.set(src_x, src_z, 0, collision_flag::WALL_SOUTH);
        assert!(ReachStrategy::reach_rectangle(
            &collision, 0, src_x, src_z, obj_x, obj_z, 1, 1, 1, 0, 0
        ));

        // test free west
        collision.set(src_x, src_z, 0, collision_flag::WALL_WEST);
        assert!(ReachStrategy::reach_rectangle(
            &collision, 0, src_x, src_z, obj_x, obj_z, 1, 1, 1, 0, 0
        ));

        // test free northwest
        collision.set(src_x, src_z, 0, collision_flag::WALL_NORTH_WEST);
        assert!(ReachStrategy::reach_rectangle(
            &collision, 0, src_x, src_z, obj_x, obj_z, 1, 1, 1, 0, 0
        ));

        // test free northeast
        collision.set(src_x, src_z, 0, collision_flag::WALL_NORTH_EAST);
        assert!(ReachStrategy::reach_rectangle(
            &collision, 0, src_x, src_z, obj_x, obj_z, 1, 1, 1, 0, 0
        ));

        // test free southeast
        collision.set(src_x, src_z, 0, collision_flag::WALL_SOUTH_EAST);
        assert!(ReachStrategy::reach_rectangle(
            &collision, 0, src_x, src_z, obj_x, obj_z, 1, 1, 1, 0, 0
        ));

        // test free southwest
        collision.set(src_x, src_z, 0, collision_flag::WALL_SOUTH_WEST);
        assert!(ReachStrategy::reach_rectangle(
            &collision, 0, src_x, src_z, obj_x, obj_z, 1, 1, 1, 0, 0
        ));
    }
}

#[test]
fn test_strategy_block_access_flag() {
    let obj_x = 3205;
    let obj_z = 3205;

    let cardinal = [[0, -1], [0, 1], [-1, 0], [1, 0]];

    for [off_x, off_z, access_flag] in BLOCK_ACCESS_FLAG_TEST_ARGS {
        {
            let mut collision = build_collision_map(obj_x, obj_z, obj_x, obj_z);
            flag(&mut collision, obj_x, obj_z, 1, 1, collision_flag::LOC);

            for [dx, dz] in cardinal {
                let src_x = obj_x + dx;
                let src_z = obj_z + dz;
                collision.allocate_if_absent(src_x, src_z, 0);

                let reached = ReachStrategy::reach_rectangle(
                    &collision,
                    0,
                    src_x,
                    src_z,
                    obj_x,
                    obj_z,
                    1,
                    1,
                    1,
                    0,
                    access_flag as u8,
                );

                if dx == off_x && dz == off_z {
                    assert!(!reached);
                } else {
                    assert!(reached);
                }
            }
        }
    }
}

#[test]
fn test_strategy_block_access_flag_exclusive() {
    let obj_x = 3205;
    let obj_z = 3205;

    let cardinal = [[0, -1], [0, 1], [-1, 0], [1, 0]];

    for [off_x, off_z, access_flag] in BLOCK_ACCESS_FLAG_TEST_ARGS {
        {
            let mut collision = build_collision_map(obj_x, obj_z, obj_x, obj_z);
            flag(&mut collision, obj_x, obj_z, 1, 1, collision_flag::LOC);

            for [dx, dz] in cardinal {
                let src_x = obj_x + dx;
                let src_z = obj_z + dz;
                collision.allocate_if_absent(src_x, src_z, 0);

                let reached = ReachStrategy::reach_exclusive_rectangle(
                    &collision,
                    0,
                    src_x,
                    src_z,
                    obj_x,
                    obj_z,
                    1,
                    1,
                    1,
                    0,
                    access_flag as u8,
                );

                if dx == off_x && dz == off_z {
                    assert!(!reached);
                } else {
                    assert!(reached);
                }
            }
        }
    }
}

#[test]
fn test_strategy_reach_with_dimensions() {
    for [width, height] in DIMENSIONS_TEST_ARGS {
        let obj_x = 3202 + width;
        let obj_z = 3205;

        {
            let mut collision =
                build_collision_map(obj_x - 1, obj_z - 1, obj_x + width, obj_z + height);
            flag(
                &mut collision,
                obj_x,
                obj_z,
                width,
                height,
                collision_flag::LOC,
            );

            let reached1 = ReachStrategy::reach_rectangle(
                &collision,
                0,
                obj_x - 2,
                obj_z - 1,
                obj_x,
                obj_z,
                1,
                width as u8,
                height as u8,
                0,
                0,
            );
            assert!(!reached1);

            let reached2 = ReachStrategy::reach_rectangle(
                &collision,
                0,
                obj_x - 1,
                obj_z - 2,
                obj_x,
                obj_z,
                1,
                width as u8,
                height as u8,
                0,
                0,
            );
            assert!(!reached2);

            for x in -1..width + 1 {
                for z in -1..height + 1 {
                    let reached3 = ReachStrategy::reach_rectangle(
                        &collision,
                        0,
                        obj_x + x,
                        obj_z + z,
                        obj_x,
                        obj_z,
                        1,
                        width as u8,
                        height as u8,
                        0,
                        0,
                    );
                    let diagonal = (z == -1 && x == -1)
                        || (z == height && x == width)
                        || (z == -1 && x == width)
                        || (z == height && x == -1);
                    if diagonal {
                        assert!(!reached3);
                        continue;
                    }
                    assert!(reached3);
                }
            }
        }
    }
}

#[test]
fn test_strategy_reach_with_dimensions_exclusive() {
    for [width, height] in DIMENSIONS_TEST_ARGS {
        let obj_x = 3202 + width;
        let obj_z = 3205;

        {
            let mut collision =
                build_collision_map(obj_x - 1, obj_z - 1, obj_x + width, obj_z + height);

            flag(
                &mut collision,
                obj_x,
                obj_z,
                width,
                height,
                collision_flag::LOC,
            );

            let reached1 = ReachStrategy::reach_exclusive_rectangle(
                &collision,
                0,
                obj_x - 2,
                obj_z - 1,
                obj_x,
                obj_z,
                1,
                width as u8,
                height as u8,
                0,
                0,
            );
            assert!(!reached1);

            let reached2 = ReachStrategy::reach_exclusive_rectangle(
                &collision,
                0,
                obj_x - 1,
                obj_z - 2,
                obj_x,
                obj_z,
                1,
                width as u8,
                height as u8,
                0,
                0,
            );
            assert!(!reached2);

            for x in -1..width + 1 {
                for z in -1..height + 1 {
                    let reached3 = ReachStrategy::reach_exclusive_rectangle(
                        &collision,
                        0,
                        obj_x + x,
                        obj_z + z,
                        obj_x,
                        obj_z,
                        1,
                        width as u8,
                        height as u8,
                        0,
                        0,
                    );
                    let diagonal = (z == -1 && x == -1)
                        || (z == height && x == width)
                        || (z == -1 && x == width)
                        || (z == height && x == -1);
                    if diagonal {
                        assert!(!reached3);
                        continue;
                    }
                    let in_loc_area = 0 <= x && width > x && 0 <= z && height > z;
                    if in_loc_area {
                        assert!(!reached3);
                        continue;
                    }
                    assert!(reached3);
                }
            }
        }
    }
}

#[test]
fn test_reach_rectangle_is_overlap_or_exclusive() {
    let flags = build_collision_map(3190, 3190, 3215, 3215);
    for sx in 3196..3210 {
        for sz in 3196..3210 {
            for angle in 0..4u8 {
                let (w, h) = if angle % 2 == 0 { (3u8, 2u8) } else { (2u8, 3u8) };
                let whole = ReachStrategy::reach_rectangle(&flags, 0, sx, sz, 3200, 3200, 1, 3, 2, angle, 0);
                let side = ReachStrategy::reach_exclusive_rectangle(&flags, 0, sx, sz, 3200, 3200, 1, 3, 2, angle, 0);
                let overlap = collides(sx, sz, 3200, 3200, 1, 1, w, h);
                assert_eq!(whole, overlap || side);
            }
        }
    }
}

#[test]
fn test_reach_decor_without_offset_is_offset_turned_twice() {
    let flags = build_collision_map(3190, 3190, 3215, 3215);
    for sx in 3198..3203 {
        for sz in 3198..3203 {
            for angle in 0..8u8 {
                let turned = (angle + 2) & 3;
                assert_eq!(
                    ReachStrategy::reach_wall_decor_1(&flags, 0, sx, sz, 3200, 3200, 7, angle),
                    ReachStrategy::reach_wall_decor_1(&flags, 0, sx, sz, 3200, 3200, 6, turned)
                );
            }
        }
    }
}

#[test]
fn test_reach_shapes_without_angle_accept_any_angle() {
    let flags = build_collision_map(3190, 3190, 3215, 3215);
    // A diagonal wall corner (shape 1) has no reach rule of its own: no angle
    // is read and the answer is the same for every angle.
    for angle in [0u8, 4, 9, 200] {
        assert!(!ReachStrategy::reach_wall_1(&flags, 0, 3199, 3200, 3200, 3200, 1, angle));
        assert!(ReachStrategy::reached(&flags, 0, 3200, 3200, 3200, 3200, 1, 1, 1, angle, 1, 0));
    }
}
