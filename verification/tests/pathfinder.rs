use rsmod::rsmod::collision::collision::CollisionFlagMap;
use rsmod::rsmod::collision::collision_strategy::CollisionType;
use rsmod::rsmod::flag::collision_flag;
use rsmod::rsmod::pathfinder::PathFinder;

fn build_collision_map(x1: i32, z1: i32, x2: i32, z2: i32) -> CollisionFlagMap {
    let mut collision = CollisionFlagMap::new();
    for y in 0..4 {
        for z in z1.min(z2)..=z1.max(z2) {
            for x in x1.min(x2)..=x1.max(x2) {
                collision.allocate_if_absent(x, z, y);
            }
        }
    }
    collision
}

fn flag(
    flags: &mut CollisionFlagMap,
    base_x: i32,
    base_z: i32,
    width: i32,
    height: i32,
    mask: u32,
) {
    for y in 0..4 {
        for z in 0..height {
            for x in 0..width {
                flags.set(base_x + x, base_z + z, y, mask);
            }
        }
    }
}

#[test]
fn test_pf_coord_matches_level_input() {
    let src_x = 3200;
    let src_z = 3200;
    let dest_x = 3201;
    let dest_z = 3200;

    let mut pf = PathFinder::new();

    {
        let collision = build_collision_map(src_x, src_z, dest_x, dest_z);

        let mut route = pf.find_path(
            &collision,
            0,
            src_x,
            src_z,
            dest_x,
            dest_z,
            1,
            1,
            1,
            0,
            -1,
            true,
            0,
            25,
            &CollisionType::Normal,
        );
        assert!(!route.is_empty());
        for index in 0..route.len() {
            assert_eq!(0, (route[index] >> 28) & 0x3);
        }

        route = pf.find_path(
            &collision,
            1,
            src_x,
            src_z,
            dest_x,
            dest_z,
            1,
            1,
            1,
            0,
            -1,
            true,
            0,
            25,
            &CollisionType::Normal,
        );
        assert!(!route.is_empty());
        for index in 0..route.len() {
            assert_eq!(1, (route[index] >> 28) & 0x3);
        }

        route = pf.find_path(
            &collision,
            2,
            src_x,
            src_z,
            dest_x,
            dest_z,
            1,
            1,
            1,
            0,
            -1,
            true,
            0,
            25,
            &CollisionType::Normal,
        );
        assert!(!route.is_empty());
        for index in 0..route.len() {
            assert_eq!(2, (route[index] >> 28) & 0x3);
        }

        route = pf.find_path(
            &collision,
            3,
            src_x,
            src_z,
            dest_x,
            dest_z,
            1,
            1,
            1,
            0,
            -1,
            true,
            0,
            25,
            &CollisionType::Normal,
        );
        assert!(!route.is_empty());
        for index in 0..route.len() {
            assert_eq!(3, (route[index] >> 28) & 0x3);
        }
    }
}

#[test]
fn test_pf_surrounded_by_locs_allow_move_near() {
    let src_x = 3200;
    let src_z = 3200;
    let dest_x = 3205;
    let dest_z = 3200;

    let mut pf = PathFinder::new();

    {
        let mut collision = build_collision_map(src_x, src_z, dest_x, dest_z);

        flag(
            &mut collision,
            src_x - 1,
            src_z - 1,
            3,
            3,
            collision_flag::LOC,
        );
        collision.set(src_x, src_z, 0, collision_flag::OPEN); // Remove collision flag from source tile

        let route = pf.find_path(
            &collision,
            0,
            src_x,
            src_z,
            dest_x,
            dest_z,
            1,
            1,
            1,
            0,
            -1,
            true,
            0,
            25,
            &CollisionType::Normal,
        );
        // expect(route.alternative).toBeTruthy();
        assert_eq!(route.len(), 0);
    }
}

#[test]
fn test_pf_surrounded_by_locs_no_move_near() {
    let src_x = 3200;
    let src_z = 3200;
    let dest_x = 3205;
    let dest_z = 3200;

    let mut pf = PathFinder::new();

    {
        let mut collision = build_collision_map(src_x, src_z, dest_x, dest_z);

        flag(
            &mut collision,
            src_x - 1,
            src_z - 1,
            3,
            3,
            collision_flag::LOC,
        );
        collision.set(src_x, src_z, 0, collision_flag::OPEN); // Remove collision flag from source tile

        let route = pf.find_path(
            &collision,
            0,
            src_x,
            src_z,
            dest_x,
            dest_z,
            1,
            1,
            1,
            0,
            -1,
            false,
            0,
            25,
            &CollisionType::Normal,
        );
        // expect(route.failed).toBeTruthy();
        assert_eq!(route.len(), 0);
    }
}

#[test]
fn test_pf_single_exit_point() {
    let src_x = 3200;
    let src_z = 3200;
    let dest_x = 3200;
    let dest_z = 3205;

    let mut pf = PathFinder::new();

    {
        let mut collision = build_collision_map(src_x, src_z, dest_x, dest_z);

        flag(
            &mut collision,
            src_x - 1,
            src_z - 1,
            3,
            3,
            collision_flag::LOC,
        );
        collision.set(src_x, src_z, 0, collision_flag::OPEN); // Remove collision flag from source tile
        collision.set(src_x, src_z - 1, 0, collision_flag::OPEN); // Remove collision flag from tile south of source tile.

        let route = pf.find_path(
            &collision,
            0,
            src_x,
            src_z,
            dest_x,
            dest_z,
            1,
            1,
            1,
            0,
            -1,
            true,
            0,
            25,
            &CollisionType::Normal,
        );
        // expect(route.success).toBeTruthy();
        assert_eq!(route.len(), 4);

        assert_eq!(3200, (route[0] >> 14) & 0x3fff);
        assert_eq!(3198, route[0] & 0x3fff);

        assert_eq!(3198, (route[1] >> 14) & 0x3fff);
        assert_eq!(3198, route[1] & 0x3fff);

        assert_eq!(3198, (route[2] >> 14) & 0x3fff);
        assert_eq!(3203, route[2] & 0x3fff);

        assert_eq!(dest_x as u32, (route[3] >> 14) & 0x3fff);
        assert_eq!(dest_z as u32, route[3] & 0x3fff);
    }
}

#[test]
fn test_pf_standing_on_closest_approach_point() {
    let src_x = 3200;
    let src_z = 3200;
    let dest_x = 3200;
    let dest_z = 3201;

    let mut pf = PathFinder::new();

    {
        let mut collision = build_collision_map(src_x, src_z, dest_x, dest_z);

        collision.add(
            dest_x,
            dest_z,
            0,
            collision_flag::WALL_NORTH
                | collision_flag::WALL_SOUTH
                | collision_flag::WALL_WEST
                | collision_flag::WALL_EAST,
        );

        let route = pf.find_path(
            &collision,
            0,
            src_x,
            src_z,
            dest_x,
            dest_z,
            1,
            1,
            1,
            0,
            -1,
            true,
            0,
            25,
            &CollisionType::Normal,
        );

        // expect(route.success).toBeTruthy();
        // expect(route.alternative).toBeTruthy();
        assert_eq!(route.len(), 0);
    }
}

#[test]
fn test_pf_find_path_any_size() {
    for size in 1..=3 {
        let src_x = 3200;
        let src_z = 3200;
        let dest_x = 3200;
        let dest_z = 3210 + size;

        let mut pf = PathFinder::new();

        {
            let mut collision = build_collision_map(src_x, src_z, dest_x, dest_z);

            collision.set(src_x, src_z + 1, 0, collision_flag::LOC);

            let route = pf.find_path(
                &collision,
                0,
                src_x,
                src_z,
                dest_x,
                dest_z,
                size as u8,
                1,
                1,
                0,
                -1,
                true,
                0,
                25,
                &CollisionType::Normal,
            );

            assert!(!route.is_empty());
            // expect(route.alternative).toBeFalsy();
        }
    }
}

fn packed(y: i32, x: i32, z: i32) -> u32 {
    rsmod::rsmod::coord_grid::CoordGrid::new(y, x, z).0
}

#[test]
fn test_pf_straight_route_has_one_waypoint() {
    let mut pf = PathFinder::new();
    let collision = build_collision_map(3180, 3180, 3220, 3220);
    let route = pf.find_path(
        &collision, 0, 3200, 3200, 3205, 3200, 1, 1, 1, 0, -1, false, 0, 25,
        &CollisionType::Normal,
    );
    assert_eq!(route, vec![packed(0, 3205, 3200)]);
}

#[test]
fn test_pf_turning_route_waypoints() {
    let mut pf = PathFinder::new();
    let collision = build_collision_map(3180, 3180, 3220, 3220);
    let route = pf.find_path(
        &collision, 0, 3200, 3200, 3205, 3203, 1, 1, 1, 0, -1, false, 0, 25,
        &CollisionType::Normal,
    );
    assert_eq!(route, vec![packed(0, 3202, 3200), packed(0, 3205, 3203)]);
}

#[test]
fn test_pf_waypoint_limit_keeps_the_end() {
    let mut pf = PathFinder::new();
    let collision = build_collision_map(3180, 3180, 3220, 3220);
    let route = pf.find_path(
        &collision, 0, 3200, 3200, 3205, 3203, 1, 1, 1, 0, -1, false, 0, 1,
        &CollisionType::Normal,
    );
    assert_eq!(route, vec![packed(0, 3205, 3203)]);
    let none = pf.find_path(
        &collision, 0, 3200, 3200, 3205, 3203, 1, 1, 1, 0, -1, false, 0, 0,
        &CollisionType::Normal,
    );
    assert!(none.is_empty());
}

#[test]
fn test_pf_source_reaches_destination_gives_empty_route() {
    let mut pf = PathFinder::new();
    let collision = build_collision_map(3180, 3180, 3220, 3220);
    let route = pf.find_path(
        &collision, 0, 3200, 3200, 3200, 3200, 1, 1, 1, 0, -1, false, 0, 25,
        &CollisionType::Normal,
    );
    assert!(route.is_empty());
}

#[test]
fn test_pf_unallocated_map_blocks_everything() {
    let mut pf = PathFinder::new();
    let collision = CollisionFlagMap::new();
    let route = pf.find_path(
        &collision, 0, 3200, 3200, 3205, 3200, 1, 1, 1, 0, -1, false, 0, 25,
        &CollisionType::Normal,
    );
    assert!(route.is_empty());
}

#[test]
fn test_pf_move_near_walled_destination_reaches_approach_point() {
    let mut pf = PathFinder::new();
    let mut collision = build_collision_map(3180, 3180, 3220, 3220);
    for y in 0..4 {
        collision.set(3205, 3200, y, collision_flag::LOC);
    }
    // The destination tile itself is blocked; moving near stops next to it.
    let route = pf.find_path(
        &collision, 0, 3200, 3200, 3205, 3200, 1, 1, 1, 0, -1, true, 0, 25,
        &CollisionType::Normal,
    );
    assert_eq!(route, vec![packed(0, 3204, 3200)]);
    let refused = pf.find_path(
        &collision, 0, 3200, 3200, 3205, 3200, 1, 1, 1, 0, -1, false, 0, 25,
        &CollisionType::Normal,
    );
    assert!(refused.is_empty());
}

#[test]
fn test_pf_reused_finder_gives_same_route() {
    let mut pf = PathFinder::new();
    let collision = build_collision_map(3180, 3180, 3220, 3220);
    let first = pf.find_path(
        &collision, 1, 3200, 3200, 3205, 3203, 1, 1, 1, 0, -1, false, 0, 25,
        &CollisionType::Normal,
    );
    let second = pf.find_path(
        &collision, 1, 3200, 3200, 3205, 3203, 1, 1, 1, 0, -1, false, 0, 25,
        &CollisionType::Normal,
    );
    assert_eq!(first, second);
    for w in first {
        assert_eq!(1, (w >> 28) & 0x3);
    }
}

#[test]
fn test_pf_local_index() {
    assert_eq!(PathFinder::local_index(0, 0), 0);
    assert_eq!(PathFinder::local_index(1, 2), 130);
    assert_eq!(PathFinder::local_index(127, 127), 16383);
}

#[test]
fn test_pf_whole_open_window_is_searched() {
    // Every tile of the 128 by 128 window is open: the search may reach all of
    // them, and a destination at the far side of the window is still found.
    let mut pf = PathFinder::new();
    let collision = build_collision_map(3136, 3136, 3263, 3263);
    let route = pf.find_path(
        &collision, 0, 3200, 3200, 3262, 3200, 1, 1, 1, 0, -1, false, 0, 25,
        &CollisionType::Normal,
    );
    assert_eq!(route, vec![packed(0, 3262, 3200)]);
    let around = pf.find_path(
        &collision, 0, 3200, 3200, 3140, 3260, 1, 1, 1, 0, -1, false, 0, 25,
        &CollisionType::Normal,
    );
    assert_eq!(around.last(), Some(&packed(0, 3140, 3260)));
}
