use rsmod::rsmod::collision::collision::CollisionFlagMap;
use rsmod::rsmod::collision::collision_strategy::CollisionType;
use rsmod::rsmod::coord_grid::CoordGrid;
use rsmod::rsmod::flag::collision_flag;
use rsmod::rsmod::pathfinder::PathFinder;
use rsmod::{
    __set, allocate_if_absent, can_travel, change_floor, change_loc, change_npc, change_player,
    change_roof, change_wall, deallocate_if_present, find_naive_path, find_path,
    has_line_of_sight, has_line_of_walk, is_flagged, is_zone_allocated, line_of_sight,
    line_of_walk, reached,
};

fn allocated(x1: u16, z1: u16, x2: u16, z2: u16) -> CollisionFlagMap {
    let mut flags = CollisionFlagMap::new();
    for y in 0..4u8 {
        for x in x1..=x2 {
            for z in z1..=z2 {
                allocate_if_absent(&mut flags, x, z, y);
            }
        }
    }
    flags
}

#[test]
fn test_api_change_floor_and_roof() {
    let mut flags = allocated(3200, 3200, 3207, 3207);
    change_floor(&mut flags, 3201, 3202, 0, true);
    change_roof(&mut flags, 3201, 3202, 0, true);
    assert_eq!(flags.get(3201, 3202, 0), collision_flag::FLOOR | collision_flag::ROOF);
    change_floor(&mut flags, 3201, 3202, 0, false);
    assert_eq!(flags.get(3201, 3202, 0), collision_flag::ROOF);
    change_roof(&mut flags, 3201, 3202, 0, false);
    assert_eq!(flags.get(3201, 3202, 0), collision_flag::OPEN);
}

#[test]
fn test_api_change_loc_covers_its_footprint() {
    let mut flags = allocated(3196, 3196, 3210, 3210);
    change_loc(&mut flags, 3200, 3200, 0, 2, 3, true, false, true);
    for x in 3200..3202 {
        for z in 3200..3203 {
            assert_eq!(flags.get(x, z, 0), collision_flag::LOC | collision_flag::LOC_PROJ_BLOCKER);
        }
    }
    assert_eq!(flags.get(3202, 3200, 0), collision_flag::OPEN);
    assert_eq!(flags.get(3200, 3203, 0), collision_flag::OPEN);
    assert_eq!(flags.get(3200, 3200, 1), collision_flag::OPEN);
    change_loc(&mut flags, 3200, 3200, 0, 2, 3, true, false, false);
    for x in 3200..3202 {
        for z in 3200..3203 {
            assert_eq!(flags.get(x, z, 0), collision_flag::OPEN);
        }
    }
}

#[test]
fn test_api_change_loc_route_blocker() {
    let mut flags = allocated(3200, 3200, 3207, 3207);
    change_loc(&mut flags, 3200, 3200, 0, 1, 1, false, true, true);
    assert_eq!(flags.get(3200, 3200, 0), collision_flag::LOC | collision_flag::LOC_ROUTE_BLOCKER);
}

#[test]
fn test_api_change_npc_and_player() {
    let mut flags = allocated(3196, 3196, 3210, 3210);
    change_npc(&mut flags, 3200, 3200, 0, 2, true);
    change_player(&mut flags, 3201, 3201, 0, 1, true);
    assert_eq!(flags.get(3200, 3200, 0), collision_flag::NPC);
    assert_eq!(flags.get(3201, 3201, 0), collision_flag::NPC | collision_flag::PLAYER);
    assert_eq!(flags.get(3202, 3201, 0), collision_flag::OPEN);
    change_npc(&mut flags, 3200, 3200, 0, 2, false);
    assert_eq!(flags.get(3201, 3201, 0), collision_flag::PLAYER);
    assert_eq!(flags.get(3200, 3201, 0), collision_flag::OPEN);
}

#[test]
fn test_api_change_wall_straight_tiers() {
    let mut flags = CollisionFlagMap::new();
    change_wall(&mut flags, 3200, 3200, 0, 0, 0, false, false, true);
    assert_eq!(flags.get(3200, 3200, 0), collision_flag::WALL_WEST);
    assert_eq!(flags.get(3199, 3200, 0), collision_flag::WALL_EAST);

    let mut flags = CollisionFlagMap::new();
    change_wall(&mut flags, 3200, 3200, 0, 0, 0, true, false, true);
    assert_eq!(
        flags.get(3200, 3200, 0),
        collision_flag::WALL_WEST | collision_flag::WALL_WEST_PROJ_BLOCKER
    );
    assert_eq!(
        flags.get(3199, 3200, 0),
        collision_flag::WALL_EAST | collision_flag::WALL_EAST_PROJ_BLOCKER
    );

    let mut flags = CollisionFlagMap::new();
    change_wall(&mut flags, 3200, 3200, 0, 0, 0, true, true, true);
    assert_eq!(
        flags.get(3200, 3200, 0),
        collision_flag::WALL_WEST
            | collision_flag::WALL_WEST_PROJ_BLOCKER
            | collision_flag::WALL_WEST_ROUTE_BLOCKER
    );

    let mut flags = CollisionFlagMap::new();
    change_wall(&mut flags, 3200, 3200, 0, 1, 0, false, true, true);
    assert_eq!(
        flags.get(3200, 3200, 0),
        collision_flag::WALL_NORTH | collision_flag::WALL_NORTH_ROUTE_BLOCKER
    );
    assert_eq!(
        flags.get(3200, 3201, 0),
        collision_flag::WALL_SOUTH | collision_flag::WALL_SOUTH_ROUTE_BLOCKER
    );
}

#[test]
fn test_api_change_wall_corner_and_l() {
    let mut flags = CollisionFlagMap::new();
    change_wall(&mut flags, 3200, 3200, 0, 1, 1, false, false, true);
    assert_eq!(flags.get(3200, 3200, 0), collision_flag::WALL_NORTH_EAST);
    assert_eq!(flags.get(3201, 3201, 0), collision_flag::WALL_SOUTH_WEST);

    let mut flags = CollisionFlagMap::new();
    change_wall(&mut flags, 3200, 3200, 0, 3, 3, false, false, true);
    assert_eq!(flags.get(3200, 3200, 0), collision_flag::WALL_SOUTH_WEST);
    assert_eq!(flags.get(3199, 3199, 0), collision_flag::WALL_NORTH_EAST);

    let mut flags = CollisionFlagMap::new();
    change_wall(&mut flags, 3200, 3200, 0, 2, 2, false, false, true);
    assert_eq!(flags.get(3200, 3200, 0), collision_flag::WALL_SOUTH | collision_flag::WALL_EAST);
    assert_eq!(flags.get(3201, 3200, 0), collision_flag::WALL_WEST);
    assert_eq!(flags.get(3200, 3199, 0), collision_flag::WALL_NORTH);
}

#[test]
fn test_api_change_wall_other_shapes_change_nothing() {
    let mut flags = CollisionFlagMap::new();
    change_wall(&mut flags, 3200, 3200, 0, 0, 10, true, true, true);
    assert!(!is_zone_allocated(&flags, 3200, 3200, 0));
    assert_eq!(flags.get(3200, 3200, 0), collision_flag::NULL);
}

#[test]
fn test_api_wall_add_then_remove_round_trip() {
    for shape in 0..4i8 {
        for angle in 0..4u8 {
            let mut flags = allocated(3192, 3192, 3215, 3215);
            change_wall(&mut flags, 3200, 3200, 0, angle, shape, true, true, true);
            assert!(flags.get(3200, 3200, 0) != collision_flag::OPEN);
            change_wall(&mut flags, 3200, 3200, 0, angle, shape, true, true, false);
            for x in 3192..3216 {
                for z in 3192..3216 {
                    assert_eq!(flags.get(x, z, 0), collision_flag::OPEN);
                }
            }
        }
    }
}

#[test]
fn test_api_zone_allocation() {
    let mut flags = CollisionFlagMap::new();
    assert!(!is_zone_allocated(&flags, 3200, 3200, 0));
    allocate_if_absent(&mut flags, 3203, 3204, 0);
    assert!(is_zone_allocated(&flags, 3200, 3200, 0));
    assert!(!is_zone_allocated(&flags, 3208, 3200, 0));
    assert!(!is_flagged(&flags, 3200, 3200, 0, collision_flag::NULL));
    __set(&mut flags, 3200, 3200, 0, collision_flag::LOC);
    assert!(is_flagged(&flags, 3200, 3200, 0, collision_flag::LOC));
    assert!(!is_flagged(&flags, 3200, 3200, 0, collision_flag::FLOOR));
    deallocate_if_present(&mut flags, 3200, 3200, 0);
    assert!(!is_zone_allocated(&flags, 3200, 3200, 0));
    assert!(!is_flagged(&flags, 3200, 3200, 0, collision_flag::LOC));
}

#[test]
fn test_api_can_travel() {
    let mut flags = allocated(3196, 3196, 3210, 3210);
    assert!(can_travel(&flags, 0, 3200, 3200, 1, 0, 1, 0, CollisionType::Normal));
    assert!(!can_travel(&flags, 0, 3200, 3200, 2, 0, 1, 0, CollisionType::Normal));
    assert!(!can_travel(&flags, 0, 3200, 3200, 0, 0, 1, 0, CollisionType::Normal));
    change_loc(&mut flags, 3201, 3200, 0, 1, 1, false, false, true);
    assert!(!can_travel(&flags, 0, 3200, 3200, 1, 0, 1, 0, CollisionType::Normal));
    assert!(!can_travel(&flags, 0, 3200, 3200, 1, 1, 1, 0, CollisionType::Normal));
    assert!(can_travel(&flags, 0, 3200, 3200, -1, 0, 1, 0, CollisionType::Normal));
}

#[test]
fn test_api_lines_agree() {
    let mut flags = allocated(3196, 3196, 3210, 3210);
    assert!(has_line_of_sight(&flags, 0, 3200, 3200, 3203, 3201, 1, 1, 1, 1, 0));
    assert!(has_line_of_walk(&flags, 0, 3200, 3200, 3203, 3201, 1, 1, 1, 1, 0));
    assert!(!line_of_sight(&flags, 0, 3200, 3200, 3203, 3201, 1, 1, 1, 1, 0).is_empty());
    assert!(has_line_of_sight(&flags, 0, 3200, 3200, 3200, 3200, 1, 1, 1, 1, 0));
    assert!(line_of_sight(&flags, 0, 3200, 3200, 3200, 3200, 1, 1, 1, 1, 0).is_empty());
    change_loc(&mut flags, 3201, 3200, 0, 1, 1, true, false, true);
    assert!(!has_line_of_sight(&flags, 0, 3200, 3200, 3203, 3200, 1, 1, 1, 1, 0));
    assert!(line_of_sight(&flags, 0, 3200, 3200, 3203, 3200, 1, 1, 1, 1, 0).is_empty());
    assert!(!has_line_of_walk(&flags, 0, 3200, 3200, 3203, 3200, 1, 1, 1, 1, 0));
    assert!(line_of_walk(&flags, 0, 3200, 3200, 3203, 3200, 1, 1, 1, 1, 0).is_empty());
}

#[test]
fn test_api_line_of_walk_tiles() {
    let flags = allocated(3196, 3196, 3210, 3210);
    let line = line_of_walk(&flags, 2, 3200, 3200, 3203, 3200, 1, 1, 1, 1, 0);
    assert_eq!(
        line,
        vec![
            CoordGrid::new(2, 3201, 3200).0,
            CoordGrid::new(2, 3202, 3200).0,
            CoordGrid::new(2, 3203, 3200).0,
        ]
    );
}

#[test]
fn test_api_reached() {
    let flags = allocated(3196, 3196, 3210, 3210);
    assert!(reached(&flags, 0, 3200, 3200, 3200, 3200, 1, 1, 1, 0, -1, 0));
    assert!(!reached(&flags, 0, 3199, 3200, 3200, 3200, 1, 1, 1, 0, -1, 0));
    assert!(reached(&flags, 0, 3199, 3200, 3200, 3200, 1, 1, 1, 0, 10, 0));
    assert!(!reached(&flags, 0, 3200, 3200, 3200, 3200, 1, 1, 1, 0, -2, 0));
}

#[test]
fn test_api_find_path() {
    let flags = allocated(3180, 3180, 3220, 3220);
    let mut pf = PathFinder::new();
    let route = find_path(
        &mut pf, &flags, 0, 3200, 3200, 3205, 3203, 1, 1, 1, 0, -1, false, 0, 25,
        CollisionType::Normal,
    );
    assert_eq!(route, vec![CoordGrid::new(0, 3202, 3200).0, CoordGrid::new(0, 3205, 3203).0]);
}

#[test]
fn test_api_find_naive_path() {
    let flags = allocated(3180, 3180, 3220, 3220);
    let route = find_naive_path(&flags, 0, 3195, 3190, 3200, 3200, 1, 1, 1, 1, 0, CollisionType::Normal);
    assert_eq!(route, vec![CoordGrid::new(0, 3200, 3200).0]);
}
