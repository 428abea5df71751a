use rsmod::rsmod::collision::collision::CollisionFlagMap;
use rsmod::rsmod::flag::collision_flag;

#[test]
fn test_collision_get_collision_flag_null_zone() {
    let collision: CollisionFlagMap = CollisionFlagMap::new();

    { assert_eq!(false, collision.is_zone_allocated(3200, 3200, 0)) }

    for x in 3200..3208 {
        for z in 3200..3208 {
            {
                assert_eq!(collision_flag::NULL, collision.get(x, z, 0));
            }
        }
    }
}

#[test]
fn test_collision_get_collision_flag_allocated_zone() {
    let mut collision: CollisionFlagMap = CollisionFlagMap::new();

    {
        assert_eq!(false, collision.is_zone_allocated(3200, 3200, 0));

        collision.allocate_if_absent(3200, 3200, 0);
        assert_eq!(true, collision.is_zone_allocated(3200, 3200, 0));
    }

    for x in 3200..3208 {
        for z in 3200..3208 {
            {
                assert_eq!(collision_flag::OPEN, collision.get(x, z, 0));
            }
        }
    }
}

#[test]
fn test_collision_set_collision_flag() {
    let mut collision: CollisionFlagMap = CollisionFlagMap::new();

    {
        assert_eq!(collision_flag::NULL, collision.get(3200, 3200, 0));
        assert_eq!(collision_flag::NULL, collision.get(3200, 3200, 1));
        assert_eq!(collision_flag::NULL, collision.get(3200, 3200, 2));

        collision.set(3200, 3200, 0, collision_flag::LOC);
        collision.set(3200, 3200, 1, collision_flag::FLOOR);
        collision.set(3200, 3200, 2, collision_flag::OPEN);

        assert_eq!(collision_flag::LOC, collision.get(3200, 3200, 0));
        assert_eq!(collision_flag::FLOOR, collision.get(3200, 3200, 1));
        assert_eq!(collision_flag::OPEN, collision.get(3200, 3200, 2));
    }
}

#[test]
fn test_collision_add_collision_flag() {
    let mut collision: CollisionFlagMap = CollisionFlagMap::new();

    {
        collision.allocate_if_absent(3200, 3200, 0);
        assert_eq!(collision_flag::OPEN, collision.get(3200, 3200, 0));

        collision.add(3200, 3200, 0, collision_flag::WALL_EAST_PROJ_BLOCKER);
        assert_eq!(
            collision_flag::WALL_EAST_PROJ_BLOCKER,
            collision.get(3200, 3200, 0)
        );

        collision.add(3200, 3200, 0, collision_flag::WALL_NORTH_PROJ_BLOCKER);
        assert_eq!(
            true,
            collision.is_flagged(3200, 3200, 0, collision_flag::WALL_EAST_PROJ_BLOCKER)
        );
        assert_eq!(
            true,
            collision.is_flagged(3200, 3200, 0, collision_flag::WALL_NORTH_PROJ_BLOCKER)
        );
    }

    for x in 3201..3208 {
        for z in 3201..3208 {
            {
                assert_eq!(collision_flag::OPEN, collision.get(x, z, 0));
            }
        }
    }
}

#[test]
fn test_collision_remove_collision_flag() {
    let mut collision: CollisionFlagMap = CollisionFlagMap::new();

    {
        collision.allocate_if_absent(3200, 3200, 0);
        assert_eq!(collision_flag::OPEN, collision.get(3200, 3200, 0));

        collision.add(3200, 3200, 0, collision_flag::WALL_NORTH_PROJ_BLOCKER);
        assert_eq!(
            collision_flag::WALL_NORTH_PROJ_BLOCKER,
            collision.get(3200, 3200, 0)
        );

        collision.remove(3200, 3200, 0, collision_flag::WALL_NORTH_PROJ_BLOCKER);
        assert_eq!(collision_flag::OPEN, collision.get(3200, 3200, 0));
    }
}

#[test]
fn test_collision_deallocate_if_present() {
    let mut collision: CollisionFlagMap = CollisionFlagMap::new();

    {
        collision.allocate_if_absent(3200, 3200, 0);
        assert_eq!(collision_flag::OPEN, collision.get(3200, 3200, 0));
    }

    {
        collision.deallocate_if_present(3200, 3200, 0);
        assert_eq!(collision_flag::NULL, collision.get(3200, 3200, 0));
    }
}

#[test]
fn test_collision_zone_index() {
    assert_eq!(CollisionFlagMap::zone_index(0, 0, 0), 0);
}

#[test]
fn test_collision_write_creates_zone_of_open_tiles() {
    let mut collision = CollisionFlagMap::new();
    collision.set(3203, 3204, 0, collision_flag::LOC);
    assert_eq!(collision.get(3203, 3204, 0), collision_flag::LOC);
    assert_eq!(collision.get(3200, 3200, 0), collision_flag::OPEN);
    assert_eq!(collision.get(3207, 3207, 0), collision_flag::OPEN);
    assert_eq!(collision.get(3208, 3204, 0), collision_flag::NULL);
    assert_eq!(collision.get(3203, 3204, 1), collision_flag::NULL);
}

#[test]
fn test_collision_tiles_wrap_every_16384() {
    let mut collision = CollisionFlagMap::new();
    collision.set(3200 + 16384, 3200 - 16384, 4, collision_flag::FLOOR);
    assert_eq!(collision.get(3200, 3200, 0), collision_flag::FLOOR);
}

#[test]
fn test_collision_add_remove_round_trip_keeps_other_bits() {
    let mut collision = CollisionFlagMap::new();
    collision.set(3200, 3200, 0, collision_flag::FLOOR);
    collision.add(3200, 3200, 0, collision_flag::LOC | collision_flag::NPC);
    assert_eq!(
        collision.get(3200, 3200, 0),
        collision_flag::FLOOR | collision_flag::LOC | collision_flag::NPC
    );
    collision.remove(3200, 3200, 0, collision_flag::LOC | collision_flag::NPC);
    assert_eq!(collision.get(3200, 3200, 0), collision_flag::FLOOR);
}

#[test]
fn test_collision_indices() {
    assert_eq!(CollisionFlagMap::zone_index(8, 0, 0), 1);
    assert_eq!(CollisionFlagMap::zone_index(0, 8, 0), 1 << 11);
    assert_eq!(CollisionFlagMap::zone_index(0, 0, 1), 1 << 22);
    assert_eq!(CollisionFlagMap::tile_index(3, 5), 3 | (5 << 3));
    assert_eq!(CollisionFlagMap::tile_index(11, 13), 3 | (5 << 3));
}
