use rsmod::rsmod::collision::collision::CollisionFlagMap;
use rsmod::rsmod::collision::collision_strategy::Normal;
use rsmod::rsmod::coord_grid::CoordGrid;
use rsmod::rsmod::flag::collision_flag;
use rsmod::rsmod::reach::rectangle_boundary::collides;
use rsmod::rsmod::naive_pathfinder::{
    cardinal_destination, coerce_at_least, coerce_at_most, find_naive_path,
    find_naive_path_towards, intersects, is_diagonal, naive_destination,
};

fn allocated(x1: i32, z1: i32, x2: i32, z2: i32) -> CollisionFlagMap {
    let mut flags = CollisionFlagMap::new();
    for x in x1..=x2 {
        for z in z1..=z2 {
            flags.allocate_if_absent(x, z, 0);
        }
    }
    flags
}

#[test]
fn test_naive_coerce() {
    assert_eq!(coerce_at_most(5, 3), 3);
    assert_eq!(coerce_at_most(2, 3), 2);
    assert_eq!(coerce_at_least(-5, -3), -3);
    assert_eq!(coerce_at_least(4, -3), 4);
}

#[test]
fn test_naive_intersects() {
    assert!(intersects(3200, 3200, 1, 1, 3200, 3200, 1, 1));
    assert!(intersects(3200, 3200, 2, 2, 3201, 3201, 1, 1));
    assert!(!intersects(3200, 3200, 1, 1, 3201, 3200, 1, 1));
    assert!(!intersects(3200, 3200, 1, 1, 3200, 3201, 1, 1));
    assert!(!intersects(3202, 3200, 1, 1, 3200, 3200, 2, 2));
}

#[test]
fn test_naive_is_diagonal() {
    assert!(is_diagonal(3199, 3199, 1, 1, 3200, 3200, 1, 1));
    assert!(is_diagonal(3201, 3201, 1, 1, 3200, 3200, 1, 1));
    assert!(is_diagonal(3199, 3201, 1, 1, 3200, 3200, 1, 1));
    assert!(is_diagonal(3201, 3199, 1, 1, 3200, 3200, 1, 1));
    assert!(!is_diagonal(3199, 3200, 1, 1, 3200, 3200, 1, 1));
}

#[test]
fn test_naive_destination_sides() {
    assert_eq!(
        naive_destination(0, 3195, 3200, 1, 1, 3200, 3200, 1, 1),
        Some(CoordGrid::new(0, 3199, 3200).0)
    );
    assert_eq!(
        naive_destination(0, 3195, 3190, 1, 1, 3200, 3200, 1, 1),
        Some(CoordGrid::new(0, 3200, 3199).0)
    );
    assert_eq!(
        naive_destination(0, 3200, 3210, 1, 1, 3200, 3200, 1, 1),
        Some(CoordGrid::new(0, 3200, 3201).0)
    );
    assert_eq!(
        naive_destination(0, 3210, 3200, 1, 1, 3200, 3200, 1, 1),
        Some(CoordGrid::new(0, 3201, 3200).0)
    );
    assert_eq!(naive_destination(0, 3201, 3201, 1, 1, 3200, 3200, 0, 5), None);
}

#[test]
fn test_naive_cardinal_destination() {
    assert_eq!(cardinal_destination(0, 3200, 3200, 0), CoordGrid::new(0, 3199, 3200).0);
    assert_eq!(cardinal_destination(0, 3200, 3200, 1), CoordGrid::new(0, 3201, 3200).0);
    assert_eq!(cardinal_destination(0, 3200, 3200, 2), CoordGrid::new(0, 3200, 3201).0);
    assert_eq!(cardinal_destination(0, 3200, 3200, 3), CoordGrid::new(0, 3200, 3199).0);
}

#[test]
fn test_naive_overlap_moves_to_a_neighbour() {
    let flags = allocated(3190, 3190, 3210, 3210);
    let neighbours = [
        CoordGrid::new(0, 3199, 3200).0,
        CoordGrid::new(0, 3201, 3200).0,
        CoordGrid::new(0, 3200, 3201).0,
        CoordGrid::new(0, 3200, 3199).0,
    ];
    for _ in 0..64 {
        let route = find_naive_path(&flags, 0, 3200, 3200, 3200, 3200, 1, 1, 1, 1, 0, &Normal);
        assert_eq!(route.len(), 1);
        assert!(neighbours.contains(&route[0]));
    }
    for direction in 0..4usize {
        let route =
            find_naive_path_towards(&flags, 0, 3200, 3200, 3200, 3200, 1, 1, 1, 1, 0, &Normal, direction);
        assert_eq!(route, vec![neighbours[direction]]);
    }
}

#[test]
fn test_naive_walk_goes_on_until_level_on_both_axes() {
    let flags = allocated(3190, 3190, 3210, 3210);
    // The side tile (3200, 3199) is level with the target on x only.
    let route = find_naive_path(&flags, 0, 3195, 3190, 3200, 3200, 1, 1, 1, 1, 0, &Normal);
    assert_eq!(route, vec![CoordGrid::new(0, 3200, 3200).0]);
    // West of the target: side tile (3199, 3200), then one step east.
    let route = find_naive_path(&flags, 0, 3195, 3200, 3200, 3200, 1, 1, 1, 1, 0, &Normal);
    assert_eq!(route, vec![CoordGrid::new(0, 3200, 3200).0]);
}

#[test]
fn test_naive_corner_source_gets_no_destination() {
    let flags = allocated(3190, 3190, 3210, 3210);
    assert_eq!(naive_destination(0, 3201, 3201, 1, 1, 3200, 3200, 1, 1), None);
    assert_eq!(naive_destination(0, 3199, 3199, 1, 1, 3200, 3200, 1, 1), None);
    assert_eq!(naive_destination(0, 3201, 3199, 1, 1, 3200, 3200, 1, 1), None);
    assert_eq!(naive_destination(0, 3199, 3201, 1, 1, 3200, 3200, 1, 1), None);
    let route = find_naive_path(&flags, 0, 3201, 3201, 3200, 3200, 1, 1, 1, 1, 0, &Normal);
    assert!(route.is_empty());
}

#[test]
fn test_naive_walks_diagonally_toward_target() {
    let flags = allocated(3190, 3190, 3210, 3210);
    // From the side tile (3198, 3199): north-east, then east.
    let route = find_naive_path(&flags, 0, 3198, 3199, 3200, 3200, 2, 2, 1, 1, 0, &Normal);
    assert_eq!(route, vec![CoordGrid::new(0, 3200, 3200).0]);
}

#[test]
fn test_naive_blocked_walk_stays() {
    let mut flags = allocated(3190, 3190, 3210, 3210);
    for x in 3190..3211 {
        for z in 3190..3211 {
            flags.set(x, z, 0, collision_flag::LOC);
        }
    }
    let route = find_naive_path(&flags, 0, 3198, 3199, 3200, 3200, 2, 2, 1, 1, 0, &Normal);
    assert_eq!(route, vec![CoordGrid::new(0, 3198, 3199).0]);
}

#[test]
fn test_naive_intersects_is_symmetric_overlap() {
    for sx in 3196..3204 {
        for sz in 3196..3204 {
            for (sw, sh) in [(1u8, 1u8), (2, 3), (3, 1)] {
                let a = intersects(sx, sz, sw, sh, 3200, 3200, 2, 2);
                assert_eq!(a, intersects(3200, 3200, 2, 2, sx, sz, sw, sh));
                assert_eq!(a, collides(sx, sz, 3200, 3200, sw, sh, 2, 2));
            }
        }
    }
}
