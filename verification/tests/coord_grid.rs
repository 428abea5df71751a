use rsmod::rsmod::coord_grid::CoordGrid;
use rsmod::rsmod::utils::rotation::{rotate, rotate_flags};
use rsmod::rsmod::flag::block_flag;
use rsmod::rsmod::line::Line;

#[test]
fn test_coord_grid_round_trip() {
    let c = CoordGrid::new(2, 3200, 3201);
    assert_eq!(c.y(), 2);
    assert_eq!(c.x(), 3200);
    assert_eq!(c.z(), 3201);
    assert_eq!(c.0, 3201 | (3200 << 14) | (2 << 28));
    assert_eq!(CoordGrid::from(c.0).0, c.0);
    let back = CoordGrid::new(c.y() as i32, c.x() as i32, c.z() as i32);
    assert_eq!(back.0, c.0);
}

#[test]
fn test_coord_grid_masks_each_field() {
    let c = CoordGrid::new(5, 16384 + 7, -1);
    assert_eq!(c.y(), 1);
    assert_eq!(c.x(), 7);
    assert_eq!(c.z(), 16383);
}

#[test]
fn test_rotation_swaps_on_odd_angles() {
    assert_eq!(rotate(0, 3, 1), 3);
    assert_eq!(rotate(1, 3, 1), 1);
    assert_eq!(rotate(2, 3, 1), 3);
    assert_eq!(rotate(3, 3, 1), 1);
}

#[test]
fn test_rotation_of_access_flags() {
    assert_eq!(rotate_flags(1, block_flag::NORTH), block_flag::EAST);
    assert_eq!(rotate_flags(1, block_flag::WEST), block_flag::NORTH);
    assert_eq!(rotate_flags(2, block_flag::NORTH | block_flag::EAST), block_flag::SOUTH | block_flag::WEST);
    for angle in 0..=4u8 {
        for flags in 0..16u8 {
            let turned = rotate_flags(angle, flags);
            assert!(turned < 16);
            assert_eq!(rotate_flags(4 - angle, turned), flags);
        }
    }
    assert_eq!(rotate_flags(0, 9), 9);
    assert_eq!(rotate_flags(4, 9), 9);
}

#[test]
fn test_line_fixed_point() {
    assert_eq!(Line::scale_up(3), 3 * 65536);
    assert_eq!(Line::scale_up(-2), -2 * 65536);
    assert_eq!(Line::scale_down(3 * 65536 + 65535), 3);
    assert_eq!(Line::scale_down(-1), -1);
    assert_eq!(Line::coordinate(3200, 3210, 3), 3202);
    assert_eq!(Line::coordinate(3200, 3190, 3), 3200);
    assert_eq!(Line::coordinate(3200, 3201, 3), 3201);
    assert_eq!(Line::coordinate(3200, 3210, 0), 3200);
}
