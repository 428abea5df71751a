use rsmod::rsmod::collision::zone::ZoneFlagMap;
use rsmod::rsmod::flag::zone_flag;

#[test]
fn test_zone_default_unflagged() {
    let zones: ZoneFlagMap = ZoneFlagMap::new();

    for x in 3200..3208 {
        for z in 3200..3208 {
            for y in 0..4 {
                {
                    assert_eq!(false, zones.is_flagged(x, z, y, zone_flag::FREE));
                    assert_eq!(false, zones.is_flagged(x, z, y, zone_flag::MULTI));
                }
            }
        }
    }
}

#[test]
fn test_zone_change_round_trip() {
    let mut zones: ZoneFlagMap = ZoneFlagMap::new();

    {
        zones.change_zone(3200, 3200, 0, zone_flag::FREE, true);
        assert_eq!(true, zones.is_flagged(3200, 3200, 0, zone_flag::FREE));

        zones.change_zone(3200, 3200, 0, zone_flag::FREE, false);
        assert_eq!(false, zones.is_flagged(3200, 3200, 0, zone_flag::FREE));
    }
}

#[test]
fn test_zone_flag_covers_whole_zone_not_neighbors() {
    let mut zones: ZoneFlagMap = ZoneFlagMap::new();

    {
        zones.change_zone(3204, 3204, 0, zone_flag::FREE, true);

        for x in 3200..3208 {
            for z in 3200..3208 {
                assert_eq!(true, zones.is_flagged(x, z, 0, zone_flag::FREE));
            }
        }

        assert_eq!(false, zones.is_flagged(3199, 3204, 0, zone_flag::FREE));
        assert_eq!(false, zones.is_flagged(3208, 3204, 0, zone_flag::FREE));
        assert_eq!(false, zones.is_flagged(3204, 3199, 0, zone_flag::FREE));
        assert_eq!(false, zones.is_flagged(3204, 3208, 0, zone_flag::FREE));
        assert_eq!(false, zones.is_flagged(3204, 3204, 1, zone_flag::FREE));
    }
}

#[test]
fn test_zone_masks_independent() {
    let mut zones: ZoneFlagMap = ZoneFlagMap::new();

    {
        zones.change_zone(3200, 3200, 0, zone_flag::FREE, true);
        zones.change_zone(3200, 3200, 0, zone_flag::MULTI, true);
        assert_eq!(true, zones.is_flagged(3200, 3200, 0, zone_flag::FREE));
        assert_eq!(true, zones.is_flagged(3200, 3200, 0, zone_flag::MULTI));

        zones.change_zone(3200, 3200, 0, zone_flag::MULTI, false);
        assert_eq!(true, zones.is_flagged(3200, 3200, 0, zone_flag::FREE));
        assert_eq!(
            false,
            zones.is_flagged(3200, 3200, 0, zone_flag::MULTI)
        );
    }
}

#[test]
fn test_zone_borders_across_zone_boundary() {
    let mut zones: ZoneFlagMap = ZoneFlagMap::new();

    {
        zones.change_zone(3200, 3200, 0, zone_flag::FREE, true);

        assert_eq!(true, zones.borders(3208, 3200, 0, zone_flag::FREE));
        assert_eq!(true, zones.borders(3199, 3200, 0, zone_flag::FREE));
        assert_eq!(true, zones.borders(3200, 3208, 0, zone_flag::FREE));
        assert_eq!(true, zones.borders(3200, 3199, 0, zone_flag::FREE));

        assert_eq!(true, zones.borders(3204, 3204, 0, zone_flag::FREE));

        assert_eq!(false, zones.borders(3209, 3200, 0, zone_flag::FREE));
        assert_eq!(false, zones.borders(3208, 3208, 0, zone_flag::FREE));
    }
}

#[test]
fn test_zone_borders_map_edge() {
    let mut zones: ZoneFlagMap = ZoneFlagMap::new();

    {
        zones.change_zone(0, 0, 0, zone_flag::FREE, true);

        assert_eq!(true, zones.borders(0, 0, 0, zone_flag::FREE));

        zones.change_zone(0, 0, 0, zone_flag::FREE, false);
        assert_eq!(false, zones.borders(0, 0, 0, zone_flag::FREE));
    }
}

#[test]
fn test_zone_remove_keeps_other_masks_and_neighbours() {
    let mut zones: ZoneFlagMap = ZoneFlagMap::new();
    zones.change_zone(3200, 3200, 0, zone_flag::FREE | zone_flag::MULTI, true);
    zones.change_zone(3208, 3200, 0, zone_flag::FREE, true);
    zones.change_zone(3201, 3201, 0, zone_flag::FREE, false);
    assert!(!zones.is_flagged(3200, 3200, 0, zone_flag::FREE));
    assert!(zones.is_flagged(3200, 3200, 0, zone_flag::MULTI));
    assert!(zones.is_flagged(3208, 3200, 0, zone_flag::FREE));
}
