use walkers::mercator::screen_delta_to_position_delta;
use walkers::mercator::tiles_per_side;
use walkers::mercator::unproject_x;
use walkers::mercator::unproject_y;
use walkers::mercator::world_size_pixels;
use walkers::places;
use walkers::Position;
use walkers::TileId;

#[test]
fn project_wroclaw_at_zoom_16() {
    let p = places::wroclaw_glowny();
    let px = p.project(16);
    assert_eq!(px.x, 9182572);
    assert_eq!(px.y, 5609283);
    let t = p.tile_id(16);
    assert_eq!(t.x, 35869);
    assert_eq!(t.y, 21911);
    assert_eq!(t.zoom, 16);
}

#[test]
fn tile_id_stays_inside_the_pyramid() {
    let corners: [(i64, i64); 6] = [
        (-180_000_000, 85_051_128),
        (180_000_000, -85_051_128),
        (0, 0),
        (179_999_999, 84_999_999),
        (-179_999_999, -84_999_999),
        (123_456_789, -45_000_000),
    ];
    for &zoom in &[0u8, 1, 2, 10, 19] {
        let per_side = tiles_per_side(zoom);
        for &(lon, lat) in corners.iter() {
            let t = Position::new(lon, lat).tile_id(zoom);
            assert!(t.x < per_side);
            assert!(t.y < per_side);
            assert_eq!(t.zoom, zoom);
        }
    }
}

#[test]
fn equator_and_prime_meridian_project_to_the_center() {
    for &zoom in &[0u8, 5, 16, 19] {
        let ws = world_size_pixels(zoom);
        let px = Position::new(0, 0).project(zoom);
        assert_eq!(px.x, ws / 2);
        assert_eq!(px.y, ws / 2);
    }
}

#[test]
fn northern_latitudes_project_to_the_upper_half() {
    for &zoom in &[3u8, 16] {
        let ws = world_size_pixels(zoom);
        let north = Position::new(0, 51_099_160).project(zoom);
        let south = Position::new(0, -51_099_160).project(zoom);
        assert!(north.y < ws / 2);
        assert!(south.y > ws / 2);
        // mercator is symmetric about the equator
        assert_eq!(ws - north.y, south.y + 1);
    }
}

#[test]
fn neighbor_round_trips() {
    let t = TileId { x: 100, y: 200, zoom: 10 };
    assert_eq!(t.south().unwrap().north().unwrap(), t);
    assert_eq!(t.west().unwrap().east().unwrap(), t);
    assert_eq!(t.north().unwrap().south().unwrap(), t);
    assert_eq!(t.east().unwrap().west().unwrap(), t);
}

#[test]
fn neighbors_end_at_the_pyramid_edge() {
    let corner = TileId { x: 0, y: 0, zoom: 3 };
    assert!(corner.north().is_none());
    assert!(corner.west().is_none());
    assert!(corner.south().is_some());
    assert!(corner.east().is_some());
    let far = TileId { x: 7, y: 7, zoom: 3 };
    assert!(far.south().is_none());
    assert!(far.east().is_none());
    let lonely = TileId { x: 0, y: 0, zoom: 0 };
    assert!(lonely.north().is_none());
    assert!(lonely.south().is_none());
    assert!(lonely.east().is_none());
    assert!(lonely.west().is_none());
}

#[test]
fn longitude_round_trip_within_one_pixel() {
    for &zoom in &[0u8, 8, 16, 19] {
        let ws = world_size_pixels(zoom) as i64;
        let pixel_micro = 360_000_000i64 / ws + 1;
        for &lon in &[-179_999_999i64, -120_000_000, -1, 0, 17_036_640, 179_999_999] {
            let p = Position::new(lon, 0);
            let px = p.project(zoom);
            let back = unproject_x(px.x, zoom);
            assert!(back <= lon);
            assert!(lon - back <= pixel_micro);
        }
    }
}

#[test]
fn screen_delta_scales_by_the_world_size() {
    // at zoom 0 the world is 256 pixels wide: 128 pixels is half a turn
    let d = screen_delta_to_position_delta(128, -64, 0);
    assert_eq!(d.0, 180_000_000);
    assert_eq!(d.1, 90_000_000);
    let d2 = screen_delta_to_position_delta(-128, 64, 0);
    assert_eq!(d2.0, -180_000_000);
    assert_eq!(d2.1, -90_000_000);
    // doubling the zoom halves the geographic span of one pixel
    let coarse = screen_delta_to_position_delta(64, 0, 4);
    let fine = screen_delta_to_position_delta(64, 0, 5);
    assert_eq!(coarse.0, 5_625_000);
    assert_eq!(coarse.0, 2 * fine.0);
}

#[test]
fn places_coordinates() {
    assert_eq!(places::wroclaw_glowny().x(), 17_036_640);
    assert_eq!(places::wroclaw_glowny().y(), 51_099_160);
    assert_eq!(places::dworcowa_bus_stop().x(), 17_039_400);
    assert_eq!(places::dworcowa_bus_stop().y(), 51_100_050);
    assert_eq!(places::wroclavia().x(), 17_034_710);
    assert_eq!(places::wroclavia().y(), 51_096_480);
}

#[test]
fn latitude_round_trip_onto_the_same_pixel_row() {
    for &zoom in &[4u8, 10, 16] {
        let ws = world_size_pixels(zoom) as i64;
        for &lat in &[0i64, 51_099_160, -51_099_160, 80_000_000, -12_345_678] {
            let p = Position::new(0, lat);
            let px = p.project(zoom);
            let back = unproject_y(px.y, zoom).expect("the bisection lands on the row");
            // the recovered latitude projects back onto the same pixel row
            let again = Position::new(0, back).project(zoom);
            assert_eq!(again.y, px.y);
            // and lies within one pixel row of the original latitude
            assert!((back - lat).abs() <= 360_000_000 / ws + 1);
        }
    }
}
