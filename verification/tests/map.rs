use walkers::map::flood_fill_tiles;
use walkers::mercator::screen_delta_to_position_delta;
use walkers::mercator::PixelRect;
use walkers::places;
use walkers::providers;
use walkers::providers::MapType;
use walkers::providers::Providers;
use walkers::MapCenterMode;
use walkers::MapMemory;
use walkers::MapWidget;
use walkers::Tile;
use walkers::TileId;
use walkers::Tiles;

fn fresh_cache(capacity: usize) -> Tiles {
    Tiles::new(providers::new(Providers::OpenStreetMap, MapType::Standart), capacity)
}

fn sample_tile() -> Tile {
    Tile::new(2, 2, vec![0u8; 16])
}

#[test]
fn default_memory_follows_my_position() {
    let memory = MapMemory::default();
    assert_eq!(memory.center_mode, MapCenterMode::MyPosition);
    assert!(!memory.osm);
    assert_eq!(memory.zoom.get(), 16);
}

#[test]
fn drag_state_machine() {
    let my = places::wroclaw_glowny();
    let mut mode = MapCenterMode::MyPosition;
    // no drag: nothing changes
    mode.screen_drag(false, 10, 10, my, 16);
    assert_eq!(mode, MapCenterMode::MyPosition);
    assert!(mode.detached().is_none());
    // the first drag anchors at the live position, before any offset
    mode.screen_drag(true, 5, -3, my, 16);
    assert_eq!(mode, MapCenterMode::Exact(my));
    assert_eq!(mode.position(my), my);
    // a further drag moves the anchor against the inverse-projected delta
    let delta = screen_delta_to_position_delta(40, 30, 16);
    mode.screen_drag(true, 40, 30, my, 16);
    match mode.detached() {
        Some(anchored) => {
            assert_eq!(anchored.x(), my.x() - delta.0);
            assert_eq!(anchored.y(), my.y() - delta.1);
        },
        None => panic!("a drag must leave the map anchored"),
    }
    // an explicit recenter goes back to following the live position
    mode = MapCenterMode::MyPosition;
    assert_eq!(mode.position(my), my);
}

#[test]
fn cached_center_tile_is_drawn_and_neighbors_requested() {
    let mut tiles = fresh_cache(64);
    let pos = places::wroclaw_glowny();
    let center = pos.tile_id(16);
    let world = pos.project(16);
    tiles.insert_tile(center, sample_tile());
    let clip = PixelRect { min_x: -400, min_y: -300, max_x: 400, max_y: 300 };
    let (draw, complete) = flood_fill_tiles(&mut tiles, center, world, clip);
    assert!(complete);
    // the cached center is drawn at its exact screen rectangle, nothing else
    assert_eq!(draw.len(), 1);
    assert_eq!(draw[0].0, center);
    assert_eq!(draw[0].1.min_x, -108);
    assert_eq!(draw[0].1.min_y, -67);
    assert_eq!(draw[0].1.max_x, 148);
    assert_eq!(draw[0].1.max_y, 189);
    // its four missing neighbors were requested, but not expanded further
    let mut requested = Vec::new();
    while let Some(id) = tiles.take_request() {
        requested.push(id);
    }
    assert_eq!(requested.len(), 4);
    assert!(requested.contains(&center.north().unwrap()));
    assert!(requested.contains(&center.east().unwrap()));
    assert!(requested.contains(&center.south().unwrap()));
    assert!(requested.contains(&center.west().unwrap()));
}

#[test]
fn fully_cached_neighborhood_is_drawn_without_gaps() {
    let mut tiles = fresh_cache(64);
    let pos = places::wroclaw_glowny();
    let center = pos.tile_id(16);
    let world = pos.project(16);
    let mut block = Vec::new();
    for dx in -1i64..=1 {
        for dy in -1i64..=1 {
            let id = TileId {
                x: (center.x as i64 + dx) as u32,
                y: (center.y as i64 + dy) as u32,
                zoom: 16,
            };
            block.push(id);
            tiles.insert_tile(id, sample_tile());
        }
    }
    let clip = PixelRect { min_x: -2000, min_y: -2000, max_x: 2000, max_y: 2000 };
    let (draw, complete) = flood_fill_tiles(&mut tiles, center, world, clip);
    assert!(complete);
    assert_eq!(draw[0].0, center);
    for id in block {
        assert!(draw.iter().any(|entry| entry.0 == id));
    }
}

#[test]
fn culled_start_tile_is_not_drawn_or_requested() {
    let mut tiles = fresh_cache(64);
    let pos = places::wroclaw_glowny();
    let world = pos.project(16);
    // a tile twenty columns east of the map center: its screen rectangle
    // lies far outside the clip rectangle, so the walk stops at once
    let near = pos.tile_id(16);
    let far = TileId { x: near.x + 20, y: near.y, zoom: 16 };
    tiles.insert_tile(far, sample_tile());
    let clip = PixelRect { min_x: -400, min_y: -300, max_x: 400, max_y: 300 };
    let (draw, complete) = flood_fill_tiles(&mut tiles, far, world, clip);
    assert!(complete);
    assert!(draw.is_empty());
    assert_eq!(tiles.take_request(), None);
}

#[test]
fn widget_frame_draws_the_cached_center() {
    let mut memory = MapMemory::default();
    memory.osm = true;
    let mut tiles = fresh_cache(64);
    let pos = places::wroclaw_glowny();
    let center = pos.tile_id(16);
    tiles.insert_tile(center, sample_tile());
    let mut widget = MapWidget::new(memory, pos);
    let clip = PixelRect { min_x: -400, min_y: -300, max_x: 400, max_y: 300 };
    let (draw, complete) = widget.ui(&mut tiles, clip, false, 0, 0);
    assert!(complete);
    assert!(!draw.is_empty());
    assert_eq!(draw[0].0, center);
    // the widget leaves the state machine alone without a drag
    assert_eq!(widget.memory.center_mode, MapCenterMode::MyPosition);
}

#[test]
fn widget_with_tile_layer_off_draws_nothing() {
    let memory = MapMemory::default();
    let mut tiles = fresh_cache(8);
    let mut widget = MapWidget::new(memory, places::wroclaw_glowny());
    let clip = PixelRect { min_x: -400, min_y: -300, max_x: 400, max_y: 300 };
    let (draw, _complete) = widget.ui(&mut tiles, clip, true, 12, -7);
    assert!(draw.is_empty());
    assert_eq!(tiles.take_request(), None);
    // the drag still drove the state machine
    assert_eq!(widget.memory.center_mode, MapCenterMode::Exact(places::wroclaw_glowny()));
}

#[test]
fn missing_visible_center_tile_is_requested_by_the_widget() {
    let mut memory = MapMemory::default();
    memory.osm = true;
    let mut tiles = fresh_cache(64);
    let pos = places::wroclaw_glowny();
    let center = pos.tile_id(16);
    let mut widget = MapWidget::new(memory, pos);
    let clip = PixelRect { min_x: -400, min_y: -300, max_x: 400, max_y: 300 };
    let (draw, complete) = widget.ui(&mut tiles, clip, false, 0, 0);
    assert!(complete);
    assert!(draw.is_empty());
    // the center tile, an on-screen miss, went into the request buffer
    assert_eq!(tiles.take_request(), Some(center));
    assert_eq!(tiles.take_request(), None);
}
