use walkers::providers;
use walkers::providers::MapType;
use walkers::providers::Providers;
use walkers::Tile;
use walkers::TileId;
use walkers::Tiles;

fn sample_tile() -> Tile {
    Tile::new(2, 2, vec![7u8; 16])
}

fn fresh_cache(capacity: usize) -> Tiles {
    Tiles::new(providers::new(Providers::OpenStreetMap, MapType::Standart), capacity)
}

#[test]
fn lookup_twice_enqueues_once() {
    let mut tiles = fresh_cache(8);
    let id = TileId { x: 1, y: 2, zoom: 4 };
    assert!(tiles.lookup_or_request(id).is_none());
    assert!(tiles.lookup_or_request(id).is_none());
    assert_eq!(tiles.take_request(), Some(id));
    assert_eq!(tiles.take_request(), None);
}

#[test]
fn insert_makes_lookup_hit_and_clears_pending() {
    let mut tiles = fresh_cache(8);
    let id = TileId { x: 3, y: 5, zoom: 6 };
    assert!(tiles.lookup_or_request(id).is_none());
    tiles.insert_tile(id, sample_tile());
    let hit = tiles.lookup_or_request(id).expect("inserted tile must be found");
    assert_eq!(hit.width(), 2);
    assert_eq!(hit.height(), 2);
    assert_eq!(hit.pixels().len(), 16);
    // the hit enqueues nothing new
    assert_eq!(tiles.take_request(), Some(id));
    assert_eq!(tiles.take_request(), None);
}

#[test]
fn distinct_tiles_are_cached_separately() {
    let mut tiles = fresh_cache(8);
    let a = TileId { x: 0, y: 0, zoom: 1 };
    let b = TileId { x: 1, y: 0, zoom: 1 };
    tiles.insert_tile(a, Tile::new(1, 1, vec![1, 2, 3, 4]));
    tiles.insert_tile(b, Tile::new(2, 1, vec![0u8; 8]));
    assert_eq!(tiles.lookup_or_request(a).unwrap().width(), 1);
    assert_eq!(tiles.lookup_or_request(b).unwrap().width(), 2);
}

#[test]
fn full_request_buffer_drops_new_requests_silently() {
    let mut tiles = fresh_cache(1);
    let first = TileId { x: 1, y: 1, zoom: 3 };
    let second = TileId { x: 2, y: 1, zoom: 3 };
    assert!(tiles.lookup_or_request(first).is_none());
    assert!(tiles.lookup_or_request(second).is_none());
    // only the first fit; the second was not marked pending either
    assert_eq!(tiles.take_request(), Some(first));
    assert_eq!(tiles.take_request(), None);
    // with room again, a later frame's miss retries the second
    assert!(tiles.lookup_or_request(second).is_none());
    assert_eq!(tiles.take_request(), Some(second));
}

#[test]
fn request_failed_allows_a_new_request() {
    let mut tiles = fresh_cache(4);
    let id = TileId { x: 9, y: 9, zoom: 5 };
    assert!(tiles.lookup_or_request(id).is_none());
    assert_eq!(tiles.take_request(), Some(id));
    // still pending: no duplicate request while the fetch is in flight
    assert!(tiles.lookup_or_request(id).is_none());
    assert_eq!(tiles.take_request(), None);
    // after the fetch fails, the next miss requests again
    tiles.request_failed(id);
    assert!(tiles.lookup_or_request(id).is_none());
    assert_eq!(tiles.take_request(), Some(id));
}

#[test]
fn requests_are_served_in_fifo_order() {
    let mut tiles = fresh_cache(8);
    let ids = [
        TileId { x: 0, y: 0, zoom: 2 },
        TileId { x: 1, y: 0, zoom: 2 },
        TileId { x: 2, y: 0, zoom: 2 },
    ];
    for id in ids {
        assert!(tiles.lookup_or_request(id).is_none());
    }
    for id in ids {
        assert_eq!(tiles.take_request(), Some(id));
    }
}

#[test]
fn cache_reports_its_provider_attribution() {
    let tiles = fresh_cache(2);
    assert_eq!(tiles.attribution().text, "OpenStreetMap contributors");
}

#[test]
fn rgba_dump_parsing() {
    // 2 by 1 pixels: eight header bytes, then eight pixel bytes
    let mut bytes: Vec<u8> = vec![0, 0, 0, 2, 0, 0, 0, 1];
    bytes.extend_from_slice(&[9u8; 8]);
    let tile = Tile::from_rgba_dump(&bytes).expect("a well-formed dump parses");
    assert_eq!(tile.width(), 2);
    assert_eq!(tile.height(), 1);
    assert_eq!(tile.pixels().as_slice(), &[9u8; 8]);
    // a truncated header, a short body and a long body all fail
    assert!(Tile::from_rgba_dump(&bytes[..7]).is_none());
    assert!(Tile::from_rgba_dump(&bytes[..15]).is_none());
    bytes.push(0);
    assert!(Tile::from_rgba_dump(&bytes).is_none());
}
