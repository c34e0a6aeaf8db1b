use walkers::providers;
use walkers::providers::Google;
use walkers::providers::MapType;
use walkers::providers::OpenStreetMap;
use walkers::providers::Providers;
use walkers::providers::TileSource;
use walkers::TileId;

#[test]
fn openstreetmap_url_format() {
    let provider = providers::new(Providers::OpenStreetMap, MapType::Standart);
    let url = provider.tile_url(TileId { x: 17508, y: 11229, zoom: 16 });
    assert_eq!(url, "https://tile.openstreetmap.org/16/17508/11229.png");
}

#[test]
fn google_hybrid_selects_letter_y() {
    let provider = providers::new(Providers::Google, MapType::Hybrid);
    let url = provider.tile_url(TileId { x: 1, y: 2, zoom: 3 });
    assert_eq!(url, "http://mt1.google.com/vt/lyrs=y&x=1&y=2&z=3");
}

#[test]
fn google_layer_letters() {
    let cases = [
        (MapType::Standart, "lyrs=m"),
        (MapType::Satellite, "lyrs=s"),
        (MapType::Hybrid, "lyrs=y"),
        (MapType::Roads, "lyrs=h"),
        (MapType::Terrain, "lyrs=p"),
    ];
    for (map_type, needle) in cases {
        let url = providers::new(Providers::Google, map_type).tile_url(TileId {
            x: 0,
            y: 0,
            zoom: 0,
        });
        assert!(url.contains(needle));
    }
}

#[test]
fn geoportal_swaps_row_and_column() {
    let provider = providers::new(Providers::Geoportal, MapType::Standart);
    let url = provider.tile_url(TileId { x: 5, y: 7, zoom: 2 });
    assert!(url.starts_with(
        "https://mapy.geoportal.gov.pl/wss/service/PZGIK/ORTO/WMTS/StandardResolution?"
    ));
    assert!(url.ends_with("&TILEMATRIX=EPSG:3857:2&TILEROW=7&TILECOL=5"));
}

#[test]
fn multi_digit_coordinates_format_in_full() {
    let provider = providers::new(Providers::OpenStreetMap, MapType::Standart);
    let url = provider.tile_url(TileId { x: 524287, y: 0, zoom: 19 });
    assert_eq!(url, "https://tile.openstreetmap.org/19/524287/0.png");
}

#[test]
fn attributions_name_the_source() {
    let a = providers::new(Providers::OpenStreetMap, MapType::Standart).attribution();
    assert_eq!(a.text, "OpenStreetMap contributors");
    assert_eq!(a.url, "https://www.openstreetmap.org/copyright");
    let g = providers::new(Providers::Google, MapType::Satellite).attribution();
    assert_eq!(g.text, "Google Maps");
    let p = providers::new(Providers::Geoportal, MapType::Standart).attribution();
    assert_eq!(p.url, "https://www.geoportal.gov.pl/");
}

#[test]
fn trait_sources_match_the_sum_type() {
    let id = TileId { x: 3, y: 4, zoom: 5 };
    let boxed: Box<dyn TileSource> = Box::new(OpenStreetMap);
    assert_eq!(
        boxed.tile_url(id),
        providers::new(Providers::OpenStreetMap, MapType::Standart).tile_url(id)
    );
    let google: Box<dyn TileSource> = Box::new(Google::new(MapType::Hybrid));
    assert_eq!(
        google.tile_url(id),
        providers::new(Providers::Google, MapType::Hybrid).tile_url(id)
    );
    assert_eq!(boxed.attribution().text, "OpenStreetMap contributors");
}
