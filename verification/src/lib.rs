//! A slippy map library: a pannable, zoomable raster map assembled from
//! square image tiles addressed by a web-mercator tile pyramid.

pub mod download;
pub mod map;
pub mod mercator;
pub mod places;
pub mod position;
pub mod providers;
pub mod tiles;

pub use map::InvalidZoom;
pub use map::MapCenterMode;
pub use map::MapMemory;
pub use map::MapWidget;
pub use map::Zoom;
pub use mercator::TileId;
pub use position::Position;
pub use tiles::Tile;
pub use tiles::Tiles;
