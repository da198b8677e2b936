//! Conversion of GameMaker room data into Tiled maps and tilesets.
pub mod convert;
pub mod convert_detection;
pub mod convert_laws;
pub mod export;
pub mod extract;
pub mod model;
pub mod raster;
pub mod regress;
pub mod render;
pub mod render_laws;
pub mod rooms;
pub mod schema;
pub mod text;
pub mod tile_flags;
