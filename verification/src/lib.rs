//! A slippy-map engine: Web Mercator projection over fixed-point
//! coordinates, viewport state with momentum panning, tile visibility
//! planning with a bounded cache, vector layers with polygon
//! triangulation, a spatial index for pixel hit-testing, and GeoJSON
//! ingestion.
//!
//! Geographic coordinates are carried in microdegrees (`i64`, one unit
//! is 1e-6 degree); world and screen positions in micropixels (`i64`,
//! one unit is 1e-6 pixel). All geometry therefore stays in exact
//! integer arithmetic.

pub mod color;
pub mod engine;
pub mod error;
pub mod geo;
pub mod geojson;
pub mod layers;
pub mod momentum;
pub mod spatial;
pub mod tiles;
pub mod triangulate;
pub mod viewport;
