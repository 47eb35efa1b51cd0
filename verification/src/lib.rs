//! Converts (possibly 3D) WGS84 `GeoJSON` into a `z/x/y` tree of MLT tiles.
//!
//! `GeoJSON` has no layer or tiling concept, so a whole document becomes one
//! named layer, projected into every tile of every requested zoom level. The
//! layer's dimension (2D or 3D) and its property schema are decided once, for
//! all features, so that all tiles share them.

pub mod convert;
pub mod encode;
pub mod geometry;
pub mod json;
pub mod laws;
pub mod mercator;
pub mod mlt;
pub mod ordinate;
pub mod placement;
pub mod project;
pub mod properties;
pub mod size;
pub mod tiles;
pub mod wkt;
