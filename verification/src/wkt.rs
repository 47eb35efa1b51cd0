//! Tile-local geometries on the integer grid, each container stamped with its
//! dimension.

use vstd::prelude::*;

verus! {

/// Whether coordinates have a Z.
#[derive(Clone, Copy, Debug, PartialEq, Eq, Structural)]
pub enum Dimension {
    XY,
    XYZ,
}

/// A vertex on the grid.
#[derive(Clone, Copy, Debug, PartialEq, Eq)]
pub struct Coord {
    pub x: i32,
    pub y: i32,
    pub z: Option<i32>,
}

#[derive(Debug, PartialEq, Eq)]
pub struct Point {
    pub coord: Coord,
    pub dim: Dimension,
}

#[derive(Debug, PartialEq, Eq)]
pub struct LineString {
    pub coords: Vec<Coord>,
    pub dim: Dimension,
}

/// A polygon: its exterior ring, and then its interior rings.
#[derive(Debug, PartialEq, Eq)]
pub struct Polygon {
    pub rings: Vec<LineString>,
    pub dim: Dimension,
}

#[derive(Debug, PartialEq, Eq)]
pub struct MultiPoint {
    pub points: Vec<Point>,
    pub dim: Dimension,
}

#[derive(Debug, PartialEq, Eq)]
pub struct MultiLineString {
    pub lines: Vec<LineString>,
    pub dim: Dimension,
}

#[derive(Debug, PartialEq, Eq)]
pub struct MultiPolygon {
    pub polygons: Vec<Polygon>,
    pub dim: Dimension,
}

/// A geometry of one of the six kinds that a layer can hold.
#[derive(Debug, PartialEq, Eq)]
pub enum Wkt {
    Point(Point),
    LineString(LineString),
    Polygon(Polygon),
    MultiPoint(MultiPoint),
    MultiLineString(MultiLineString),
    MultiPolygon(MultiPolygon),
}

} // verus!
