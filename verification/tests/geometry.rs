//! Positions, bounding boxes and projection of geometries.

use geojson::{Geometry, GeometryValue, Position};
use mlt_geojson::geometry::{lon_lat_alt, project_geometry, Frame, GeometryValueExt};
use mlt_geojson::project::{Projection, Tile};
use mlt_geojson::wkt::{Coord, Dimension, Wkt};

fn at(ordinates: &[f64]) -> Position {
    Position::from(ordinates.to_vec())
}

fn value(text: &str) -> GeometryValue {
    let geometry: Geometry = serde_json::from_str(text).expect("valid geometry");
    geometry.value
}

/// The box of a geometry, as doubles.
fn bbox(value: &GeometryValue) -> Option<(f64, f64, f64, f64)> {
    value.lonlat_bbox().map(|b| {
        let (west, south, east, north) = b.to_corners();
        (
            f64::from_bits(west),
            f64::from_bits(south),
            f64::from_bits(east),
            f64::from_bits(north),
        )
    })
}

fn east(lon: u64, _zoom: u8, _col: u32, extent: u32) -> i32 {
    f64::from_bits(lon) as i32 + extent as i32
}

fn south(lat: u64, _zoom: u8, _row: u32, _extent: u32) -> i32 {
    -(f64::from_bits(lat) as i32)
}

fn height(alt: u64) -> i32 {
    f64::from_bits(alt) as i32 * 100
}

fn project(value: &GeometryValue, dim: Dimension) -> Option<Wkt> {
    let tile = Tile { zoom: 3, col: 1, row: 2 };
    project_geometry(value, Frame { dim, tile, extent: 16 }, &Projection { east, south, height })
}

fn xy(x: i32, y: i32) -> Coord {
    Coord { x, y, z: None }
}

fn xyz(x: i32, y: i32, z: i32) -> Coord {
    Coord { x, y, z: Some(z) }
}

#[test]
fn short_positions_have_no_place() {
    assert_eq!(lon_lat_alt(&at(&[])), None);
    assert_eq!(lon_lat_alt(&at(&[1.0])), None);
    let (one, two, three) = (1f64.to_bits(), 2f64.to_bits(), 3f64.to_bits());
    assert_eq!(lon_lat_alt(&at(&[1.0, 2.0])), Some((one, two, None)));
    assert_eq!(lon_lat_alt(&at(&[1.0, 2.0, 3.0])), Some((one, two, Some(three))));
    assert_eq!(lon_lat_alt(&at(&[1.0, 2.0, 3.0, 4.0])), Some((one, two, Some(three))));
}

#[test]
fn positions_stand_in_order() {
    let first = |text: &str| -> Vec<f64> { value(text).positions().iter().map(|p| p[0]).collect() };
    assert_eq!(first(r#"{"type":"Point","coordinates":[1,0]}"#), vec![1.0]);
    assert_eq!(first(r#"{"type":"MultiPoint","coordinates":[[1,0],[2,0]]}"#), vec![1.0, 2.0]);
    assert_eq!(first(r#"{"type":"LineString","coordinates":[[2,0],[1,0]]}"#), vec![2.0, 1.0]);
    assert_eq!(
        first(r#"{"type":"MultiLineString","coordinates":[[[1,0],[2,0]],[[3,0],[4,0]]]}"#),
        vec![1.0, 2.0, 3.0, 4.0]
    );
    assert_eq!(
        first(r#"{"type":"Polygon","coordinates":[[[1,0],[2,0],[3,0],[1,0]]]}"#),
        vec![1.0, 2.0, 3.0, 1.0]
    );
    assert_eq!(
        first(
            r#"{"type":"MultiPolygon","coordinates":[[[[1,0],[2,0],[3,0],[1,0]]],[[[4,0],[5,0],[6,0],[4,0]]]]}"#
        ),
        vec![1.0, 2.0, 3.0, 1.0, 4.0, 5.0, 6.0, 4.0]
    );
    assert_eq!(
        first(
            r#"{"type":"GeometryCollection","geometries":[
                {"type":"Point","coordinates":[1,0]},
                {"type":"GeometryCollection","geometries":[{"type":"Point","coordinates":[2,0]}]},
                {"type":"Point","coordinates":[3,0]}]}"#
        ),
        vec![1.0, 2.0, 3.0]
    );
}

#[test]
fn any_third_ordinate_is_a_z() {
    assert!(!value(r#"{"type":"LineString","coordinates":[[0,0],[1,1]]}"#).has_z());
    assert!(value(r#"{"type":"LineString","coordinates":[[0,0],[1,1,0]]}"#).has_z());
    assert!(value(
        r#"{"type":"GeometryCollection","geometries":[{"type":"Point","coordinates":[1,2,3]}]}"#
    )
    .has_z());
}

#[test]
fn the_box_bounds_all_positions() {
    let line = value(r#"{"type":"LineString","coordinates":[[3,-4],[-1,7],[2,9.5],[-6,0]]}"#);
    assert_eq!(bbox(&line), Some((-6.0, -4.0, 3.0, 9.5)));
    let point = value(r#"{"type":"Point","coordinates":[1.5,-2.5]}"#);
    assert_eq!(bbox(&point), Some((1.5, -2.5, 1.5, -2.5)));
}

#[test]
fn short_positions_are_out_of_the_box() {
    let short = GeometryValue::MultiPoint { coordinates: vec![at(&[9.0]), at(&[])] };
    assert_eq!(bbox(&short), None);
    let mixed = GeometryValue::MultiPoint {
        coordinates: vec![at(&[9.0]), at(&[1.0, 2.0]), at(&[])],
    };
    assert_eq!(bbox(&mixed), Some((1.0, 2.0, 1.0, 2.0)));
    let none = GeometryValue::MultiPoint { coordinates: vec![] };
    assert_eq!(bbox(&none), None);
}

#[test]
fn what_is_no_number_gives_way() {
    let nan = f64::NAN;
    let mixed = GeometryValue::LineString {
        coordinates: vec![at(&[nan, nan]), at(&[1.0, -2.0]), at(&[nan, 5.0])],
    };
    assert_eq!(bbox(&mixed), Some((1.0, -2.0, 1.0, 5.0)));
}

#[test]
fn infinities_and_zeros_are_ordered() {
    let wide = GeometryValue::LineString {
        coordinates: vec![
            at(&[f64::INFINITY, -0.0]),
            at(&[-3.0, 0.0]),
            at(&[f64::NEG_INFINITY, -1e-300]),
        ],
    };
    assert_eq!(bbox(&wide), Some((f64::NEG_INFINITY, -1e-300, f64::INFINITY, 0.0)));
}

#[test]
fn every_container_has_the_layer_dimension() {
    let polygon = value(r#"{"type":"MultiPolygon","coordinates":[[[[1,2,3],[4,5],[6,7,8],[1,2,3]]]]}"#);
    match project(&polygon, Dimension::XYZ) {
        Some(Wkt::MultiPolygon(m)) => {
            assert_eq!(m.dim, Dimension::XYZ);
            assert_eq!(m.polygons.len(), 1);
            assert_eq!(m.polygons[0].dim, Dimension::XYZ);
            assert_eq!(m.polygons[0].rings[0].dim, Dimension::XYZ);
            assert_eq!(
                m.polygons[0].rings[0].coords,
                vec![
                    xyz(17, -2, 300),
                    xyz(20, -5, 0),
                    xyz(22, -7, 800),
                    xyz(17, -2, 300)
                ]
            );
        }
        other => panic!("{other:?}"),
    }
    match project(&polygon, Dimension::XY) {
        Some(Wkt::MultiPolygon(m)) => {
            assert_eq!(m.polygons[0].rings[0].coords[0], xy(17, -2));
            assert_eq!(m.polygons[0].rings[0].coords[2], xy(22, -7));
        }
        other => panic!("{other:?}"),
    }
}

#[test]
fn each_kind_has_its_image() {
    let lines = value(r#"{"type":"MultiLineString","coordinates":[[[1,2],[3,4]],[[5,6],[7,8]]]}"#);
    match project(&lines, Dimension::XY) {
        Some(Wkt::MultiLineString(m)) => {
            assert_eq!(m.lines.len(), 2);
            assert_eq!(m.lines[1].coords, vec![xy(21, -6), xy(23, -8)]);
        }
        other => panic!("{other:?}"),
    }
    let points = value(r#"{"type":"MultiPoint","coordinates":[[1,2],[3,4]]}"#);
    match project(&points, Dimension::XY) {
        Some(Wkt::MultiPoint(m)) => {
            let coords: Vec<Coord> = m.points.iter().map(|p| p.coord).collect();
            assert_eq!(coords, vec![xy(17, -2), xy(19, -4)]);
        }
        other => panic!("{other:?}"),
    }
    let polygon = value(r#"{"type":"Polygon","coordinates":[[[1,2],[3,4],[5,6],[1,2]]]}"#);
    match project(&polygon, Dimension::XY) {
        Some(Wkt::Polygon(p)) => assert_eq!(p.rings[0].coords.len(), 4),
        other => panic!("{other:?}"),
    }
}

#[test]
fn short_positions_project_as_the_origin() {
    let line = GeometryValue::LineString { coordinates: vec![at(&[9.0]), at(&[1.0, 2.0])] };
    match project(&line, Dimension::XYZ) {
        Some(Wkt::LineString(l)) => assert_eq!(l.coords, vec![xyz(16, 0, 0), xyz(17, -2, 0)]),
        other => panic!("{other:?}"),
    }
}

#[test]
fn empty_geometries_and_collections_have_no_image() {
    let line = GeometryValue::LineString { coordinates: vec![] };
    assert_eq!(project(&line, Dimension::XY), None);
    let polygon = GeometryValue::Polygon { coordinates: vec![vec![]] };
    assert_eq!(project(&polygon, Dimension::XY), None);
    let collection = value(
        r#"{"type":"GeometryCollection","geometries":[{"type":"Point","coordinates":[1,2]}]}"#,
    );
    assert_eq!(project(&collection, Dimension::XY), None);
}
