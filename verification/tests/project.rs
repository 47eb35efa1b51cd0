//! Known map points on the grid of a tile.

use martin_tile_utils::{wgs84_to_webmercator, EARTH_CIRCUMFERENCE};
use mlt_geojson::project::{self, Projection, Tile};
use mlt_geojson::wkt::Coord;

fn east(lon: u64, zoom: u8, col: u32, extent: u32) -> i32 {
    let (wmx, _) = wgs84_to_webmercator(f64::from_bits(lon), 0.0);
    let tile_len = EARTH_CIRCUMFERENCE / f64::from(1_u32 << zoom);
    let min_x = -EARTH_CIRCUMFERENCE / 2.0 + f64::from(col) * tile_len;
    ((wmx - min_x) / tile_len * f64::from(extent)).round() as i32
}

fn south(lat: u64, zoom: u8, row: u32, extent: u32) -> i32 {
    let max_lat = 85.051_128_779_806_59;
    let lat = f64::from_bits(lat).clamp(-max_lat, max_lat);
    let (_, wmy) = wgs84_to_webmercator(0.0, lat);
    let tile_len = EARTH_CIRCUMFERENCE / f64::from(1_u32 << zoom);
    let max_y = EARTH_CIRCUMFERENCE / 2.0 - f64::from(row) * tile_len;
    ((max_y - wmy) / tile_len * f64::from(extent)).round() as i32
}

fn height(alt: u64) -> i32 {
    (f64::from_bits(alt) / 0.01).round() as i32
}

fn tile_local(
    lon: f64,
    lat: f64,
    alt: Option<f64>,
    zoom: u8,
    col: u32,
    row: u32,
    extent: u32,
    dim_xyz: bool,
) -> Coord {
    project::tile_local(
        lon.to_bits(),
        lat.to_bits(),
        alt.map(f64::to_bits),
        Tile { zoom, col, row },
        extent,
        dim_xyz,
        &Projection { east, south, height },
    )
}

#[test]
fn origin_at_z0_is_tile_center() {
    let c = tile_local(0.0, 0.0, None, 0, 0, 0, 4096, false);
    assert_eq!(c.x, 2048);
    assert_eq!(c.y, 2048);
    assert_eq!(c.z, None);
}

#[test]
fn origin_at_z1_lands_on_shared_corner() {
    // The equator/prime-meridian origin sits at the meeting corner of the
    // four z1 tiles: bottom-right of (0,0) and top-left of (1,1).
    let c = tile_local(0.0, 0.0, None, 1, 0, 0, 4096, false);
    assert_eq!((c.x, c.y), (4096, 4096));
    let c = tile_local(0.0, 0.0, None, 1, 1, 1, 4096, false);
    assert_eq!((c.x, c.y), (0, 0));
}

#[test]
fn y_axis_is_flipped() {
    let north = tile_local(0.0, 60.0, None, 0, 0, 0, 4096, false);
    let south = tile_local(0.0, -60.0, None, 0, 0, 0, 4096, false);
    assert_eq!((north.x, north.y), (2048, 1189));
    assert_eq!(south.y, 2907);
    // Northern latitudes sit above the center, southern below.
    assert!(north.y < 2048);
    assert!(2048 < south.y);
}

#[test]
fn white_house_z14() {
    // X/Y use the slippy transform; Z is centimeters: round(100 / 0.01) = 10000.
    let c = tile_local(
        -77.036_560,
        38.897_957,
        Some(100.0),
        14,
        4685,
        6267,
        4096,
        true,
    );
    assert_eq!(c.x, 4016);
    assert_eq!(c.y, 2438);
    assert_eq!(c.z, Some(10000));
}

#[test]
fn z_uses_fixed_centimeter_scale() {
    // Z is centimeters: round(alt / 0.01), independent of zoom/extent.
    assert_eq!(
        tile_local(0.0, 0.0, Some(100.0), 14, 0, 0, 4096, true).z,
        Some(10000)
    );
    assert_eq!(
        tile_local(0.0, 0.0, Some(0.01), 14, 0, 0, 4096, true).z,
        Some(1)
    );
    assert_eq!(
        tile_local(0.0, 0.0, Some(61.01), 14, 0, 0, 4096, true).z,
        Some(6101)
    );
    // Below-sea-level altitudes round to negative grid units.
    assert_eq!(
        tile_local(0.0, 0.0, Some(-5.0), 14, 0, 0, 4096, true).z,
        Some(-500)
    );
}

#[test]
fn z_is_zoom_independent() {
    // Unlike X/Y, the same altitude yields the same Z grid value at every zoom.
    let z0 = tile_local(0.0, 0.0, Some(123.45), 0, 0, 0, 4096, true).z;
    let z14 = tile_local(0.0, 0.0, Some(123.45), 14, 0, 0, 4096, true).z;
    assert_eq!(z0, Some(12345));
    assert_eq!(z0, z14);
}

#[test]
fn absent_altitude_in_3d_layer_is_zero() {
    let c = tile_local(0.0, 0.0, None, 14, 0, 0, 4096, true);
    assert_eq!(c.z, Some(0));
}

#[test]
fn altitude_is_dropped_in_2d_layer() {
    let c = tile_local(0.0, 0.0, Some(100.0), 14, 0, 0, 4096, false);
    assert_eq!(c.z, None);
}

#[test]
fn axes_are_independent() {
    // X does not depend on latitude or row, nor Y on longitude or column.
    let a = tile_local(-77.036_560, 38.897_957, None, 14, 4685, 6267, 4096, false);
    let b = tile_local(-77.036_560, -12.5, Some(7.0), 14, 4685, 11, 4096, true);
    let c = tile_local(101.25, 38.897_957, None, 14, 3, 6267, 4096, false);
    assert_eq!(a.x, b.x);
    assert_eq!(a.y, c.y);
    assert_eq!((a.x, a.y), (4016, 2438));
}

#[test]
fn latitudes_beyond_the_map_are_clamped() {
    let pole = tile_local(0.0, 90.0, None, 0, 0, 0, 4096, false);
    assert_eq!((pole.x, pole.y), (2048, 0));
    let pole = tile_local(0.0, -90.0, None, 0, 0, 0, 4096, false);
    assert_eq!(pole.y, 4096);
}
