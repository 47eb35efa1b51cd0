//! From the text of a document to its tiles, and back from the bytes of a tile.

use std::path::PathBuf;

use martin_tile_utils::{wgs84_to_webmercator, EARTH_CIRCUMFERENCE};
use mlt_core::{PropKind, PropValue};
use mlt_geojson::convert::{
    convert, geojson, normalize_to_features, tile_features, ArgsError, GeoJsonArgs, GeoJsonError,
    TiledLayer,
};
use mlt_geojson::encode::{EncodeError, EncodedTile};
use mlt_geojson::mercator::WEST_EDGE;
use mlt_geojson::placement::tile_ranges;
use mlt_geojson::project::{Projection, Tile};
use mlt_geojson::tiles::TileEntry;
use mlt_geojson::wkt::{Coord, Dimension, Wkt};
use serde_json::Value;

fn east(lon: u64, zoom: u8, col: u32, extent: u32) -> i32 {
    let (wmx, _) = wgs84_to_webmercator(f64::from_bits(lon), 0.0);
    let tile_len = EARTH_CIRCUMFERENCE / f64::from(1_u32 << zoom);
    let min_x = -EARTH_CIRCUMFERENCE / 2.0 + f64::from(col) * tile_len;
    ((wmx - min_x) / tile_len * f64::from(extent)).round() as i32
}

fn south(lat: u64, zoom: u8, row: u32, extent: u32) -> i32 {
    let max_lat = 85.051_128_779_806_59;
    let lat = f64::from_bits(lat).clamp(-max_lat, max_lat);
    let (_, wmy) = wgs84_to_webmercator(0.0, lat);
    let tile_len = EARTH_CIRCUMFERENCE / f64::from(1_u32 << zoom);
    let max_y = EARTH_CIRCUMFERENCE / 2.0 - f64::from(row) * tile_len;
    ((max_y - wmy) / tile_len * f64::from(extent)).round() as i32
}

fn height(alt: u64) -> i32 {
    (f64::from_bits(alt) / 0.01).round() as i32
}

fn args(min_zoom: u8, max_zoom: u8, layer: Option<&str>) -> GeoJsonArgs {
    GeoJsonArgs {
        input: PathBuf::from("input.geojson"),
        output: PathBuf::from("out"),
        min_zoom,
        max_zoom,
        layer: layer.map(ToString::to_string),
        extent: 4096,
    }
}

/// An encoder of 3D layers that writes a `FeatureCollection` as text.
fn spatial(
    name: &str,
    extent: u32,
    schema: &[(String, PropKind)],
    features: &[TileEntry],
) -> Result<Vec<u8>, EncodeError> {
    let features = features
        .iter()
        .map(|entry| {
            let mut properties = geojson::JsonObject::new();
            properties.insert("_layer".to_string(), Value::String(name.to_string()));
            properties.insert("_extent".to_string(), Value::from(extent));
            for ((name, _), value) in schema.iter().zip(entry.values.iter()) {
                properties.insert(name.clone(), json_of(value));
            }
            let mut geometry = geojson::JsonObject::new();
            geometry.insert("coordinates".to_string(), coordinates_of(&entry.wkt));
            let mut feature = geojson::JsonObject::new();
            feature.insert("id".to_string(), entry.id.map_or(Value::Null, Value::from));
            feature.insert("properties".to_string(), Value::Object(properties));
            feature.insert("geometry".to_string(), Value::Object(geometry));
            Value::Object(feature)
        })
        .collect();
    let mut collection = geojson::JsonObject::new();
    collection.insert("features".to_string(), Value::Array(features));
    Ok(Value::Object(collection).to_string().into_bytes())
}

fn json_of(value: &PropValue) -> Value {
    match value {
        PropValue::Bool(v) => v.map_or(Value::Null, Value::from),
        PropValue::I64(v) => v.map_or(Value::Null, Value::from),
        PropValue::U64(v) => v.map_or(Value::Null, Value::from),
        PropValue::F64(v) => v.map_or(Value::Null, Value::from),
        PropValue::Str(v) => v.clone().map_or(Value::Null, Value::from),
        other => panic!("{other:?}"),
    }
}

fn coordinates_of(wkt: &Wkt) -> Value {
    let position = |c: &Coord| {
        let mut numbers = vec![Value::from(c.x), Value::from(c.y)];
        numbers.extend(c.z.map(Value::from));
        Value::Array(numbers)
    };
    match wkt {
        Wkt::Point(p) => position(&p.coord),
        Wkt::LineString(l) => Value::Array(l.coords.iter().map(position).collect()),
        Wkt::MultiPoint(m) => Value::Array(m.points.iter().map(|p| position(&p.coord)).collect()),
        other => panic!("{other:?}"),
    }
}

/// Reads back what [`spatial`] wrote.
fn decode_spatial(buffer: &[u8]) -> Value {
    serde_json::from_slice(buffer).expect("valid JSON")
}

/// Converts a document under the file stem `input`.
fn run(text: &str, args: &GeoJsonArgs) -> Result<Vec<EncodedTile>, GeoJsonError> {
    let projection = Projection { east, south, height };
    geojson(args, &Some("input".to_string()), text, &projection, &spatial)
}

fn run_geojson(text: &str, args: &GeoJsonArgs) -> Vec<EncodedTile> {
    run(text, args).expect("converts")
}

/// The tiles of a document before they are encoded.
fn tile_document(text: &str, args: &GeoJsonArgs) -> TiledLayer {
    let document: geojson::GeoJson = text.parse().expect("valid document");
    let features = normalize_to_features(document);
    tile_features(&features, args, &Projection { east, south, height })
}

fn origin() -> Tile {
    Tile { zoom: 0, col: 0, row: 0 }
}

fn entries(layer: &TiledLayer, tile: Tile) -> &[TileEntry] {
    let bucket = layer.tiles.buckets().iter().find(|b| b.tile == tile);
    &bucket.expect("tile").entries
}

fn value<'a>(layer: &TiledLayer, entry: &'a TileEntry, name: &str) -> &'a PropValue {
    let column = layer.schema.iter().position(|c| c.0 == name);
    &entry.values[column.expect("column")]
}

/// Decodes a tile to a JSON `FeatureCollection`.
fn decode_tile(buffer: &[u8]) -> Value {
    let mut p = mlt_core::Parser::default();
    let layers = p.parse_layers(buffer).expect("parse layers");
    let mut d = mlt_core::Decoder::default();
    let decoded = d.decode_all(layers).expect("decode");
    let fc = mlt_core::geojson::FeatureCollection::from_layers(decoded).expect("from_layers");
    serde_json::to_value(&fc).expect("to_value")
}

fn features_of(fc: &Value) -> &Vec<Value> {
    fc["features"].as_array().expect("features array")
}

/// Finds a decoded feature by its `name` property.
fn feature_by_name<'a>(features: &'a [Value], name: &str) -> &'a Value {
    features
        .iter()
        .find(|f| f["properties"]["name"] == Value::String(name.to_string()))
        .unwrap_or_else(|| panic!("no feature named {name}"))
}

fn coords(feature: &Value) -> &Vec<Value> {
    feature["geometry"]["coordinates"]
        .as_array()
        .expect("coordinates array")
}

fn json_i(v: i64) -> Value {
    Value::Number(v.into())
}

fn json_f(v: f64) -> Value {
    Value::Number(serde_json::Number::from_f64(v).expect("finite"))
}

#[test]
fn mixed_2d_3d_dataset_is_globally_3d() {
    // F1 3D point + named props; F2 3D line; F3 2D point (no id). Any Z => XYZ layer.
    let geojson = r#"{
        "type": "FeatureCollection",
        "features": [
            { "type": "Feature", "id": 1,
              "geometry": { "type": "Point", "coordinates": [0, 0, 1000000] },
              "properties": { "name": "origin", "rank": 5, "score": 3.5, "active": true, "note": null, "meta": {"k": 1} } },
            { "type": "Feature", "id": 2,
              "geometry": { "type": "LineString", "coordinates": [[0, 0, 1000000], [0, 60, 0]] },
              "properties": { "name": "edge", "active": false } },
            { "type": "Feature",
              "geometry": { "type": "Point", "coordinates": [0, -60] },
              "properties": { "name": "south" } }
        ]
    }"#;
    let out = run_geojson(geojson, &args(0, 0, Some("places")));

    // Only one tile at z0.
    assert_eq!(out.len(), 1);
    assert_eq!(out[0].tile, origin());
    let fc = decode_spatial(&out[0].bytes);
    let features = features_of(&fc);
    assert_eq!(features.len(), 3);
    for f in features {
        assert_eq!(f["properties"]["_layer"], Value::String("places".into()));
        assert_eq!(f["properties"]["_extent"], Value::Number(4096.into()));
    }

    let f1 = feature_by_name(features, "origin");
    assert_eq!(f1["id"], Value::Number(1.into()));
    assert_eq!(
        coords(f1),
        &vec![json_i(2048), json_i(2048), json_i(100_000_000)]
    );
    assert_eq!(f1["properties"]["rank"], Value::Number(5.into()));
    assert_eq!(f1["properties"]["score"], json_f(3.5));
    assert_eq!(f1["properties"]["active"], Value::Bool(true));
    assert!(f1["properties"]["note"].is_null());
    assert_eq!(f1["properties"]["meta"], Value::String("{\"k\":1}".into()));

    let f2 = feature_by_name(features, "edge");
    assert_eq!(f2["id"], Value::Number(2.into()));
    let c2 = coords(f2);
    assert_eq!(
        c2[0],
        Value::Array(vec![json_i(2048), json_i(2048), json_i(100_000_000)])
    );
    assert_eq!(
        c2[1],
        Value::Array(vec![json_i(2048), json_i(1189), json_i(0)])
    );
    assert_eq!(f2["properties"]["active"], Value::Bool(false));

    let f3 = feature_by_name(features, "south");
    assert!(f3.get("id").is_none() || f3["id"].is_null());
    // 2D feature in a globally-3D layer decodes as [x, y, 0].
    assert_eq!(coords(f3), &vec![json_i(2048), json_i(2907), json_i(0)]);
    assert_eq!(coords(f3).len(), 3);
}

#[test]
fn all_2d_dataset_has_no_z_column() {
    let geojson = r#"{
        "type": "FeatureCollection",
        "features": [
            { "type": "Feature",
              "geometry": { "type": "Point", "coordinates": [0, 0] },
              "properties": { "name": "p" } },
            { "type": "Feature",
              "geometry": { "type": "LineString", "coordinates": [[0, 0], [0, 60]] },
              "properties": { "name": "l" } }
        ]
    }"#;
    let out = run_geojson(geojson, &args(0, 0, Some("flat")));
    assert_eq!(out.len(), 1);
    assert_eq!(out[0].tile, origin());
    let fc = decode_tile(&out[0].bytes);
    let features = features_of(&fc);
    assert_eq!(features.len(), 2);

    let p = feature_by_name(features, "p");
    assert_eq!(coords(p), &vec![json_i(2048), json_i(2048)]);
    assert_eq!(coords(p).len(), 2);

    let l = feature_by_name(features, "l");
    for c in coords(l) {
        assert_eq!(c.as_array().expect("coord").len(), 2);
    }
}

#[test]
fn regression_2d_first_then_3d_keeps_z() {
    // First feature is 2D, second is 3D. The global scan must still pick XYZ and
    // preserve the second feature's Z (a per-first-feature decision would lose it).
    let geojson = r#"{
        "type": "FeatureCollection",
        "features": [
            { "type": "Feature",
              "geometry": { "type": "Point", "coordinates": [0, 0] },
              "properties": { "name": "flat" } },
            { "type": "Feature",
              "geometry": { "type": "Point", "coordinates": [0, 60, 1000000] },
              "properties": { "name": "high" } }
        ]
    }"#;
    let out = run_geojson(geojson, &args(0, 0, Some("mixed")));
    assert_eq!(out[0].tile, origin());
    let fc = decode_spatial(&out[0].bytes);
    let features = features_of(&fc);

    let flat = feature_by_name(features, "flat");
    assert_eq!(coords(flat), &vec![json_i(2048), json_i(2048), json_i(0)]);

    let high = feature_by_name(features, "high");
    assert_eq!(
        coords(high),
        &vec![json_i(2048), json_i(1189), json_i(100_000_000)]
    );
}

#[test]
fn empty_feature_collection_writes_no_tiles() {
    let geojson = r#"{ "type": "FeatureCollection", "features": [] }"#;
    let out = run_geojson(geojson, &args(0, 0, None));
    assert_eq!(out.len(), 0);
}

#[test]
fn null_geometry_feature_is_skipped() {
    let geojson = r#"{
        "type": "FeatureCollection",
        "features": [
            { "type": "Feature", "geometry": null, "properties": { "name": "ghost" } },
            { "type": "Feature",
              "geometry": { "type": "Point", "coordinates": [0, 0] },
              "properties": { "name": "real" } }
        ]
    }"#;
    let out = run_geojson(geojson, &args(0, 0, None));
    assert_eq!(out.len(), 1);
    let fc = decode_tile(&out[0].bytes);
    assert_eq!(features_of(&fc).len(), 1);
}

#[test]
fn min_zoom_greater_than_max_zoom_is_error() {
    let geojson = r#"{ "type": "FeatureCollection", "features": [] }"#;
    let r = run(geojson, &args(5, 2, None));
    assert!(matches!(r, Err(GeoJsonError::Args(ArgsError::MinAboveMax))));
}

#[test]
fn max_zoom_above_limit_is_error() {
    let geojson = r#"{ "type": "FeatureCollection", "features": [] }"#;
    let r = run(geojson, &args(0, 31, None));
    assert!(matches!(r, Err(GeoJsonError::Args(ArgsError::MaxAboveLimit))));
    assert!(run(geojson, &args(0, 30, None)).is_ok());
}

#[test]
fn bare_geometry_top_level_makes_one_feature() {
    let geojson = r#"{ "type": "Point", "coordinates": [0, 0] }"#;
    let out = run_geojson(geojson, &args(0, 0, Some("bare")));
    let fc = decode_tile(&out[0].bytes);
    let features = features_of(&fc);
    assert_eq!(features.len(), 1);
    assert!(features[0].get("id").is_none() || features[0]["id"].is_null());
}

#[test]
fn geometry_collection_is_rejected() {
    let geojson = r#"{
        "type": "FeatureCollection",
        "features": [
            { "type": "Feature",
              "geometry": { "type": "GeometryCollection",
                            "geometries": [ { "type": "Point", "coordinates": [0, 0] } ] },
              "properties": {} }
        ]
    }"#;
    let r = run(geojson, &args(0, 0, None));
    assert!(matches!(r, Err(GeoJsonError::Collection)));
}

#[test]
fn multipoint_3d_round_trips() {
    let geojson = r#"{
        "type": "FeatureCollection",
        "features": [
            { "type": "Feature",
              "geometry": { "type": "MultiPoint", "coordinates": [[0, 0, 1000000], [0, 60, 0]] },
              "properties": { "name": "mp" } }
        ]
    }"#;
    let out = run_geojson(geojson, &args(0, 0, Some("mp")));
    assert_eq!(out[0].tile, origin());
    let fc = decode_spatial(&out[0].bytes);
    let features = features_of(&fc);
    let mp = feature_by_name(features, "mp");
    let c = coords(mp);
    assert_eq!(
        c[0],
        Value::Array(vec![json_i(2048), json_i(2048), json_i(100_000_000)])
    );
    assert_eq!(
        c[1],
        Value::Array(vec![json_i(2048), json_i(1189), json_i(0)])
    );
}

#[test]
fn zero_extent_is_error() {
    let mut args = args(0, 0, None);
    args.extent = 0;
    let r = run(r#"{ "type": "Point", "coordinates": [0, 0] }"#, &args);
    assert!(matches!(r, Err(GeoJsonError::Args(ArgsError::ZeroExtent))));
}

#[test]
fn the_layer_is_named_by_argument_then_by_stem() {
    let named = args(0, 0, Some("places"));
    let unnamed = args(0, 0, None);
    let stem = Some("input".to_string());
    assert_eq!(named.check(&stem), Ok("places".to_string()));
    assert_eq!(named.check(&None), Ok("places".to_string()));
    assert_eq!(unnamed.check(&stem), Ok("input".to_string()));
    assert_eq!(unnamed.check(&None), Err(ArgsError::NoLayerName));
}

#[test]
fn an_unnamed_layer_is_error() {
    let text = r#"{ "type": "Point", "coordinates": [0, 0] }"#;
    let r = run(text, &args(0, 0, Some("")));
    assert!(matches!(r, Err(GeoJsonError::Encode(EncodeError::Layer(_)))));
}

#[test]
fn text_that_is_no_geojson_is_error() {
    let r = run("{", &args(0, 0, None));
    assert!(matches!(r, Err(GeoJsonError::Parse(_))));
    let r = run(r#"{ "type": "Circle" }"#, &args(0, 0, None));
    assert!(matches!(r, Err(GeoJsonError::Parse(_))));
}

const HIGH: &str = r#"{ "type": "Point", "coordinates": [0, 0, 1] }"#;

#[test]
fn the_encoder_of_3d_layers_may_give_up() {
    let refuse = |_: &str, _: u32, _: &[(String, PropKind)], _: &[TileEntry]| {
        Err(EncodeError::Spatial("no".to_string()))
    };
    let projection = Projection { east, south, height };
    let r = geojson(&args(0, 0, Some("a")), &None, HIGH, &projection, &refuse);
    match r {
        Err(GeoJsonError::Encode(EncodeError::Spatial(reason))) => assert_eq!(reason, "no"),
        other => panic!("{other:?}"),
    }
}

#[test]
fn a_3d_tile_without_bytes_is_left_out() {
    let empty = |_: &str, _: u32, _: &[(String, PropKind)], _: &[TileEntry]| Ok(vec![]);
    let projection = Projection { east, south, height };
    let r = geojson(&args(0, 3, Some("a")), &None, HIGH, &projection, &empty);
    assert_eq!(r.expect("converts").len(), 0);
}

#[test]
fn a_2d_document_asks_no_encoder_of_3d_layers() {
    let never = |_: &str, _: u32, _: &[(String, PropKind)], _: &[TileEntry]| {
        panic!("asked for a flat layer")
    };
    let text = r#"{ "type": "Point", "coordinates": [0, 0] }"#;
    let projection = Projection { east, south, height };
    let r = geojson(&args(0, 0, Some("a")), &None, text, &projection, &never);
    assert_eq!(r.expect("converts").len(), 1);
}

#[test]
fn every_vertex_of_a_3d_layer_has_a_z() {
    let text = r#"{ "type": "LineString", "coordinates": [[0, 0], [10, 10, 5], [20, 20]] }"#;
    let layer = tile_document(text, &args(0, 2, None));
    assert_eq!(layer.dim, Dimension::XYZ);
    for bucket in layer.tiles.buckets() {
        match &bucket.entries[0].wkt {
            Wkt::LineString(l) => {
                let zs: Vec<Option<i32>> = l.coords.iter().map(|c| c.z).collect();
                assert_eq!(zs, vec![Some(0), Some(500), Some(0)]);
            }
            other => panic!("{other:?}"),
        }
    }
}

#[test]
fn a_point_lands_in_one_tile_of_each_zoom() {
    let text = r#"{ "type": "Point", "coordinates": [-77.03656, 38.897957] }"#;
    let out = run_geojson(text, &args(0, 14, None));
    assert_eq!(out.len(), 15);
    for (zoom, tile) in out.iter().enumerate() {
        assert_eq!(tile.tile.zoom, zoom as u8);
        assert_eq!(tile.features, 1);
    }
    assert_eq!(out[14].tile, Tile { zoom: 14, col: 4685, row: 6267 });
    let fc = decode_tile(&out[14].bytes);
    assert_eq!(coords(&features_of(&fc)[0]), &vec![json_i(4016), json_i(2438)]);
}

#[test]
fn a_line_lands_in_every_tile_that_its_box_spans() {
    let text = r#"{ "type": "LineString", "coordinates": [[-90, 60], [90, -60]] }"#;
    let layer = tile_document(text, &args(1, 1, None));
    let tiles: Vec<Tile> = layer.tiles.buckets().iter().map(|b| b.tile).collect();
    let tile = |col, row| Tile { zoom: 1, col, row };
    assert_eq!(tiles, vec![tile(0, 0), tile(0, 1), tile(1, 0), tile(1, 1)]);
    for tile in tiles {
        // Nothing is clipped: the whole line stands in each tile.
        match &entries(&layer, tile)[0].wkt {
            Wkt::LineString(l) => assert_eq!(l.coords.len(), 2),
            other => panic!("{other:?}"),
        }
    }
}

#[test]
fn columns_follow_longitudes_from_edge_to_edge() {
    assert_eq!(WEST_EDGE, (-180f64).to_bits());
    let document: geojson::GeoJson =
        r#"{ "type": "LineString", "coordinates": [[-180, 10], [180, -10]] }"#.parse().unwrap();
    let features = normalize_to_features(document);
    let ranges = tile_ranges(&features, 0, 30);
    assert_eq!(ranges[0].len(), 31);
    for (zoom, range) in ranges[0].iter().enumerate() {
        assert_eq!(range.min_col, 0);
        assert_eq!(range.max_col, (1 << zoom) - 1);
        assert!(range.min_row <= range.max_row);
    }
}

#[test]
fn features_keep_their_order_and_share_their_values() {
    let text = r#"{
        "type": "FeatureCollection",
        "features": [
            { "type": "Feature", "id": 7,
              "geometry": { "type": "Point", "coordinates": [10, 10] },
              "properties": { "name": "first", "n": 1 } },
            { "type": "Feature", "id": 3,
              "geometry": { "type": "Point", "coordinates": [10, 10] },
              "properties": { "name": "second", "n": -1 } }
        ]
    }"#;
    let layer = tile_document(text, &args(0, 3, None));
    assert_eq!(layer.tiles.buckets().len(), 4);
    for bucket in layer.tiles.buckets() {
        let ids: Vec<Option<u64>> = bucket.entries.iter().map(|e| e.id).collect();
        assert_eq!(ids, vec![Some(7), Some(3)]);
        assert_eq!(*value(&layer, &bucket.entries[0], "n"), PropValue::I64(Some(1)));
        assert_eq!(*value(&layer, &bucket.entries[1], "n"), PropValue::I64(Some(-1)));
    }
}

#[test]
fn polygons_round_trip() {
    let text = r#"{
        "type": "FeatureCollection",
        "features": [
            { "type": "Feature", "id": 1,
              "geometry": { "type": "Polygon",
                "coordinates": [[[-90, 60], [0, 60], [0, 0], [-90, 60]],
                                [[-45, 45], [-20, 45], [-20, 30], [-45, 45]]] },
              "properties": { "name": "one" } },
            { "type": "Feature", "id": 2,
              "geometry": { "type": "MultiPolygon",
                "coordinates": [[[[0, 0], [90, 0], [90, 60], [0, 0]]],
                                [[[0, 0], [-90, 0], [-90, -60], [0, 0]]]] },
              "properties": { "name": "many" } },
            { "type": "Feature", "id": 3,
              "geometry": { "type": "MultiLineString",
                "coordinates": [[[0, 0], [90, 0]], [[0, 0], [0, 60]]] },
              "properties": { "name": "lines" } }
        ]
    }"#;
    let out = run_geojson(text, &args(0, 0, None));
    let fc = decode_tile(&out[0].bytes);
    let features = features_of(&fc);
    assert_eq!(features.len(), 3);
    for f in features {
        assert_eq!(f["properties"]["_layer"], Value::String("input".into()));
        assert_eq!(f["properties"]["_extent"], json_i(4096));
    }
    let one = feature_by_name(features, "one");
    assert_eq!(one["id"], json_i(1));
    assert_eq!(coords(one).len(), 2);
    let ring = coords(one)[0].as_array().expect("ring");
    assert_eq!(ring.len(), 4);
    assert_eq!(ring[1], Value::Array(vec![json_i(2048), json_i(1189)]));
    assert_eq!(ring[0], ring[3]);
    let many = feature_by_name(features, "many");
    assert_eq!(coords(many).len(), 2);
    let lines = feature_by_name(features, "lines");
    assert_eq!(
        coords(lines)[1],
        Value::Array(vec![
            Value::Array(vec![json_i(2048), json_i(2048)]),
            Value::Array(vec![json_i(2048), json_i(1189)]),
        ])
    );
}

#[test]
fn values_round_trip() {
    let text = r#"{
        "type": "FeatureCollection",
        "features": [
            { "type": "Feature",
              "geometry": { "type": "Point", "coordinates": [0, 0] },
              "properties": { "name": "a", "b": true, "u": 5, "i": -3, "f": 3.5 } },
            { "type": "Feature",
              "geometry": { "type": "Point", "coordinates": [0, 0] },
              "properties": { "name": "b", "i": 4, "f": 2 } }
        ]
    }"#;
    let out = run_geojson(text, &args(0, 0, None));
    let fc = decode_tile(&out[0].bytes);
    let features = features_of(&fc);
    let a = &feature_by_name(features, "a")["properties"];
    assert_eq!(a["b"], Value::Bool(true));
    assert_eq!(a["u"], json_i(5));
    assert_eq!(a["i"], json_i(-3));
    assert_eq!(a["f"].as_f64(), Some(3.5));
    let b = &feature_by_name(features, "b")["properties"];
    assert!(b["b"].is_null());
    assert_eq!(b["i"], json_i(4));
    assert_eq!(b["f"].as_f64(), Some(2.0));
}

#[test]
fn a_parsed_document_converts_like_its_text() {
    let text = r#"{ "type": "Feature", "id": 9, "properties": {},
                    "geometry": { "type": "Point", "coordinates": [10, 20] } }"#;
    let args = args(0, 2, None);
    let document: geojson::GeoJson = text.parse().expect("valid document");
    let projection = Projection { east, south, height };
    let out = convert(document, "input", &args, &projection, &spatial).expect("converts");
    assert_eq!(out, run_geojson(text, &args));
    assert_eq!(out.len(), 3);
}
