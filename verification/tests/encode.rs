//! From the features of a tile to bytes.

use std::rc::Rc;

use mlt_core::{PropKind, PropValue};
use mlt_geojson::encode::{self, flatten, has_z, is_rising, EncodeError, EncodedTile};
use mlt_geojson::mlt::Flat;
use mlt_geojson::project::Tile;
use mlt_geojson::size::{is_encodable, is_shareable};
use mlt_geojson::tiles::{TileEntry, TileMap};
use mlt_geojson::wkt::{Coord, Dimension, LineString, MultiPolygon, Point, Polygon, Wkt};

fn xy(x: i32, y: i32) -> Coord {
    Coord { x, y, z: None }
}

fn point(x: i32, y: i32) -> Wkt {
    Wkt::Point(Point { coord: xy(x, y), dim: Dimension::XY })
}

fn entry(wkt: Wkt, values: Vec<PropValue>) -> TileEntry {
    TileEntry { id: Some(5), wkt, values: Rc::new(values) }
}

fn schema(columns: &[(&str, PropKind)]) -> Vec<(String, PropKind)> {
    columns.iter().map(|(name, kind)| (name.to_string(), *kind)).collect()
}

/// An encoder of 3D layers that writes name, extent, columns and vertices as text.
fn spatial(
    name: &str,
    extent: u32,
    schema: &[(String, PropKind)],
    features: &[TileEntry],
) -> Result<Vec<u8>, EncodeError> {
    let mut text = format!("{name} {extent}");
    for (name, kind) in schema {
        text += &format!(" {name}:{kind:?}");
    }
    for entry in features {
        match &entry.wkt {
            Wkt::Point(p) => {
                let c = p.coord;
                text += &format!("; {:?} {} {} {:?} {:?}", entry.id, c.x, c.y, c.z, entry.values);
            }
            other => panic!("{other:?}"),
        }
    }
    Ok(text.into_bytes())
}

fn encode_tile(
    layer_name: &str,
    extent: u32,
    schema: &[(String, PropKind)],
    features: &[TileEntry],
) -> Result<Vec<u8>, EncodeError> {
    encode::encode_tile(layer_name, extent, schema, features, &spatial)
}

fn encode_tiles(
    layer_name: &str,
    extent: u32,
    schema: &[(String, PropKind)],
    tiles: &TileMap,
) -> Result<Vec<EncodedTile>, EncodeError> {
    encode::encode_tiles(layer_name, extent, schema, tiles, &spatial)
}

fn high(x: i32, y: i32, z: i32) -> Wkt {
    let coord = Coord { x, y, z: Some(z) };
    Wkt::Point(Point { coord, dim: Dimension::XYZ })
}

/// The features of the one layer of a tile, decoded.
fn decode(bytes: &[u8]) -> Vec<serde_json::Value> {
    let mut p = mlt_core::Parser::default();
    let layers = p.parse_layers(bytes).expect("parse layers");
    let mut d = mlt_core::Decoder::default();
    let decoded = d.decode_all(layers).expect("decode");
    let fc = mlt_core::geojson::FeatureCollection::from_layers(decoded).expect("from_layers");
    let value = serde_json::to_value(&fc).expect("to_value");
    value["features"].as_array().expect("features").clone()
}

#[test]
fn a_tile_without_features_has_no_bytes() {
    let bytes = encode_tile("layer", 4096, &schema(&[("a", PropKind::Str)]), &[]).unwrap();
    assert_eq!(bytes, Vec::<u8>::new());
}

#[test]
fn a_feature_comes_back_as_it_was() {
    let columns = schema(&[("a", PropKind::I64), ("b", PropKind::Str)]);
    let values = vec![PropValue::I64(Some(-7)), PropValue::Str(Some("x".to_string()))];
    let bytes = encode_tile("layer", 512, &columns, &[entry(point(3, -4), values)]).unwrap();
    let features = decode(&bytes);
    assert_eq!(features.len(), 1);
    assert_eq!(features[0]["id"].as_u64(), Some(5));
    assert_eq!(features[0]["properties"]["a"].as_i64(), Some(-7));
    assert_eq!(features[0]["properties"]["b"].as_str(), Some("x"));
    assert_eq!(features[0]["properties"]["_extent"].as_u64(), Some(512));
    assert_eq!(features[0]["geometry"]["coordinates"][1].as_i64(), Some(-4));
}

#[test]
fn missing_values_are_null_and_surplus_ones_are_ignored() {
    let columns = schema(&[("a", PropKind::I64), ("b", PropKind::Bool)]);
    let short = entry(point(0, 0), vec![PropValue::I64(Some(1))]);
    let long = entry(
        point(0, 0),
        vec![
            PropValue::I64(Some(2)),
            PropValue::Bool(Some(true)),
            PropValue::Str(Some("surplus".to_string())),
        ],
    );
    let bytes = encode_tile("layer", 4096, &columns, &[short, long]).unwrap();
    let features = decode(&bytes);
    assert!(features[0]["properties"]["b"].is_null());
    assert_eq!(features[1]["properties"]["b"].as_bool(), Some(true));
}

#[test]
fn a_layer_needs_a_name_and_an_extent() {
    let r = encode_tile("", 4096, &[], &[entry(point(0, 0), vec![])]);
    assert!(matches!(r, Err(EncodeError::Layer(_))));
    let r = encode_tile("layer", 0, &[], &[]);
    assert!(matches!(r, Err(EncodeError::Layer(_))));
}

#[test]
fn columns_have_distinct_names() {
    let columns = schema(&[("a", PropKind::I64), ("a", PropKind::Str)]);
    let r = encode_tile("layer", 4096, &columns, &[]);
    assert!(matches!(r, Err(EncodeError::Column(_))));
}

#[test]
fn values_are_of_the_kind_of_their_column() {
    let columns = schema(&[("a", PropKind::I64)]);
    let r = encode_tile(
        "layer",
        4096,
        &columns,
        &[entry(point(0, 0), vec![PropValue::U64(Some(1))])],
    );
    assert!(matches!(r, Err(EncodeError::Value(_))));
}

#[test]
fn a_3d_layer_goes_to_its_encoder() {
    let columns = schema(&[("name", PropKind::Str), ("rank", PropKind::U64)]);
    let origin = TileEntry {
        id: Some(1),
        wkt: high(2048, 2048, 100_000_000),
        values: Rc::new(vec![
            PropValue::Str(Some("origin".to_string())),
            PropValue::U64(Some(5)),
        ]),
    };
    let south = TileEntry {
        id: None,
        wkt: high(2048, 2907, 0),
        values: Rc::new(vec![
            PropValue::Str(Some("south".to_string())),
            PropValue::U64(None),
        ]),
    };
    let bytes = encode_tile("places", 4096, &columns, &[origin, south]).unwrap();
    assert_eq!(
        String::from_utf8(bytes).unwrap(),
        "places 4096 name:Str rank:U64\
         ; Some(1) 2048 2048 Some(100000000) [Str(Some(\"origin\")), U64(Some(5))]\
         ; None 2048 2907 Some(0) [Str(Some(\"south\")), U64(None)]"
    );
}

#[test]
fn a_fault_is_found_in_3d_layers_too() {
    let columns = schema(&[("a", PropKind::I64)]);
    let tall = || entry(high(0, 0, 1), vec![PropValue::I64(None)]);
    let odd = || entry(point(0, 0), vec![PropValue::Bool(None)]);
    for features in [[tall(), odd()], [odd(), tall()]] {
        let r = encode_tile("layer", 4096, &columns, &features);
        assert!(matches!(r, Err(EncodeError::Value(_))));
    }
    let r = encode_tile("", 4096, &columns, &[tall()]);
    assert!(matches!(r, Err(EncodeError::Layer(_))));
    let twice = schema(&[("a", PropKind::I64), ("a", PropKind::I64)]);
    let r = encode_tile("layer", 4096, &twice, &[tall()]);
    assert!(matches!(r, Err(EncodeError::Column(_))));
}

#[test]
fn any_z_makes_a_layer_3d() {
    assert!(!is_rising(&[]));
    assert!(!is_rising(&[entry(point(0, 0), vec![])]));
    assert!(is_rising(&[entry(point(0, 0), vec![]), entry(high(0, 0, 0), vec![])]));
    let coords = vec![xy(0, 0), Coord { x: 1, y: 1, z: Some(0) }];
    let ring = LineString { coords, dim: Dimension::XYZ };
    let polygon = Polygon { rings: vec![ring], dim: Dimension::XYZ };
    assert!(has_z(&Wkt::Polygon(polygon)));
    assert!(!has_z(&point(3, 4)));
}

#[test]
fn flattening_splits_polygons_into_exterior_and_interiors() {
    let ring = |coords: Vec<Coord>| LineString { coords, dim: Dimension::XY };
    let rings = vec![ring(vec![xy(0, 0), xy(9, 0), xy(9, 9)]), ring(vec![xy(1, 1), xy(2, 1)])];
    let polygon = Polygon { rings, dim: Dimension::XY };
    let bare = Polygon { rings: vec![], dim: Dimension::XY };
    let wkt = Wkt::MultiPolygon(MultiPolygon {
        polygons: vec![polygon, bare],
        dim: Dimension::XY,
    });
    match flatten(&wkt) {
        Flat::MultiPolygon(polygons) => {
            assert_eq!(polygons[0].0, vec![(0, 0), (9, 0), (9, 9)]);
            assert_eq!(polygons[0].1, vec![vec![(1, 1), (2, 1)]]);
            assert_eq!(polygons[1], (vec![], vec![]));
        }
        _ => panic!("flat multi-polygon"),
    }
}

#[test]
fn open_rings_are_closed() {
    let coords = vec![xy(0, 0), xy(9, 0), xy(9, 9)];
    let rings = vec![LineString { coords, dim: Dimension::XY }];
    let wkt = Wkt::Polygon(Polygon { rings, dim: Dimension::XY });
    let bytes = encode_tile("layer", 4096, &[], &[entry(wkt, vec![])]).unwrap();
    let ring = decode(&bytes)[0]["geometry"]["coordinates"][0].clone();
    let ring = ring.as_array().expect("ring");
    assert_eq!(ring.len(), 4);
    assert_eq!(ring[0], ring[3]);
}

#[test]
fn each_tile_is_encoded_once() {
    let a = Tile { zoom: 2, col: 1, row: 3 };
    let b = Tile { zoom: 2, col: 3, row: 1 };
    let mut tiles = TileMap::new();
    tiles.push(a, entry(point(1, 1), vec![]));
    tiles.push(b, entry(point(2, 2), vec![]));
    tiles.push(a, entry(point(3, 3), vec![]));
    let out = encode_tiles("layer", 4096, &[], &tiles).unwrap();
    assert_eq!(out.len(), 2);
    assert_eq!((out[0].tile, out[0].features), (a, 2));
    assert_eq!((out[1].tile, out[1].features), (b, 1));
    assert_eq!(decode(&out[0].bytes).len(), 2);
    assert_eq!(decode(&out[1].bytes)[0]["geometry"]["coordinates"][0].as_i64(), Some(2));
}

#[test]
fn no_tiles_encode_to_nothing() {
    let out = encode_tiles("", 0, &[], &TileMap::new()).unwrap();
    assert!(out.is_empty());
}

#[test]
fn many_features_far_apart_are_oversize() {
    let tile = Tile { zoom: 0, col: 0, row: 0 };
    let spread = |count: usize, far: i32| {
        let mut tiles = TileMap::new();
        tiles.push(tile, entry(point(i32::MIN, 0), vec![]));
        for _ in 1..count {
            tiles.push(tile, entry(point(far, 0), vec![]));
        }
        encode_tiles("layer", 4096, &[], &tiles)
    };
    assert!(matches!(spread(512, 0), Err(EncodeError::Oversize)));
    assert!(!matches!(spread(512, -1), Err(EncodeError::Oversize)));
    assert!(!matches!(spread(2, 0), Err(EncodeError::Oversize)));
}

#[test]
fn a_3d_tile_has_the_limits_of_its_encoder() {
    let tile = Tile { zoom: 0, col: 0, row: 0 };
    let mut tiles = TileMap::new();
    tiles.push(tile, entry(high(i32::MIN, 0, 0), vec![]));
    for _ in 1..512 {
        tiles.push(tile, entry(high(0, 0, 0), vec![]));
    }
    let out = encode_tiles("layer", 4096, &[], &tiles).unwrap();
    assert_eq!((out.len(), out[0].features), (1, 512));
}

#[test]
fn callers_can_ask_whether_a_layer_is_encodable() {
    let columns = schema(&[("a", PropKind::Str), ("b", PropKind::Str)]);
    let text = |t: &str| PropValue::Str(Some(t.to_string()));
    let features = [
        entry(point(0, 0), vec![text("x"), text("x")]),
        entry(point(1, 1), vec![text("y")]),
    ];
    assert!(is_encodable(&columns, &features));
    assert!(is_shareable(&columns, &features));
    let mut wide: Vec<TileEntry> = (0..512).map(|_| entry(point(0, 0), vec![])).collect();
    assert!(is_encodable(&[], &wide));
    wide.push(entry(point(0, i32::MIN), vec![]));
    assert!(!is_encodable(&[], &wide));
}

#[test]
fn columns_with_equal_texts_come_back() {
    let columns = schema(&[("name", PropKind::Str), ("name:en", PropKind::Str)]);
    let text = |i: usize| PropValue::Str(Some(format!("a street in town {}", i % 7)));
    let features: Vec<TileEntry> = (0..40)
        .map(|i| entry(point(i as i32, 0), vec![text(i), text(i + 3)]))
        .collect();
    let bytes = encode_tile("layer", 4096, &columns, &features).unwrap();
    let decoded = decode(&bytes);
    assert_eq!(decoded.len(), 40);
    for feature in decoded {
        let x = feature["geometry"]["coordinates"][0].as_u64().unwrap() as usize;
        let name = format!("a street in town {}", x % 7);
        let name_en = format!("a street in town {}", (x + 3) % 7);
        assert_eq!(feature["properties"]["name"].as_str(), Some(name.as_str()));
        assert_eq!(feature["properties"]["name:en"].as_str(), Some(name_en.as_str()));
    }
}
