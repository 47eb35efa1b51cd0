//! What each operation gives back for what it is given.
//!
//! The laws of this module speak of the operations themselves. Each says of every
//! call that has returned how its result stands to its arguments, down to the
//! ordinates, the JSON values and the vertices.

use geojson::feature::Id;
use geojson::{Feature, GeoJson, GeometryValue, JsonValue, Position};
use mlt_core::{PropKind, PropValue};
use vstd::float::FloatBitsProperties;
use vstd::prelude::*;

use crate::convert::{
    convert, converted, features_of, law_layers_are_tiled_by_rectangles,
    law_only_collections_are_refused, law_the_layer_of_all_features_is_encoded,
    law_tiles_have_one_dimension, normalize_to_features, tile_features, tiled, ArgsError,
    GeoJsonArgs, GeoJsonError, TiledLayer,
};
use crate::encode::{
    encode_tile, encode_tiles, encoding, flat_polygon, flatten, has_z, is_rising,
    law_every_tile_is_encoded, law_faults_have_their_reasons, law_flattening_drops_only_the_z,
    law_one_z_makes_a_geometry_rise, law_one_z_makes_a_tile_rise, layer_of, rising, rows_of,
    yields, EncodeError, EncodedTile,
};
use crate::geometry::{
    law_bbox_is_tight, law_ordinates_make_a_position, law_positions_by_their_ordinates,
    lon_lat_alt, project_geometry, unref, value_positions, wkt_coords, Frame, GeometryValueExt,
    LonLatBbox,
};
use crate::json::{
    json_node, json_text, law_lookup_finds_what_is_there, lookup, nearest_double, number_model,
    object_entries, ordinates, parsed_geojson, JsonNode, NumberModel,
};
use crate::mercator::{spans, TileRange};
use crate::mlt::{closed_rings, encodable, encodes, kind_of, shareable, Flat, Shape};
use crate::ordinate::{is_less, is_nan, less, nan};
use crate::placement::{
    dimension_of, has_collection, law_collections_are_found, law_every_feature_is_located,
    law_nowhere_without_positions, law_one_altitude_makes_a_layer_3d,
    law_rectangles_are_what_the_box_spans, layer_dimension, ranges_for, tile_ranges, Plan,
};
use crate::project::{tile_local, Projection, Tile};
use crate::properties::{
    all_entries, columns_for, columns_of, converts, feature_id, feature_values, first_seen, id_of,
    infer_schema, law_columns_are_the_names, law_columns_of_a_schema,
    law_every_property_has_a_column, law_integer_ids_survive, law_missing_properties_are_null,
    to_prop_value, values_for, InferredKind,
};
use crate::size::{is_encodable, is_shareable};
use crate::tiles::{entries_at, TileEntry, TileMap};
use crate::wkt::{Coord, Dimension, Wkt};

verus! {

/// An ordinate is no number exactly if its exponent bits are all set and a bit of
/// its fraction is.
pub proof fn law_of_is_nan(bits: u64, r: bool)
    requires
        call_ensures(is_nan, (bits,), r),
    ensures
        r <==> bits as int % 0x8000_0000_0000_0000 > 0x7ff0_0000_0000_0000,
{
}

/// Of two ordinates that are numbers one is less, unless they are the same or
/// both zero. What is no number is not less, nor greater.
pub proof fn law_of_is_less(a: u64, b: u64, ab: bool, ba: bool)
    requires
        call_ensures(is_less, (a, b), ab),
        call_ensures(is_less, (b, a), ba),
    ensures
        !(ab && ba),
        !ab && !ba <==> {
            ||| a as int % 0x8000_0000_0000_0000 > 0x7ff0_0000_0000_0000
            ||| b as int % 0x8000_0000_0000_0000 > 0x7ff0_0000_0000_0000
            ||| a == b
            ||| a as int % 0x8000_0000_0000_0000 == 0 && b as int % 0x8000_0000_0000_0000 == 0
        },
        ab && a < 0x8000_0000_0000_0000 ==> a < b < 0x8000_0000_0000_0000,
        ab && b >= 0x8000_0000_0000_0000 ==> b < a,
{
}

/// The coordinates on the grid of a tile are those that the projection gives, far
/// outside the tile too.
pub proof fn law_of_tile_local<
    X: Fn(u64, u8, u32, u32) -> i32,
    Y: Fn(u64, u8, u32, u32) -> i32,
    H: Fn(u64) -> i32,
>(
    lon: u64,
    lat: u64,
    alt: Option<u64>,
    tile: Tile,
    extent: u32,
    dim_xyz: bool,
    projection: &Projection<X, Y, H>,
    c: Coord,
)
    requires
        call_ensures(
            tile_local::<X, Y, H>,
            (lon, lat, alt, tile, extent, dim_xyz, projection),
            c,
        ),
    ensures
        projection.east.ensures((lon, tile.zoom, tile.col, extent), c.x),
        projection.south.ensures((lat, tile.zoom, tile.row, extent), c.y),
        !dim_xyz ==> c.z is None,
        dim_xyz && alt is None ==> c.z == Some(0i32),
        dim_xyz && alt is Some ==> c.z is Some && projection.height.ensures((alt->0,), c.z->0),
{
}

/// A position of two ordinates or more has its first for a longitude and its
/// second for a latitude, and a third for an altitude; one of fewer has none.
pub proof fn law_of_lon_lat_alt(pos: &Position, r: Option<(u64, u64, Option<u64>)>)
    requires
        call_ensures(lon_lat_alt, (pos,), r),
    ensures
        r is Some <==> ordinates(*pos).len() >= 2,
        r matches Some(p) ==> p.0 == ordinates(*pos)[0] && p.1 == ordinates(*pos)[1],
        r matches Some(p) ==> (p.2 is Some <==> ordinates(*pos).len() >= 3),
        r matches Some((_, _, Some(alt))) ==> alt == ordinates(*pos)[2],
{
    law_ordinates_make_a_position(*pos);
}

/// The positions of a geometry are listed one for one.
pub proof fn law_of_positions(value: &GeometryValue, r: Vec<&Position>)
    requires
        call_ensures(GeometryValue::positions, (value,), r),
    ensures
        r@.len() == value_positions(*value).len(),
        forall|i: int| 0 <= i < r@.len() ==> *(#[trigger] r@[i]) == value_positions(*value)[i],
{
    assert(unref(r@) == value_positions(*value));
    assert(forall|i: int| 0 <= i < r@.len() ==> *(#[trigger] r@[i]) == unref(r@)[i]);
}

/// A geometry has a Z exactly if one of its positions has a third ordinate.
pub proof fn law_of_has_z_in_positions(value: &GeometryValue, r: bool)
    requires
        call_ensures(GeometryValue::has_z, (value,), r),
    ensures
        r <==> exists|i: int|
            0 <= i < value_positions(*value).len() && ordinates(
                #[trigger] value_positions(*value)[i],
            ).len() >= 3,
{
    law_positions_by_their_ordinates(value_positions(*value));
}

/// A geometry has a bounding box exactly if one of its positions has two ordinates.
/// No longitude or latitude that is a number lies beyond the box, and each side is
/// that of a position of the geometry.
pub proof fn law_of_lonlat_bbox(value: &GeometryValue, r: Option<LonLatBbox<'_>>)
    requires
        call_ensures(GeometryValue::lonlat_bbox, (value,), r),
    ensures
        r is Some <==> exists|i: int|
            0 <= i < value_positions(*value).len() && ordinates(
                #[trigger] value_positions(*value)[i],
            ).len() >= 2,
        r matches Some(bbox) ==> {
            let positions = value_positions(*value);
            let (west, east) = (ordinates(*bbox.west)[0], ordinates(*bbox.east)[0]);
            let (south, north) = (ordinates(*bbox.south)[1], ordinates(*bbox.north)[1]);
            &&& positions.contains(*bbox.west) && ordinates(*bbox.west).len() >= 2
            &&& positions.contains(*bbox.east) && ordinates(*bbox.east).len() >= 2
            &&& positions.contains(*bbox.south) && ordinates(*bbox.south).len() >= 2
            &&& positions.contains(*bbox.north) && ordinates(*bbox.north).len() >= 2
            &&& forall|i: int|
                0 <= i < positions.len() && ordinates(#[trigger] positions[i]).len() >= 2 ==> {
                    let (lon, lat) = (ordinates(positions[i])[0], ordinates(positions[i])[1]);
                    &&& !less(lon, west) && !less(east, lon)
                    &&& !less(lat, south) && !less(north, lat)
                    &&& !nan(lon) ==> !nan(west) && !nan(east)
                    &&& !nan(lat) ==> !nan(south) && !nan(north)
                }
        },
{
    law_positions_by_their_ordinates(value_positions(*value));
    if let Some(bbox) = r {
        law_bbox_is_tight(bbox, value_positions(*value));
    }
}

/// The corners of a box are the longitudes of its western and eastern sides and
/// the latitudes of its southern and northern sides.
pub proof fn law_of_to_corners(bbox: &LonLatBbox<'_>, r: (u64, u64, u64, u64))
    requires
        call_ensures(LonLatBbox::to_corners, (bbox,), r),
    ensures
        r.0 == ordinates(*bbox.west)[0],
        r.1 == ordinates(*bbox.south)[1],
        r.2 == ordinates(*bbox.east)[0],
        r.3 == ordinates(*bbox.north)[1],
{
}

/// A geometry is projected unless it is a collection or has no position. Each of
/// its positions becomes one vertex, in order: the one that the projection gives.
pub proof fn law_of_project_geometry<
    X: Fn(u64, u8, u32, u32) -> i32,
    Y: Fn(u64, u8, u32, u32) -> i32,
    H: Fn(u64) -> i32,
>(
    value: &GeometryValue,
    frame: Frame,
    projection: &Projection<X, Y, H>,
    r: Option<Wkt>,
    i: int,
)
    requires
        call_ensures(project_geometry::<X, Y, H>, (value, frame, projection), r),
    ensures
        r is None <==> value is GeometryCollection || value_positions(*value).len() == 0,
        r matches Some(wkt) ==> {
            &&& wkt_coords(wkt).len() == value_positions(*value).len()
            &&& value is Point <==> wkt is Point
            &&& value is LineString <==> wkt is LineString
            &&& value is Polygon <==> wkt is Polygon
            &&& value is MultiPoint <==> wkt is MultiPoint
            &&& value is MultiLineString <==> wkt is MultiLineString
            &&& value is MultiPolygon <==> wkt is MultiPolygon
            &&& projection.images_value(*value, frame, wkt)
        },
        r is Some && 0 <= i < value_positions(*value).len() ==> {
            let from = ordinates(value_positions(*value)[i]);
            let c = wkt_coords(r->0)[i];
            let lon: u64 = if from.len() >= 2 {
                from[0]
            } else {
                0
            };
            let lat: u64 = if from.len() >= 2 {
                from[1]
            } else {
                0
            };
            let tile = frame.tile;
            &&& projection.east.ensures((lon, tile.zoom, tile.col, frame.extent), c.x)
            &&& projection.south.ensures((lat, tile.zoom, tile.row, frame.extent), c.y)
            &&& frame.dim is XY ==> c.z is None
            &&& frame.dim is XYZ && from.len() < 3 ==> c.z == Some(0i32)
            &&& frame.dim is XYZ && from.len() >= 3 ==> c.z is Some && projection.height.ensures(
                (from[2],),
                c.z->0,
            )
        },
{
    if let Some(wkt) = r {
        projection.law_nothing_is_clipped(*value, frame, wkt);
        if 0 <= i < value_positions(*value).len() {
            projection.law_vertices_are_projected(*value, frame, wkt, i);
        }
    }
}

/// A layer is 3D exactly if a position of one of its features has a third ordinate.
pub proof fn law_of_layer_dimension(features: &[Feature], r: Dimension)
    requires
        call_ensures(layer_dimension, (features,), r),
    ensures
        r is XYZ <==> exists|i: int, k: int|
            0 <= i < features@.len() && features@[i].geometry is Some && 0 <= k < value_positions(
                features@[i].geometry->0.value,
            ).len() && ordinates(
                #[trigger] value_positions(features@[i].geometry->0.value)[k],
            ).len() >= 3,
{
    law_one_altitude_makes_a_layer_3d(features@);
}

/// A collection is found exactly if one of the features has one for a geometry.
pub proof fn law_of_has_collection(features: &[Feature], r: bool)
    requires
        call_ensures(has_collection, (features,), r),
    ensures
        r <==> exists|i: int|
            0 <= i < features@.len() && (#[trigger] features@[i]).geometry is Some
                && features@[i].geometry->0.value is GeometryCollection,
{
    law_collections_are_found(features@);
}

/// A feature with a position of two ordinates has one rectangle for each zoom
/// level, and that is what its bounding box spans there: no row and no column of
/// it is missing.
pub proof fn law_of_tile_ranges(
    features: &[Feature],
    min_zoom: u8,
    max_zoom: u8,
    r: Vec<Vec<TileRange>>,
    i: int,
    zoom: u8,
    geometry: geojson::Geometry,
    some: int,
)
    requires
        call_ensures(tile_ranges, (features, min_zoom, max_zoom), r),
        min_zoom <= zoom <= max_zoom,
        0 <= i < features@.len(),
        features@[i].geometry == Some(geometry),
        0 <= some < value_positions(geometry.value).len(),
        ordinates(value_positions(geometry.value)[some]).len() >= 2,
    ensures
        r@.len() == features@.len(),
        r@[i]@.len() == max_zoom - min_zoom + 1,
        ({
            let positions = value_positions(geometry.value);
            let home = r@[i]@[zoom - min_zoom];
            exists|sides: (u64, u64, u64, u64)| #[trigger]
                spans(sides, zoom, home) && {
                    &&& exists|k: int|
                        0 <= k < positions.len() && ordinates(#[trigger] positions[k]).len() >= 2
                            && ordinates(positions[k])[0] == sides.0
                    &&& exists|k: int|
                        0 <= k < positions.len() && ordinates(#[trigger] positions[k]).len() >= 2
                            && ordinates(positions[k])[1] == sides.1
                    &&& exists|k: int|
                        0 <= k < positions.len() && ordinates(#[trigger] positions[k]).len() >= 2
                            && ordinates(positions[k])[0] == sides.2
                    &&& exists|k: int|
                        0 <= k < positions.len() && ordinates(#[trigger] positions[k]).len() >= 2
                            && ordinates(positions[k])[1] == sides.3
                    &&& forall|k: int|
                        0 <= k < positions.len() && ordinates(#[trigger] positions[k]).len() >= 2
                            ==> {
                            let (lon, lat) = (
                                ordinates(positions[k])[0],
                                ordinates(positions[k])[1],
                            );
                            &&& !less(lon, sides.0) && !less(sides.2, lon)
                            &&& !less(lat, sides.1) && !less(sides.3, lat)
                            &&& !nan(lon) ==> !nan(sides.0) && !nan(sides.2)
                            &&& !nan(lat) ==> !nan(sides.1) && !nan(sides.3)
                        }
                }
        }),
{
    law_every_feature_is_located(features@, min_zoom, max_zoom, r@, i);
    law_rectangles_are_what_the_box_spans(
        features@[i],
        min_zoom,
        max_zoom,
        r@[i]@,
        zoom,
        geometry,
        some,
    );
}

/// A feature without a position of two ordinates has no rectangle.
pub proof fn law_of_tile_ranges_without_positions(
    features: &[Feature],
    min_zoom: u8,
    max_zoom: u8,
    r: Vec<Vec<TileRange>>,
    i: int,
)
    requires
        call_ensures(tile_ranges, (features, min_zoom, max_zoom), r),
        0 <= i < features@.len(),
        features@[i].geometry matches Some(geometry) ==> forall|k: int|
            0 <= k < value_positions(geometry.value).len() ==> ordinates(
                #[trigger] value_positions(geometry.value)[k],
            ).len() < 2,
    ensures
        r@[i]@.len() == 0,
{
    law_every_feature_is_located(features@, min_zoom, max_zoom, r@, i);
    law_nowhere_without_positions(features@[i], min_zoom, max_zoom, r@[i]@);
}

/// Every tile holds the features whose rectangle of the zoom level has it, in the
/// order of the features, and no other. Gives the places of the tile's features.
pub proof fn law_of_place_features<
    'a,
    X: Fn(u64, u8, u32, u32) -> i32,
    Y: Fn(u64, u8, u32, u32) -> i32,
    H: Fn(u64) -> i32,
>(
    plan: &Plan<'a, X, Y, H>,
    features: &[Feature],
    ranges: &Vec<Vec<TileRange>>,
    r: TileMap,
    tile: Tile,
) -> (indices: Seq<int>)
    requires
        call_ensures(Plan::<'a, X, Y, H>::place_features, (plan, features, ranges), r),
    ensures
        forall|j: int, k: int|
            0 <= j < k < indices.len() ==> #[trigger] indices[j] < #[trigger] indices[k],
        forall|i: int| #[trigger]
            indices.contains(i) <==> {
                &&& 0 <= i < features@.len()
                &&& features@[i].geometry is Some
                &&& !(features@[i].geometry->0.value is GeometryCollection)
                &&& value_positions(features@[i].geometry->0.value).len() > 0
                &&& 0 <= tile.zoom - plan.min_zoom < ranges@[i]@.len()
                &&& ranges@[i]@[tile.zoom - plan.min_zoom].min_col <= tile.col
                &&& tile.col <= ranges@[i]@[tile.zoom - plan.min_zoom].max_col
                &&& ranges@[i]@[tile.zoom - plan.min_zoom].min_row <= tile.row
                &&& tile.row <= ranges@[i]@[tile.zoom - plan.min_zoom].max_row
            },
        r@.contains_key(tile) <==> indices.len() > 0,
        r@.contains_key(tile) ==> r@[tile].len() == indices.len(),
        forall|k: int|
            0 <= k < indices.len() ==> {
                let feature = features@[#[trigger] indices[k]];
                let entry = r@[tile][k];
                &&& entry.id == id_of(feature)
                &&& values_for(feature, columns_of(plan.schema@), entry.values@)
                &&& plan.projection.images_value(
                    feature.geometry->0.value,
                    Frame { dim: plan.dim, tile, extent: plan.extent },
                    entry.wkt,
                )
            },
{
    plan.law_tiles_hold_what_lands_in_them(features@, ranges@, r@, tile)
}

/// A JSON value is of the kind of its constructor. Numbers are of a kind by whether
/// they are integers, and integers by their sign.
pub proof fn law_of_from_json(value: &JsonValue, r: InferredKind)
    requires
        call_ensures(InferredKind::from_json, (value,), r),
    ensures
        match json_node(*value) {
            JsonNode::Null => r is Unknown,
            JsonNode::Bool(_) => r is Bool,
            JsonNode::Number(n) => match number_model(n) {
                NumberModel::PosInt(_) => r is U64,
                NumberModel::NegInt(_) => r is I64,
                NumberModel::Float(_) => r is F64,
            },
            JsonNode::String(_) => r is Str,
            JsonNode::Array => r is Str,
            JsonNode::Object => r is Str,
        },
{
}

/// Merging is the same in both orders. A kind stays as it is beside itself and
/// beside `Unknown`. Of two numeric kinds `F64` goes before `I64` and that before
/// `U64`. Any other two kinds are `Str`.
pub proof fn law_of_merge(a: InferredKind, b: InferredKind, r: InferredKind)
    requires
        call_ensures(InferredKind::merge, (a, b), r) || call_ensures(
            InferredKind::merge,
            (b, a),
            r,
        ),
    ensures
        a == b ==> r == a,
        a is Unknown ==> r == b,
        a is F64 && (b is I64 || b is U64) ==> r is F64,
        a is I64 && b is U64 ==> r is I64,
        a is Bool && (b is U64 || b is I64 || b is F64) ==> r is Str,
        a is Str ==> r is Str,
{
}

/// Each kind has the column of its name, and `Unknown` that of `Str`.
pub proof fn law_of_to_kind(kind: InferredKind, r: PropKind)
    requires
        call_ensures(InferredKind::to_kind, (kind,), r),
    ensures
        r is Bool <==> kind is Bool,
        r is U64 <==> kind is U64,
        r is I64 <==> kind is I64,
        r is F64 <==> kind is F64,
        r is Str <==> kind is Str || kind is Unknown,
{
}

/// Every property of every feature has a column of its name, and only one, of a
/// kind that its value fits; and the columns are those of all properties of all
/// features.
pub proof fn law_of_infer_schema(
    features: &[Feature],
    r: Vec<(String, PropKind)>,
    i: int,
    k: int,
)
    requires
        call_ensures(infer_schema, (features,), r),
        0 <= i < features@.len(),
        features@[i].properties is Some,
        0 <= k < object_entries(features@[i].properties->0).len(),
    ensures
        columns_of(r@) == columns_for(all_entries(features@)),
        forall|a: int, b: int|
            0 <= a < b < r@.len() ==> (#[trigger] r@[a]).0@ != (#[trigger] r@[b]).0@,
        ({
            let entry = object_entries(features@[i].properties->0)[k];
            exists|j: int|
                0 <= j < r@.len() && (#[trigger] r@[j]).0@ == entry.0 && match json_node(entry.1) {
                    JsonNode::Null => true,
                    JsonNode::Bool(_) => r@[j].1 is Bool || r@[j].1 is Str,
                    JsonNode::Number(n) => match number_model(n) {
                        NumberModel::PosInt(_) => r@[j].1 is U64 || r@[j].1 is I64 || r@[j].1 is F64
                            || r@[j].1 is Str,
                        NumberModel::NegInt(_) => r@[j].1 is I64 || r@[j].1 is F64
                            || r@[j].1 is Str,
                        NumberModel::Float(_) => r@[j].1 is F64 || r@[j].1 is Str,
                    },
                    _ => r@[j].1 is Str,
                }
        }),
{
    let entries = all_entries(features@);
    let columns = columns_for(entries);
    law_columns_of_a_schema(r@);
    law_columns_are_the_names(entries);
    assert forall|a: int, b: int| 0 <= a < b < r@.len() implies (#[trigger] r@[a]).0@ != (
    #[trigger] r@[b]).0@ by {
        assert(columns[a].0 == first_seen(entries)[a]);
        assert(columns[b].0 == first_seen(entries)[b]);
    }
    law_every_property_has_a_column(features@, i, k);
    let entry = object_entries(features@[i].properties->0)[k];
    let j = choose|j: int|
        0 <= j < columns.len() && (#[trigger] columns[j]).0 == entry.0 && match json_node(
            entry.1,
        ) {
            JsonNode::Null => true,
            JsonNode::Bool(_) => columns[j].1 is Bool || columns[j].1 is Str,
            JsonNode::Number(n) => match number_model(n) {
                NumberModel::PosInt(_) => columns[j].1 is U64 || columns[j].1 is I64
                    || columns[j].1 is F64 || columns[j].1 is Str,
                NumberModel::NegInt(_) => columns[j].1 is I64 || columns[j].1 is F64
                    || columns[j].1 is Str,
                NumberModel::Float(_) => columns[j].1 is F64 || columns[j].1 is Str,
            },
            _ => columns[j].1 is Str,
        };
    assert(r@[j].0@ == entry.0);
}

/// A missing value and a null become the null of the column. A value that the
/// column can hold is held as it is, a column of texts holds the JSON text of what
/// is no string, and any other value becomes null.
pub proof fn law_of_to_prop_value(kind: PropKind, value: Option<&JsonValue>, r: PropValue)
    requires
        call_ensures(to_prop_value, (kind, value), r),
    ensures
        value is None || json_node(*value->0) is Null ==> match r {
            PropValue::Bool(held) => kind is Bool && held is None,
            PropValue::I8(held) => kind is I8 && held is None,
            PropValue::U8(held) => kind is U8 && held is None,
            PropValue::I32(held) => kind is I32 && held is None,
            PropValue::U32(held) => kind is U32 && held is None,
            PropValue::I64(held) => kind is I64 && held is None,
            PropValue::U64(held) => kind is U64 && held is None,
            PropValue::F32(held) => kind is F32 && held is None,
            PropValue::F64(held) => kind is F64 && held is None,
            PropValue::Str(held) => kind is Str && held is None,
        },
        value matches Some(v) ==> match (kind, json_node(*v)) {
            (_, JsonNode::Null) => true,
            (PropKind::Bool, JsonNode::Bool(b)) => r == PropValue::Bool(Some(b)),
            (PropKind::Bool, _) => r == PropValue::Bool(None),
            (PropKind::U64, JsonNode::Number(n)) => r == PropValue::U64(
                match number_model(n) {
                    NumberModel::PosInt(u) => Some(u),
                    _ => None,
                },
            ),
            (PropKind::U64, _) => r == PropValue::U64(None),
            (PropKind::I64, JsonNode::Number(n)) => match number_model(n) {
                NumberModel::NegInt(w) => r == PropValue::I64(Some(w)),
                NumberModel::PosInt(u) => if u <= 0x7fff_ffff_ffff_ffff {
                    r matches PropValue::I64(Some(w)) && w as int == u as int
                } else {
                    r == PropValue::I64(None)
                },
                NumberModel::Float(_) => r == PropValue::I64(None),
            },
            (PropKind::I64, _) => r == PropValue::I64(None),
            (PropKind::F64, JsonNode::Number(n)) => r matches PropValue::F64(Some(d))
                && d.to_bits_spec() == nearest_double(number_model(n)) && (number_model(
                n,
            ) matches NumberModel::Float(bits) ==> d.to_bits_spec() == bits),
            (PropKind::F64, _) => r == PropValue::F64(None),
            (PropKind::Str, JsonNode::String(text)) => r matches PropValue::Str(Some(s)) && s@
                == text,
            (PropKind::Str, _) => r matches PropValue::Str(Some(s)) && s@ == json_text(*v),
            (PropKind::I8, _) => r == PropValue::I8(None),
            (PropKind::U8, _) => r == PropValue::U8(None),
            (PropKind::I32, _) => r == PropValue::I32(None),
            (PropKind::U32, _) => r == PropValue::U32(None),
            (PropKind::F32, _) => r == PropValue::F32(None),
        },
{
}

/// A feature has a value for each column. Where it lacks the property that is the
/// null of the column, and else what the value becomes in the column.
pub proof fn law_of_feature_values(
    feature: &Feature,
    schema: &[(String, PropKind)],
    r: Vec<PropValue>,
    j: int,
)
    requires
        call_ensures(feature_values, (feature, schema), r),
        0 <= j < schema@.len(),
    ensures
        r@.len() == schema@.len(),
        (feature.properties is None || forall|k: int|
            0 <= k < object_entries(feature.properties->0).len() ==> (
            #[trigger] object_entries(feature.properties->0)[k]).0 != schema@[j].0@)
            ==> match schema@[j].1 {
            PropKind::Bool => r@[j] == PropValue::Bool(None),
            PropKind::I8 => r@[j] == PropValue::I8(None),
            PropKind::U8 => r@[j] == PropValue::U8(None),
            PropKind::I32 => r@[j] == PropValue::I32(None),
            PropKind::U32 => r@[j] == PropValue::U32(None),
            PropKind::I64 => r@[j] == PropValue::I64(None),
            PropKind::U64 => r@[j] == PropValue::U64(None),
            PropKind::F32 => r@[j] == PropValue::F32(None),
            PropKind::F64 => r@[j] == PropValue::F64(None),
            PropKind::Str => r@[j] == PropValue::Str(None),
        },
        forall|k: int|
            feature.properties is Some && 0 <= k < object_entries(feature.properties->0).len() && (
            #[trigger] object_entries(feature.properties->0)[k]).0 == schema@[j].0@ && (forall|
                m: int,
            |
                0 <= m < object_entries(feature.properties->0).len() && m != k ==> (
                #[trigger] object_entries(feature.properties->0)[m]).0 != schema@[j].0@)
                ==> converts(
                schema@[j].1,
                Some(object_entries(feature.properties->0)[k].1),
                r@[j],
            ),
{
    let columns = columns_of(schema@);
    law_columns_of_a_schema(schema@);
    if feature.properties is None || forall|k: int|
        0 <= k < object_entries(feature.properties->0).len() ==> (
        #[trigger] object_entries(feature.properties->0)[k]).0 != schema@[j].0@ {
        law_missing_properties_are_null(*feature, columns, r@, j);
    }
    if feature.properties is Some {
        let entries = object_entries(feature.properties->0);
        law_lookup_finds_what_is_there(entries, columns[j].0);
        assert(converts(columns[j].1, lookup(entries, columns[j].0), r@[j]));
    }
}

/// A feature keeps an identifier that is a non-negative integer, and no other.
pub proof fn law_of_feature_id(feature: &Feature, r: Option<u64>)
    requires
        call_ensures(feature_id, (feature,), r),
    ensures
        match feature.id {
            Some(Id::Number(n)) => match number_model(n) {
                NumberModel::PosInt(v) => r == Some(v),
                _ => r is None,
            },
            _ => r is None,
        },
{
    law_integer_ids_survive(*feature);
}

/// A flat geometry has the kind, the parts and the vertices of the geometry, in
/// their order, each with its X as the first and its Y as the second coordinate.
pub proof fn law_of_flatten(wkt: &Wkt, r: Flat)
    requires
        call_ensures(flatten, (wkt,), r),
    ensures
        match wkt {
            Wkt::Point(p) => r == Flat::Point((p.coord.x, p.coord.y)),
            Wkt::LineString(line) => {
                &&& r matches Flat::LineString(v)
                &&& v@.len() == line.coords@.len()
                &&& forall|i: int|
                    0 <= i < v@.len() ==> #[trigger] v@[i] == (line.coords@[i].x, line.coords@[i].y)
            },
            Wkt::MultiPoint(m) => {
                &&& r matches Flat::MultiPoint(v)
                &&& v@.len() == m.points@.len()
                &&& forall|i: int|
                    0 <= i < v@.len() ==> #[trigger] v@[i] == (
                        m.points@[i].coord.x,
                        m.points@[i].coord.y,
                    )
            },
            Wkt::MultiLineString(m) => {
                &&& r matches Flat::MultiLineString(v)
                &&& v@.len() == m.lines@.len()
                &&& forall|i: int|
                    0 <= i < v@.len() ==> (#[trigger] v@[i])@.len() == m.lines@[i].coords@.len()
                &&& forall|i: int, j: int|
                    0 <= i < v@.len() && 0 <= j < v@[i]@.len() ==> #[trigger] v@[i]@[j] == (
                        m.lines@[i].coords@[j].x,
                        m.lines@[i].coords@[j].y,
                    )
            },
            Wkt::Polygon(polygon) => {
                &&& r matches Flat::Polygon(exterior, interiors)
                &&& closed_rings(exterior, interiors) == flat_polygon(*polygon)
            },
            Wkt::MultiPolygon(m) => {
                &&& r matches Flat::MultiPolygon(v)
                &&& v@.len() == m.polygons@.len()
                &&& forall|i: int|
                    0 <= i < v@.len() ==> closed_rings((#[trigger] v@[i]).0, v@[i].1)
                        == flat_polygon(m.polygons@[i])
            },
        },
{
    law_flattening_drops_only_the_z(*wkt);
    match (r.shape(), r) {
        (Shape::MultiLineString(shape), Flat::MultiLineString(v)) => {
            assert(forall|i: int| 0 <= i < v@.len() ==> (#[trigger] v@[i])@ == shape[i]);
        },
        (Shape::MultiPolygon(shape), Flat::MultiPolygon(v)) => {
            assert(forall|i: int|
                0 <= i < v@.len() ==> closed_rings((#[trigger] v@[i]).0, v@[i].1) == shape[i]);
        },
        _ => {},
    }
}

/// A geometry has a Z exactly if one of its vertices has.
pub proof fn law_of_has_z_in_vertices(wkt: &Wkt, r: bool)
    requires
        call_ensures(has_z, (wkt,), r),
    ensures
        r <==> exists|k: int|
            0 <= k < wkt_coords(*wkt).len() && (#[trigger] wkt_coords(*wkt)[k]).z is Some,
{
    law_one_z_makes_a_geometry_rise(*wkt);
}

/// A tile is 3D exactly if a vertex of one of its features has a Z.
pub proof fn law_of_is_rising(features: &[TileEntry], r: bool)
    requires
        call_ensures(is_rising, (features,), r),
    ensures
        r <==> exists|i: int, k: int|
            0 <= i < features@.len() && 0 <= k < wkt_coords(features@[i].wkt).len() && (
            #[trigger] wkt_coords(features@[i].wkt)[k]).z is Some,
{
    law_one_z_makes_a_tile_rise(features@);
}

/// Whether a layer can be encoded, and whether its columns may share dictionaries,
/// is told of the rows of all features of the tile.
pub proof fn law_of_sizes(
    schema: &[(String, PropKind)],
    features: &[TileEntry],
    can: bool,
    may: bool,
)
    requires
        call_ensures(is_encodable, (schema, features), can),
        call_ensures(is_shareable, (schema, features), may),
    ensures
        can == encodable(rows_of(columns_of(schema@), features@), schema@.len()),
        may == shareable(rows_of(columns_of(schema@), features@), schema@.len()),
{
}

/// A layer without a name or an extent, one with two columns of one name, and one
/// with a value of another kind than its column are refused, for the first of
/// these reasons. Else a 3D tile is what the caller's encoder makes of it, and a 2D
/// tile what the encoder makes of the layer of its features.
pub proof fn law_of_encode_tile<
    E: Fn(&str, u32, &[(String, PropKind)], &[TileEntry]) -> Result<Vec<u8>, EncodeError>,
>(
    layer_name: &str,
    extent: u32,
    schema: &[(String, PropKind)],
    features: &[TileEntry],
    spatial: &E,
    r: Result<Vec<u8>, EncodeError>,
)
    requires
        call_ensures(encode_tile::<E>, (layer_name, extent, schema, features, spatial), r),
    ensures
        ({
            let columns = columns_of(schema@);
            let layer = layer_of(layer_name@, extent, columns, features@);
            let nameless = layer_name@.len() == 0 || extent == 0;
            let twice = exists|i: int, j: int|
                0 <= i < j < columns.len() && (#[trigger] columns[i]).0 == (
                #[trigger] columns[j]).0;
            let unlike = exists|i: int, j: int|
                0 <= i < features@.len() && 0 <= j < features@[i].values@.len() && j < columns.len()
                    && kind_of(#[trigger] features@[i].values@[j]) != columns[j].1;
            &&& nameless ==> (r matches Err(e) && e is Layer)
            &&& !nameless && twice ==> (r matches Err(e) && e is Column)
            &&& !nameless && !twice && unlike ==> (r matches Err(e) && e is Value)
            &&& !nameless && !twice && !unlike && rising(features@) ==> spatial.ensures(
                (layer_name, extent, schema, features),
                r,
            )
            &&& !nameless && !twice && !unlike && !rising(features@) ==> match r {
                Ok(bytes) => encodes(
                    layer,
                    shareable(layer.rows, columns.len()),
                    Some(bytes@),
                ) && (bytes@.len() == 0 <==> features@.len() == 0),
                Err(e) => e is Encode && features@.len() > 0 && encodes(
                    layer,
                    shareable(layer.rows, columns.len()),
                    None,
                ),
            }
        }),
{
    let columns = columns_of(schema@);
    if let Err(e) = r {
        law_faults_have_their_reasons(layer_name@, extent, columns, features@, e);
    } else {
        law_faults_have_their_reasons(
            layer_name@,
            extent,
            columns,
            features@,
            EncodeError::Oversize,
        );
    }
}

/// What comes of encoding the tiles of a map is told of exactly its tiles, under the
/// given name and extent, with the columns of the schema.
pub proof fn law_of_encode_tiles<
    E: Fn(&str, u32, &[(String, PropKind)], &[TileEntry]) -> Result<Vec<u8>, EncodeError>,
>(
    layer_name: &str,
    extent: u32,
    schema: &[(String, PropKind)],
    tiles: &TileMap,
    spatial: &E,
    r: Result<Vec<EncodedTile>, EncodeError>,
)
    requires
        call_ensures(encode_tiles::<E>, (layer_name, extent, schema, tiles, spatial), r),
    ensures
        encoding(*spatial, layer_name@, extent, columns_of(schema@), tiles@, r),
        r matches Ok(out) ==> forall|i: int|
            0 <= i < out@.len() ==> tiles@.contains_key((#[trigger] out@[i]).tile)
                && out@[i].features == tiles@[out@[i].tile].len() && out@[i].features > 0
                && out@[i].bytes@.len() > 0,
        r matches Ok(out) ==> forall|tile: Tile| #[trigger]
            tiles@.contains_key(tile) && tiles@[tile].len() > 0 && !rising(tiles@[tile])
                ==> exists|i: int| 0 <= i < out@.len() && (#[trigger] out@[i]).tile == tile,
{
    if let Ok(out) = r {
        law_every_tile_is_encoded(
            *spatial,
            layer_name@,
            extent,
            columns_of(schema@),
            tiles@,
            out,
        );
    }
}

/// The arguments are refused for the first thing that is wrong with them, and else
/// give the layer name, which is the file stem where there is none.
pub proof fn law_of_check(
    args: &GeoJsonArgs,
    stem: &Option<String>,
    r: Result<String, ArgsError>,
)
    requires
        call_ensures(GeoJsonArgs::check, (args, stem), r),
    ensures
        match r {
            Err(ArgsError::MinAboveMax) => args.max_zoom < args.min_zoom,
            Err(ArgsError::MaxAboveLimit) => 31 <= args.max_zoom && args.min_zoom <= args.max_zoom,
            Err(ArgsError::ZeroExtent) => args.extent == 0 && args.min_zoom <= args.max_zoom
                && args.max_zoom < 31,
            Err(ArgsError::NoLayerName) => args.layer is None && stem is None && args.extent > 0
                && args.min_zoom <= args.max_zoom && args.max_zoom < 31,
            Ok(name) => {
                &&& args.min_zoom <= args.max_zoom
                &&& args.max_zoom < 31
                &&& args.extent > 0
                &&& args.layer is Some ==> name@ == args.layer->0@
                &&& args.layer is None ==> stem is Some && name@ == stem->0@
            },
        },
{
}

/// A document becomes the features that it has: those of a collection in their
/// order, a feature itself, and a bare geometry as that of one feature.
pub proof fn law_of_normalize_to_features(document: GeoJson, r: Vec<Feature>)
    requires
        call_ensures(normalize_to_features, (document,), r),
    ensures
        match document {
            GeoJson::FeatureCollection(collection) => r@ == collection.features@,
            GeoJson::Feature(feature) => r@.len() == 1 && r@[0] == feature,
            GeoJson::Geometry(geometry) => r@.len() == 1 && r@[0].geometry == Some(geometry)
                && r@[0].id is None && r@[0].properties is None,
        },
{
}

/// Features become the layer of all of them, with the given zoom levels and extent.
pub proof fn law_of_tile_features<
    X: Fn(u64, u8, u32, u32) -> i32,
    Y: Fn(u64, u8, u32, u32) -> i32,
    H: Fn(u64) -> i32,
>(
    features: &[Feature],
    args: &GeoJsonArgs,
    projection: &Projection<X, Y, H>,
    layer: TiledLayer,
)
    requires
        call_ensures(tile_features::<X, Y, H>, (features, args, projection), layer),
    ensures
        tiled(features@, *args, *projection, layer),
        columns_of(layer.schema@) == columns_for(all_entries(features@)),
        layer.dim is XYZ <==> exists|i: int, k: int|
            0 <= i < features@.len() && features@[i].geometry is Some && 0 <= k < value_positions(
                features@[i].geometry->0.value,
            ).len() && ordinates(
                #[trigger] value_positions(features@[i].geometry->0.value)[k],
            ).len() >= 3,
{
    law_one_altitude_makes_a_layer_3d(features@);
}

/// A document is converted as the features that it has, under the given name.
pub proof fn law_of_convert<
    X: Fn(u64, u8, u32, u32) -> i32,
    Y: Fn(u64, u8, u32, u32) -> i32,
    H: Fn(u64) -> i32,
    E: Fn(&str, u32, &[(String, PropKind)], &[TileEntry]) -> Result<Vec<u8>, EncodeError>,
>(
    document: GeoJson,
    layer_name: &str,
    args: &GeoJsonArgs,
    projection: &Projection<X, Y, H>,
    spatial: &E,
    r: Result<Vec<EncodedTile>, GeoJsonError>,
)
    requires
        call_ensures(
            convert::<X, Y, H, E>,
            (document, layer_name, args, projection, spatial),
            r,
        ),
    ensures
        converted(features_of(document), layer_name@, *args, *projection, *spatial, r),
        (r matches Err(e) && e is Collection) <==> exists|i: int|
            0 <= i < features_of(document).len() && (
            #[trigger] features_of(document)[i]).geometry is Some && features_of(
                document,
            )[i].geometry->0.value is GeometryCollection,
{
    law_only_collections_are_refused(
        features_of(document),
        layer_name@,
        *args,
        *projection,
        *spatial,
        r,
    );
}

/// Wrong arguments are refused whatever the text, and then a text that is no
/// document. Any other text is converted as the features of its document, under
/// the layer name, or under the file stem where there is none.
pub proof fn law_of_geojson<
    X: Fn(u64, u8, u32, u32) -> i32,
    Y: Fn(u64, u8, u32, u32) -> i32,
    H: Fn(u64) -> i32,
    E: Fn(&str, u32, &[(String, PropKind)], &[TileEntry]) -> Result<Vec<u8>, EncodeError>,
>(
    args: &GeoJsonArgs,
    stem: &Option<String>,
    text: &str,
    projection: &Projection<X, Y, H>,
    spatial: &E,
    r: Result<Vec<EncodedTile>, GeoJsonError>,
)
    requires
        call_ensures(
            crate::convert::geojson::<X, Y, H, E>,
            (args, stem, text, projection, spatial),
            r,
        ),
    ensures
        ({
            let crossed = args.max_zoom < args.min_zoom;
            let deep = !crossed && 31 <= args.max_zoom;
            let flat = !crossed && !deep && args.extent == 0;
            let nameless = !crossed && !deep && !flat && args.layer is None && stem is None;
            let wrong = crossed || deep || flat || nameless;
            let name = if args.layer is Some {
                args.layer->0@
            } else {
                stem->0@
            };
            &&& crossed ==> r == Err::<Vec<EncodedTile>, _>(
                GeoJsonError::Args(ArgsError::MinAboveMax),
            )
            &&& deep ==> r == Err::<Vec<EncodedTile>, _>(
                GeoJsonError::Args(ArgsError::MaxAboveLimit),
            )
            &&& flat ==> r == Err::<Vec<EncodedTile>, _>(GeoJsonError::Args(ArgsError::ZeroExtent))
            &&& nameless ==> r == Err::<Vec<EncodedTile>, _>(
                GeoJsonError::Args(ArgsError::NoLayerName),
            )
            &&& !wrong && parsed_geojson(text@) is None ==> (r matches Err(e) && e is Parse)
            &&& !wrong && parsed_geojson(text@) is Some ==> converted(
                features_of(parsed_geojson(text@)->0),
                name,
                *args,
                *projection,
                *spatial,
                r,
            )
        }),
{
}

/// What comes out for a tile, from the document to the bytes. The features of the
/// tile are, in their order, those with a rectangle that has the tile. Each is there
/// with its identifier, its values and the image of its whole geometry. A tile of a
/// 2D document is written exactly if it has a feature, and one of a 3D document only
/// if it has. It is written with the number of its features, and with what the
/// encoder gives for exactly these. Gives the rectangles, the places of the features
/// of the tile, and what they become there.
pub proof fn law_of_converted_tiles<
    X: Fn(u64, u8, u32, u32) -> i32,
    Y: Fn(u64, u8, u32, u32) -> i32,
    H: Fn(u64) -> i32,
    E: Fn(&str, u32, &[(String, PropKind)], &[TileEntry]) -> Result<Vec<u8>, EncodeError>,
>(
    document: GeoJson,
    layer_name: &str,
    args: &GeoJsonArgs,
    projection: &Projection<X, Y, H>,
    spatial: &E,
    out: Vec<EncodedTile>,
    tile: Tile,
) -> (r: (Vec<Vec<TileRange>>, Seq<int>, Seq<TileEntry>))
    requires
        args.valid(),
        call_ensures(
            convert::<X, Y, H, E>,
            (document, layer_name, args, projection, spatial),
            Ok(out),
        ),
    ensures
        r.0@.len() == features_of(document).len(),
        forall|i: int|
            0 <= i < r.0@.len() ==> ranges_for(
                features_of(document)[i],
                args.min_zoom,
                args.max_zoom,
                (#[trigger] r.0@[i])@,
            ),
        forall|j: int, k: int|
            0 <= j < k < r.1.len() ==> #[trigger] r.1[j] < #[trigger] r.1[k],
        forall|i: int| #[trigger]
            r.1.contains(i) <==> {
                let feature = features_of(document)[i];
                let level = tile.zoom - args.min_zoom;
                &&& 0 <= i < features_of(document).len()
                &&& feature.geometry is Some
                &&& value_positions(feature.geometry->0.value).len() > 0
                &&& 0 <= level < r.0@[i]@.len()
                &&& r.0@[i]@[level].min_col <= tile.col
                &&& tile.col <= r.0@[i]@[level].max_col
                &&& r.0@[i]@[level].min_row <= tile.row
                &&& tile.row <= r.0@[i]@[level].max_row
            },
        r.2.len() == r.1.len(),
        forall|k: int|
            0 <= k < r.2.len() ==> {
                let feature = features_of(document)[r.1[k]];
                &&& (#[trigger] r.2[k]).id == id_of(feature)
                &&& values_for(
                    feature,
                    columns_for(all_entries(features_of(document))),
                    r.2[k].values@,
                )
                &&& projection.images_value(
                    feature.geometry->0.value,
                    Frame { dim: dimension_of(features_of(document)), tile, extent: args.extent },
                    r.2[k].wkt,
                )
            },
        dimension_of(features_of(document)) is XY && r.1.len() > 0 ==> exists|i: int|
            0 <= i < out@.len() && (#[trigger] out@[i]).tile == tile,
        forall|i: int|
            0 <= i < out@.len() && (#[trigger] out@[i]).tile == tile ==> {
                &&& r.1.len() > 0
                &&& out@[i].features == r.1.len()
                &&& out@[i].bytes@.len() > 0
                &&& yields(
                    *spatial,
                    layer_name@,
                    args.extent,
                    columns_for(all_entries(features_of(document))),
                    r.2,
                    out@[i].bytes,
                )
            },
        forall|i: int, j: int|
            0 <= i < j < out@.len() ==> (#[trigger] out@[i]).tile != (#[trigger] out@[j]).tile,
{
    let features = features_of(document);
    let columns = columns_for(all_entries(features));
    let result: Result<Vec<EncodedTile>, GeoJsonError> = Ok(out);
    law_of_convert(document, layer_name, args, projection, spatial, result);
    law_collections_are_found(features);
    let layer = law_the_layer_of_all_features_is_encoded(
        features,
        layer_name@,
        *args,
        *projection,
        *spatial,
        result,
    );
    let (ranges, indices) = law_layers_are_tiled_by_rectangles(
        features,
        *args,
        *projection,
        layer,
        tile,
    );
    law_every_tile_is_encoded(*spatial, layer_name@, args.extent, columns, layer.tiles@, out);
    if layer.tiles@.contains_key(tile) {
        law_tiles_have_one_dimension(features, *args, *projection, layer, tile);
    }
    assert forall|i: int| #[trigger] indices.contains(i) <==> {
        let feature = features[i];
        let level = tile.zoom - args.min_zoom;
        &&& 0 <= i < features.len()
        &&& feature.geometry is Some
        &&& value_positions(feature.geometry->0.value).len() > 0
        &&& 0 <= level < ranges@[i]@.len()
        &&& ranges@[i]@[level].min_col <= tile.col
        &&& tile.col <= ranges@[i]@[level].max_col
        &&& ranges@[i]@[level].min_row <= tile.row
        &&& tile.row <= ranges@[i]@[level].max_row
    } by {
        if 0 <= i < features.len() && features[i].geometry is Some {
            assert(!(features[i].geometry->0.value is GeometryCollection));
        }
    }
    let entries = entries_at(layer.tiles@, tile);
    assert forall|k: int| 0 <= k < entries.len() implies {
        let feature = features[indices[k]];
        &&& (#[trigger] entries[k]).id == id_of(feature)
        &&& values_for(feature, columns, entries[k].values@)
        &&& projection.images_value(
            feature.geometry->0.value,
            Frame { dim: dimension_of(features), tile, extent: args.extent },
            entries[k].wkt,
        )
    } by {
        let at = indices[k];
        assert(entries[k] == layer.tiles@[tile][k]);
    }
    (ranges, indices, entries)
}

/// Any text can be converted, under any arguments, with a projection that serves the
/// tiles of that extent down to the deepest zoom level, always with the same
/// coordinates, and an encoder of 3D layers that can be asked about any layer.
pub proof fn law_any_text_can_be_converted<
    X: Fn(u64, u8, u32, u32) -> i32,
    Y: Fn(u64, u8, u32, u32) -> i32,
    H: Fn(u64) -> i32,
    E: Fn(&str, u32, &[(String, PropKind)], &[TileEntry]) -> Result<Vec<u8>, EncodeError>,
>(
    args: &GeoJsonArgs,
    stem: &Option<String>,
    text: &str,
    projection: &Projection<X, Y, H>,
    spatial: &E,
)
    requires
        projection.deterministic(),
        forall|lon: u64, zoom: u8, col: u32|
            zoom <= 30 ==> #[trigger] projection.east.requires((lon, zoom, col, args.extent)),
        forall|lat: u64, zoom: u8, row: u32|
            zoom <= 30 ==> #[trigger] projection.south.requires((lat, zoom, row, args.extent)),
        forall|alt: u64| #[trigger] projection.height.requires((alt,)),
        forall|
            name: &str,
            extent: u32,
            schema: &[(String, PropKind)],
            features: &[TileEntry],
        | #[trigger] spatial.requires((name, extent, schema, features)),
    ensures
        call_requires(
            crate::convert::geojson::<X, Y, H, E>,
            (args, stem, text, projection, spatial),
        ),
{
    assert forall|tile: Tile| tile.zoom <= 30 implies #[trigger] projection.serves(
        tile,
        args.extent,
    ) by {}
}

/// Any features have a schema, a dimension and values, any geometry its positions
/// and its box, and any JSON value a kind and a property value.
pub proof fn law_operations_take_all_values(
    features: &[Feature],
    feature: &Feature,
    schema: &[(String, PropKind)],
    value: &GeometryValue,
    json: &JsonValue,
    kind: PropKind,
    wkt: &Wkt,
    document: GeoJson,
)
    ensures
        call_requires(infer_schema, (features,)),
        call_requires(layer_dimension, (features,)),
        call_requires(has_collection, (features,)),
        call_requires(feature_values, (feature, schema)),
        call_requires(feature_id, (feature,)),
        call_requires(GeometryValue::positions, (value,)),
        call_requires(GeometryValue::has_z, (value,)),
        call_requires(GeometryValue::lonlat_bbox, (value,)),
        call_requires(InferredKind::from_json, (json,)),
        call_requires(to_prop_value, (kind, Some(json))),
        call_requires(to_prop_value, (kind, None)),
        call_requires(flatten, (wkt,)),
        call_requires(normalize_to_features, (document,)),
{
}

} // verus!
