//! From the features of a tile to the bytes of its one layer.

use geojson::GeometryValue;
use mlt_core::{MltError, PropKind, PropValue, PropertyKey, TileLayer, TileLayerBuilder};
use vstd::prelude::*;

use crate::geometry::{line_coords, polygon_coords, projectable, wkt_coords, Frame};
use crate::mlt::{
    add_property, begin_feature, builder_layer, closed_ring, closed_rings, draft_base,
    draft_outcome, draft_row, encodable, encode_layer, encodes, finish_feature, finish_layer,
    key_index, kind_of, layer_builder, null_of, row_fits, set_id, set_property, shareable, Flat,
    Layer, Row, Shape, Vertex,
};
use crate::project::{Projection, Tile};
use crate::properties::columns_of;
use crate::size::{is_encodable, is_shareable};
use crate::tiles::{TileBucket, TileEntry, TileMap};
use crate::wkt::{Coord, Dimension, LineString, Point, Polygon, Wkt};

verus! {

/// The X and Y of a vertex.
pub open spec fn flat_coord(c: Coord) -> Vertex {
    (c.x, c.y)
}

/// The X and Y of each vertex of a line.
pub open spec fn flat_line(line: LineString) -> Seq<Vertex> {
    line.coords@.map_values(|c: Coord| flat_coord(c))
}

/// The rings of a polygon, each closed. One without rings has an empty
/// exterior.
pub open spec fn flat_polygon(polygon: Polygon) -> Seq<Seq<Vertex>> {
    if polygon.rings.len() == 0 {
        seq![seq![]]
    } else {
        polygon.rings@.map_values(|ring: LineString| closed_ring(flat_line(ring)))
    }
}

/// The geometry without its Z, as a layer holds it.
pub open spec fn flat_shape(wkt: Wkt) -> Shape {
    match wkt {
        Wkt::Point(p) => Shape::Point(flat_coord(p.coord)),
        Wkt::LineString(line) => Shape::LineString(flat_line(line)),
        Wkt::Polygon(polygon) => Shape::Polygon(flat_polygon(polygon)),
        Wkt::MultiPoint(m) => Shape::MultiPoint(
            m.points@.map_values(|p: Point| flat_coord(p.coord)),
        ),
        Wkt::MultiLineString(m) => Shape::MultiLineString(
            m.lines@.map_values(|line: LineString| flat_line(line)),
        ),
        Wkt::MultiPolygon(m) => Shape::MultiPolygon(
            m.polygons@.map_values(|polygon: Polygon| flat_polygon(polygon)),
        ),
    }
}

/// Whether a vertex of a line has a Z.
pub open spec fn line_rises(line: LineString) -> bool {
    exists|i: int| 0 <= i < line.coords.len() && (#[trigger] line.coords[i]).z is Some
}

/// Whether a vertex of a polygon has a Z.
pub open spec fn polygon_rises(polygon: Polygon) -> bool {
    exists|i: int| 0 <= i < polygon.rings.len() && line_rises(#[trigger] polygon.rings[i])
}

/// Whether a vertex of a geometry has a Z.
pub open spec fn rises(wkt: Wkt) -> bool {
    match wkt {
        Wkt::Point(p) => p.coord.z is Some,
        Wkt::LineString(line) => line_rises(line),
        Wkt::Polygon(polygon) => polygon_rises(polygon),
        Wkt::MultiPoint(m) => exists|i: int|
            0 <= i < m.points.len() && (#[trigger] m.points[i]).coord.z is Some,
        Wkt::MultiLineString(m) => exists|i: int|
            0 <= i < m.lines.len() && line_rises(#[trigger] m.lines[i]),
        Wkt::MultiPolygon(m) => exists|i: int|
            0 <= i < m.polygons.len() && polygon_rises(#[trigger] m.polygons[i]),
    }
}

/// A line of which a vertex has a Z is found by that vertex.
proof fn lemma_lines_rise(lines: Seq<LineString>, k: int)
    requires
        0 <= k < line_coords(lines).len(),
        line_coords(lines)[k].z is Some,
    ensures
        exists|i: int| 0 <= i < lines.len() && line_rises(#[trigger] lines[i]),
    decreases lines.len(),
{
    let rest = lines.drop_last();
    if k < line_coords(rest).len() {
        lemma_lines_rise(rest, k);
        let i = choose|i: int| 0 <= i < rest.len() && line_rises(#[trigger] rest[i]);
        assert(line_rises(lines[i]));
    } else {
        assert(lines.last().coords[k - line_coords(rest).len()].z is Some);
        assert(line_rises(lines[lines.len() - 1]));
    }
}

/// A polygon of which a vertex has a Z is found by that vertex.
proof fn lemma_polygons_rise(polygons: Seq<Polygon>, k: int)
    requires
        0 <= k < polygon_coords(polygons).len(),
        polygon_coords(polygons)[k].z is Some,
    ensures
        exists|i: int| 0 <= i < polygons.len() && polygon_rises(#[trigger] polygons[i]),
    decreases polygons.len(),
{
    let rest = polygons.drop_last();
    if k < polygon_coords(rest).len() {
        lemma_polygons_rise(rest, k);
        let i = choose|i: int| 0 <= i < rest.len() && polygon_rises(#[trigger] rest[i]);
        assert(polygon_rises(polygons[i]));
    } else {
        lemma_lines_rise(polygons.last().rings@, k - polygon_coords(rest).len());
        assert(polygon_rises(polygons[polygons.len() - 1]));
    }
}

/// A geometry of which a vertex has a Z rises.
proof fn lemma_rises(wkt: Wkt, k: int)
    requires
        0 <= k < wkt_coords(wkt).len(),
        wkt_coords(wkt)[k].z is Some,
    ensures
        rises(wkt),
{
    match wkt {
        Wkt::Point(_) => {},
        Wkt::LineString(line) => {
            assert(line.coords[k].z is Some);
        },
        Wkt::Polygon(polygon) => lemma_lines_rise(polygon.rings@, k),
        Wkt::MultiPoint(m) => {
            assert(m.points[k].coord.z is Some);
        },
        Wkt::MultiLineString(m) => lemma_lines_rise(m.lines@, k),
        Wkt::MultiPolygon(m) => lemma_polygons_rise(m.polygons@, k),
    }
}

/// The image of a geometry has a Z exactly if the layer is 3D.
pub proof fn law_only_3d_layers_rise<
    X: Fn(u64, u8, u32, u32) -> i32,
    Y: Fn(u64, u8, u32, u32) -> i32,
    H: Fn(u64) -> i32,
>(
    projection: Projection<X, Y, H>,
    value: GeometryValue,
    frame: Frame,
    wkt: Wkt,
)
    requires
        projectable(value),
        projection.images_value(value, frame, wkt),
    ensures
        rises(wkt) <==> frame.dim == Dimension::XYZ,
{
    projection.law_nothing_is_clipped(value, frame, wkt);
    projection.law_one_dimension(value, frame, wkt);
    if frame.dim == Dimension::XYZ {
        lemma_rises(wkt, 0);
    }
}

/// Drops the Z off the vertices of a line.
fn flatten_line(line: &LineString) -> (r: Vec<Vertex>)
    ensures
        r@ == flat_line(*line),
{
    let mut out: Vec<Vertex> = Vec::new();
    for i in 0..line.coords.len()
        invariant
            out@ == flat_line(*line).take(i as int),
    {
        let c: Coord = line.coords[i];
        out.push((c.x, c.y));
        assert(flat_line(*line).take(i + 1) == flat_line(*line).take(i as int).push((c.x, c.y)));
    }
    assert(flat_line(*line).take(line.coords.len() as int) == flat_line(*line));
    out
}

/// Splits a polygon into its exterior and its interior rings.
fn flatten_polygon(polygon: &Polygon) -> (r: (Vec<Vertex>, Vec<Vec<Vertex>>))
    ensures
        closed_rings(r.0, r.1) == flat_polygon(*polygon),
{
    let mut interiors: Vec<Vec<Vertex>> = Vec::new();
    if polygon.rings.len() == 0 {
        let exterior: Vec<Vertex> = Vec::new();
        assert(closed_rings(exterior, interiors) == flat_polygon(*polygon));
        return (exterior, interiors);
    }
    let exterior: Vec<Vertex> = flatten_line(&polygon.rings[0]);
    for i in 1..polygon.rings.len()
        invariant
            polygon.rings.len() >= 1,
            interiors.len() == i - 1,
            forall|j: int|
                0 <= j < i - 1 ==> (#[trigger] interiors[j])@ == flat_line(polygon.rings[j + 1]),
    {
        interiors.push(flatten_line(&polygon.rings[i]));
    }
    assert(closed_rings(exterior, interiors) == flat_polygon(*polygon));
    (exterior, interiors)
}

/// Gives the geometry without its Z.
pub fn flatten(wkt: &Wkt) -> (r: Flat)
    ensures
        r.shape() == flat_shape(*wkt),
{
    match wkt {
        Wkt::Point(p) => Flat::Point((p.coord.x, p.coord.y)),
        Wkt::LineString(line) => Flat::LineString(flatten_line(line)),
        Wkt::Polygon(polygon) => {
            let (exterior, interiors) = flatten_polygon(polygon);
            Flat::Polygon(exterior, interiors)
        },
        Wkt::MultiPoint(m) => {
            let mut out: Vec<Vertex> = Vec::new();
            for i in 0..m.points.len()
                invariant
                    out.len() == i,
                    forall|j: int|
                        0 <= j < i ==> #[trigger] out[j] == flat_coord(m.points[j].coord),
            {
                let c: Coord = m.points[i].coord;
                out.push((c.x, c.y));
            }
            let flat: Flat = Flat::MultiPoint(out);
            assert(flat.shape() =~= flat_shape(*wkt));
            flat
        },
        Wkt::MultiLineString(m) => {
            let mut out: Vec<Vec<Vertex>> = Vec::new();
            for i in 0..m.lines.len()
                invariant
                    out.len() == i,
                    forall|j: int| 0 <= j < i ==> (#[trigger] out[j])@ == flat_line(m.lines[j]),
            {
                out.push(flatten_line(&m.lines[i]));
            }
            let flat: Flat = Flat::MultiLineString(out);
            assert(flat.shape() =~= flat_shape(*wkt));
            flat
        },
        Wkt::MultiPolygon(m) => {
            let mut out: Vec<(Vec<Vertex>, Vec<Vec<Vertex>>)> = Vec::new();
            for i in 0..m.polygons.len()
                invariant
                    out.len() == i,
                    forall|j: int|
                        0 <= j < i ==> closed_rings((#[trigger] out[j]).0, out[j].1)
                            == flat_polygon(m.polygons[j]),
            {
                out.push(flatten_polygon(&m.polygons[i]));
            }
            let flat: Flat = Flat::MultiPolygon(out);
            assert(flat.shape() =~= flat_shape(*wkt));
            flat
        },
    }
}

/// Looks for a Z in a line.
fn has_line_z(line: &LineString) -> (r: bool)
    ensures
        r == line_rises(*line),
{
    for i in 0..line.coords.len()
        invariant
            forall|j: int| 0 <= j < i ==> (#[trigger] line.coords[j]).z is None,
    {
        if line.coords[i].z.is_some() {
            assert(line.coords[i as int].z is Some);
            return true;
        }
    }
    false
}

/// Looks for a Z in several lines.
fn has_lines_z(lines: &Vec<LineString>) -> (r: bool)
    ensures
        r == exists|i: int| 0 <= i < lines.len() && line_rises(#[trigger] lines[i]),
{
    for i in 0..lines.len()
        invariant
            forall|j: int| 0 <= j < i ==> !line_rises(#[trigger] lines[j]),
    {
        if has_line_z(&lines[i]) {
            assert(line_rises(lines[i as int]));
            return true;
        }
    }
    false
}

/// Looks for a Z in a geometry.
pub fn has_z(wkt: &Wkt) -> (r: bool)
    ensures
        r == rises(*wkt),
{
    match wkt {
        Wkt::Point(p) => p.coord.z.is_some(),
        Wkt::LineString(line) => has_line_z(line),
        Wkt::Polygon(polygon) => has_lines_z(&polygon.rings),
        Wkt::MultiPoint(m) => {
            for i in 0..m.points.len()
                invariant
                    *wkt == Wkt::MultiPoint(*m),
                    forall|j: int| 0 <= j < i ==> (#[trigger] m.points[j]).coord.z is None,
            {
                if m.points[i].coord.z.is_some() {
                    assert(m.points[i as int].coord.z is Some);
                    return true;
                }
            }
            false
        },
        Wkt::MultiLineString(m) => has_lines_z(&m.lines),
        Wkt::MultiPolygon(m) => {
            for i in 0..m.polygons.len()
                invariant
                    *wkt == Wkt::MultiPolygon(*m),
                    forall|j: int| 0 <= j < i ==> !polygon_rises(#[trigger] m.polygons[j]),
            {
                if has_lines_z(&m.polygons[i].rings) {
                    assert(polygon_rises(m.polygons[i as int]));
                    return true;
                }
            }
            false
        },
    }
}

/// Whether a vertex of one of the features has a Z.
pub open spec fn rising(entries: Seq<TileEntry>) -> bool {
    exists|i: int| 0 <= i < entries.len() && rises((#[trigger] entries[i]).wkt)
}

/// Looks for a Z in the features of a tile.
pub fn is_rising(features: &[TileEntry]) -> (r: bool)
    ensures
        r == rising(features@),
{
    for i in 0..features.len()
        invariant
            forall|j: int| 0 <= j < i ==> !rises((#[trigger] features@[j]).wkt),
    {
        if has_z(&features[i].wkt) {
            assert(rises(features@[i as int].wkt));
            return true;
        }
    }
    false
}

/// The columns of a layer, by name and kind.
pub type Columns = Seq<(Seq<char>, PropKind)>;

/// Why a tile cannot be encoded.
#[derive(Debug)]
pub enum EncodeError {
    /// The layer has no name, or an extent of zero.
    Layer(MltError),
    /// Two columns have the same name.
    Column(MltError),
    /// A value is of another kind than its column.
    Value(MltError),
    /// The layer is too large to count its parts, or too wide.
    Oversize,
    /// The encoder of 2D layers gives up.
    Encode(MltError),
    /// The encoder of 3D layers gives up, for this reason.
    Spatial(String),
}

/// What is wrong with the features of a tile.
pub enum Fault {
    Layer,
    Column,
    Value,
}

impl EncodeError {
    /// What is wrong with the features, where they are at fault.
    pub open spec fn fault(self) -> Option<Fault> {
        match self {
            EncodeError::Layer(_) => Some(Fault::Layer),
            EncodeError::Column(_) => Some(Fault::Column),
            EncodeError::Value(_) => Some(Fault::Value),
            EncodeError::Oversize | EncodeError::Encode(_) | EncodeError::Spatial(_) => None,
        }
    }
}

/// Whether no two columns have the same name.
pub open spec fn distinct(columns: Columns) -> bool {
    forall|i: int, j: int|
        0 <= i < j < columns.len() ==> (#[trigger] columns[i]).0 != (#[trigger] columns[j]).0
}

/// Whether a value that has a column is of another kind.
pub open spec fn misfits(columns: Columns, values: Seq<PropValue>) -> bool {
    exists|i: int|
        0 <= i < values.len() && i < columns.len() && kind_of(#[trigger] values[i]) != columns[i].1
}

/// Whether a feature has a value of another kind than its column.
pub open spec fn any_misfit(columns: Columns, entries: Seq<TileEntry>) -> bool {
    exists|i: int| 0 <= i < entries.len() && misfits(columns, (#[trigger] entries[i]).values@)
}

/// What is wrong with the features of a tile.
pub open spec fn tile_fault(
    name: Seq<char>,
    extent: u32,
    columns: Columns,
    entries: Seq<TileEntry>,
) -> Option<Fault> {
    if name.len() == 0 || extent == 0 {
        Some(Fault::Layer)
    } else if !distinct(columns) {
        Some(Fault::Column)
    } else if any_misfit(columns, entries) {
        Some(Fault::Value)
    } else {
        None
    }
}

/// One value per column: the given one, or the null of a column without one.
pub open spec fn row_values(columns: Columns, values: Seq<PropValue>) -> Seq<PropValue> {
    Seq::new(
        columns.len(),
        |i: int|
            if i < values.len() {
                values[i]
            } else {
                null_of(columns[i].1)
            },
    )
}

/// The row for a feature, without its Z.
pub open spec fn row_of(columns: Columns, entry: TileEntry) -> Row {
    Row {
        id: entry.id,
        shape: flat_shape(entry.wkt),
        values: row_values(columns, entry.values@),
    }
}

/// The rows for the features of a tile.
pub open spec fn rows_of(columns: Columns, entries: Seq<TileEntry>) -> Seq<Row> {
    entries.map_values(|entry: TileEntry| row_of(columns, entry))
}

/// The layer for the features of a tile.
pub open spec fn layer_of(
    name: Seq<char>,
    extent: u32,
    columns: Columns,
    entries: Seq<TileEntry>,
) -> Layer {
    Layer { name, extent, columns, rows: rows_of(columns, entries) }
}

/// Appends a feature to a layer.
fn add_feature(
    builder: &mut TileLayerBuilder,
    keys: &Vec<PropertyKey>,
    entry: &TileEntry,
) -> (r: Result<(), EncodeError>)
    requires
        keys.len() == builder_layer(*old(builder)).columns.len(),
        forall|i: int| 0 <= i < keys.len() ==> key_index(#[trigger] keys[i]) == i,
    ensures
        ({
            let before = builder_layer(*old(builder));
            match r {
                Ok(_) => !misfits(before.columns, entry.values@) && builder_layer(*final(builder))
                    == (Layer {
                    rows: before.rows.push(row_of(before.columns, *entry)),
                    ..before
                }),
                Err(e) => misfits(before.columns, entry.values@) && e.fault() == Some(Fault::Value),
            }
        }),
{
    let ghost before = builder_layer(*builder);
    let ghost columns = before.columns;
    let values: &Vec<PropValue> = &entry.values;
    let mut draft = begin_feature(builder, flatten(&entry.wkt));
    let ghost outcome = draft_outcome(draft);
    set_id(&mut draft, entry.id);
    let ghost target = row_of(columns, *entry);
    let mut i: usize = 0;
    while i < keys.len() && i < values.len()
        invariant
            0 <= i <= keys.len(),
            i <= values.len(),
            before == builder_layer(*old(builder)),
            columns == before.columns,
            *values == *entry.values,
            keys.len() == columns.len(),
            forall|j: int| 0 <= j < keys.len() ==> key_index(#[trigger] keys[j]) == j,
            target == row_of(columns, *entry),
            draft_base(draft) == before,
            draft_outcome(draft) == outcome,
            draft_row(draft).id == entry.id,
            draft_row(draft).shape == target.shape,
            draft_row(draft).values.len() == columns.len(),
            forall|j: int|
                0 <= j < columns.len() ==> #[trigger] draft_row(draft).values[j] == if j < i {
                    values[j]
                } else {
                    null_of(columns[j].1)
                },
            forall|j: int| 0 <= j < i ==> kind_of(#[trigger] values[j]) == columns[j].1,
        decreases keys.len() - i,
    {
        match set_property(&mut draft, keys[i], &values[i]) {
            Ok(_) => {},
            Err(e) => {
                assert(misfits(columns, entry.values@)) by {
                    assert(kind_of(entry.values@[i as int]) != columns[i as int].1);
                }
                return Err(EncodeError::Value(e));
            },
        }
        i = i + 1;
    }
    assert(draft_row(draft).values == target.values);
    assert(row_fits(target.values, columns));
    match finish_feature(draft) {
        Ok(_) => Ok(()),
        Err(e) => Err(EncodeError::Value(e)),
    }
}

/// Builds and encodes a single tile layer from its features. The encoder at hand
/// is one of 2D layers; a layer of which a vertex has a Z goes to `spatial`, an
/// encoder that the caller supplies.
pub fn encode_tile<
    E: Fn(&str, u32, &[(String, PropKind)], &[TileEntry]) -> Result<Vec<u8>, EncodeError>,
>(
    layer_name: &str,
    extent: u32,
    schema: &[(String, PropKind)],
    features: &[TileEntry],
    spatial: &E,
) -> (r: Result<Vec<u8>, EncodeError>)
    requires
        rising(features@) || encodable(
            rows_of(columns_of(schema@), features@),
            schema.len() as nat,
        ),
        spatial.requires((layer_name, extent, schema, features)),
    ensures
        ({
            let columns = columns_of(schema@);
            let layer = layer_of(layer_name@, extent, columns, features@);
            let sharing = shareable(layer.rows, columns.len());
            match tile_fault(layer_name@, extent, columns, features@) {
                Some(fault) => r matches Err(e) && e.fault() == Some(fault),
                None => if rising(features@) {
                    spatial.ensures((layer_name, extent, schema, features), r)
                } else {
                    match r {
                        Ok(bytes) => {
                            &&& encodes(layer, sharing, Some(bytes@))
                            &&& bytes.len() == 0 <==> features.len() == 0
                        },
                        Err(e) => {
                            &&& e is Encode
                            &&& features.len() > 0
                            &&& encodes(layer, sharing, None)
                        },
                    }
                },
            }
        }),
{
    let ghost columns = columns_of(schema@);
    let mut builder: TileLayerBuilder = match layer_builder(layer_name, extent) {
        Ok(builder) => builder,
        Err(e) => {
            return Err(EncodeError::Layer(e));
        },
    };
    let mut keys: Vec<PropertyKey> = Vec::new();
    assert(columns.take(0) == Columns::empty());
    for i in 0..schema.len()
        invariant
            columns == columns_of(schema@),
            layer_name@.len() > 0,
            extent > 0,
            distinct(columns.take(i as int)),
            builder_layer(builder) == (Layer {
                name: layer_name@,
                extent,
                columns: columns.take(i as int),
                rows: seq![],
            }),
            keys.len() == i,
            forall|j: int| 0 <= j < i ==> key_index(#[trigger] keys[j]) == j,
    {
        let ghost seen = columns.take(i as int);
        match add_property(&mut builder, schema[i].0.as_str(), schema[i].1) {
            Ok(key) => keys.push(key),
            Err(e) => {
                proof {
                    let j = choose|j: int|
                        0 <= j < seen.len() && (#[trigger] seen[j]).0 == columns[i as int].0;
                    assert(columns[j].0 == columns[i as int].0);
                }
                return Err(EncodeError::Column(e));
            },
        }
        assert(columns.take(i + 1) == seen.push(columns[i as int]));
        assert forall|a: int, b: int| 0 <= a < b < i + 1 implies (#[trigger] columns.take(
            i + 1,
        )[a]).0 != (#[trigger] columns.take(i + 1)[b]).0 by {
            assert(seen[a].0 != columns[i as int].0);
            if b < i {
                assert(seen[a].0 != seen[b].0);
            }
        }
    }
    assert(columns.take(schema.len() as int) == columns);
    assert(rows_of(columns, features@.take(0)) == Seq::<Row>::empty());
    for i in 0..features.len()
        invariant
            layer_name@.len() > 0,
            extent > 0,
            columns == columns_of(schema@),
            distinct(columns),
            !any_misfit(columns, features@.take(i as int)),
            builder_layer(builder) == layer_of(
                layer_name@,
                extent,
                columns,
                features@.take(i as int),
            ),
            keys.len() == columns.len(),
            forall|j: int| 0 <= j < keys.len() ==> key_index(#[trigger] keys[j]) == j,
    {
        let ghost done = features@.take(i as int);
        let ghost next = features@.take(i + 1);
        assert(rows_of(columns, next) == rows_of(columns, done).push(
            row_of(columns, features@[i as int]),
        ));
        match add_feature(&mut builder, &keys, &features[i]) {
            Ok(_) => {},
            Err(e) => {
                assert(misfits(columns, features@[i as int].values@));
                return Err(e);
            },
        }
        assert forall|k: int| 0 <= k < next.len() implies !misfits(
            columns,
            (#[trigger] next[k]).values@,
        ) by {
            if k < i {
                assert(next[k] == done[k]);
            }
        }
    }
    assert(features@.take(features.len() as int) == features@);
    if is_rising(features) {
        return spatial(layer_name, extent, schema, features);
    }
    let layer: TileLayer = finish_layer(builder);
    match encode_layer(layer, is_shareable(schema, features)) {
        Ok(bytes) => Ok(bytes),
        Err(e) => Err(EncodeError::Encode(e)),
    }
}

/// A tile's bytes, with the number of its features.
#[derive(Debug, PartialEq, Eq)]
pub struct EncodedTile {
    pub tile: Tile,
    pub bytes: Vec<u8>,
    pub features: usize,
}

/// Whether an encoder of 3D layers can be asked about any layer.
pub open spec fn answers<
    E: Fn(&str, u32, &[(String, PropKind)], &[TileEntry]) -> Result<Vec<u8>, EncodeError>,
>(spatial: E) -> bool {
    forall|name: &str, extent: u32, schema: &[(String, PropKind)], features: &[TileEntry]|
        #[trigger] spatial.requires((name, extent, schema, features))
}

/// Whether an encoder of 3D layers, given a layer, can come to this outcome.
pub open spec fn outcome<
    E: Fn(&str, u32, &[(String, PropKind)], &[TileEntry]) -> Result<Vec<u8>, EncodeError>,
>(
    spatial: E,
    name: Seq<char>,
    extent: u32,
    columns: Columns,
    entries: Seq<TileEntry>,
    r: Result<Vec<u8>, EncodeError>,
) -> bool {
    exists|n: &str, schema: &[(String, PropKind)], features: &[TileEntry]|
        #[trigger] spatial.ensures((n, extent, schema, features), r) && n@ == name && columns_of(
            schema@,
        ) == columns && features@ == entries
}

/// Whether the encoder of 2D layers, given the features of a tile, can come to
/// this outcome. Columns share dictionaries, unless one could be too large.
pub open spec fn encodes_tile(
    name: Seq<char>,
    extent: u32,
    columns: Columns,
    entries: Seq<TileEntry>,
    outcome: Option<Seq<u8>>,
) -> bool {
    let layer = layer_of(name, extent, columns, entries);
    encodes(layer, shareable(layer.rows, columns.len()), outcome)
}

/// Whether an error is one that the features of a tile can give.
pub open spec fn fails<
    E: Fn(&str, u32, &[(String, PropKind)], &[TileEntry]) -> Result<Vec<u8>, EncodeError>,
>(
    spatial: E,
    name: Seq<char>,
    extent: u32,
    columns: Columns,
    entries: Seq<TileEntry>,
    error: EncodeError,
) -> bool {
    let fault = tile_fault(name, extent, columns, entries);
    if !sizeable(columns, entries) {
        error is Oversize
    } else if fault is Some {
        error.fault() == fault
    } else if rising(entries) {
        outcome(spatial, name, extent, columns, entries, Err(error))
    } else {
        &&& error is Encode
        &&& entries.len() > 0
        &&& encodes_tile(name, extent, columns, entries, None)
    }
}

/// Whether the features of a tile are not too many for the encoder at hand. One
/// of 3D layers has its own limits.
pub open spec fn sizeable(columns: Columns, entries: Seq<TileEntry>) -> bool {
    rising(entries) || encodable(rows_of(columns, entries), columns.len())
}

/// Whether the features of a tile can be handed to an encoder.
pub open spec fn sound(
    name: Seq<char>,
    extent: u32,
    columns: Columns,
    entries: Seq<TileEntry>,
) -> bool {
    sizeable(columns, entries) && tile_fault(name, extent, columns, entries) is None
}

/// Whether these bytes can come out for the features of a tile.
pub open spec fn yields<
    E: Fn(&str, u32, &[(String, PropKind)], &[TileEntry]) -> Result<Vec<u8>, EncodeError>,
>(
    spatial: E,
    name: Seq<char>,
    extent: u32,
    columns: Columns,
    entries: Seq<TileEntry>,
    bytes: Vec<u8>,
) -> bool {
    if rising(entries) {
        outcome(spatial, name, extent, columns, entries, Ok(bytes))
    } else {
        encodes_tile(name, extent, columns, entries, Some(bytes@))
    }
}

/// Whether an encoded tile is one of those of the map.
pub open spec fn encoded_from<
    E: Fn(&str, u32, &[(String, PropKind)], &[TileEntry]) -> Result<Vec<u8>, EncodeError>,
>(
    spatial: E,
    name: Seq<char>,
    extent: u32,
    columns: Columns,
    map: Map<Tile, Seq<TileEntry>>,
    out: EncodedTile,
) -> bool {
    &&& map.contains_key(out.tile)
    &&& out.features == map[out.tile].len()
    &&& out.features > 0
    &&& out.bytes.len() > 0
    &&& yields(spatial, name, extent, columns, map[out.tile], out.bytes)
}

/// Whether no bytes come out for a 3D tile, which then is not written.
pub open spec fn left_out<
    E: Fn(&str, u32, &[(String, PropKind)], &[TileEntry]) -> Result<Vec<u8>, EncodeError>,
>(
    spatial: E,
    name: Seq<char>,
    extent: u32,
    columns: Columns,
    entries: Seq<TileEntry>,
) -> bool {
    rising(entries) && exists|bytes: Vec<u8>|
        bytes.len() == 0 && #[trigger] outcome(
            spatial,
            name,
            extent,
            columns,
            entries,
            Ok::<Vec<u8>, EncodeError>(bytes),
        )
}

/// Whether a tile is one of those of `out`.
pub open spec fn written(out: Seq<EncodedTile>, tile: Tile) -> bool {
    exists|i: int| 0 <= i < out.len() && (#[trigger] out[i]).tile == tile
}

/// Whether `out` are the encoded tiles of the map: each tile that has features
/// stands there once, unless no bytes come out for it.
pub open spec fn encoded_all<
    E: Fn(&str, u32, &[(String, PropKind)], &[TileEntry]) -> Result<Vec<u8>, EncodeError>,
>(
    spatial: E,
    name: Seq<char>,
    extent: u32,
    columns: Columns,
    map: Map<Tile, Seq<TileEntry>>,
    out: Seq<EncodedTile>,
) -> bool {
    &&& forall|i: int|
        0 <= i < out.len() ==> encoded_from(spatial, name, extent, columns, map, #[trigger] out[i])
    &&& forall|i: int, j: int|
        0 <= i < j < out.len() ==> (#[trigger] out[i]).tile != (#[trigger] out[j]).tile
    &&& forall|tile: Tile| #[trigger]
        map.contains_key(tile) ==> {
            &&& sound(name, extent, columns, map[tile])
            &&& map[tile].len() > 0 ==> written(out, tile) || left_out(
                spatial,
                name,
                extent,
                columns,
                map[tile],
            )
        }
}

/// What comes of encoding the tiles of a map: all of them, or what is wrong
/// with one.
pub open spec fn encoding<
    E: Fn(&str, u32, &[(String, PropKind)], &[TileEntry]) -> Result<Vec<u8>, EncodeError>,
>(
    spatial: E,
    name: Seq<char>,
    extent: u32,
    columns: Columns,
    map: Map<Tile, Seq<TileEntry>>,
    r: Result<Vec<EncodedTile>, EncodeError>,
) -> bool {
    match r {
        Ok(out) => encoded_all(spatial, name, extent, columns, map, out@),
        Err(e) => exists|tile: Tile| #[trigger]
            map.contains_key(tile) && fails(spatial, name, extent, columns, map[tile], e),
    }
}

/// Whether a tile is one of those of `buckets`.
spec fn among(buckets: Seq<TileBucket>, tile: Tile) -> bool {
    exists|k: int| 0 <= k < buckets.len() && (#[trigger] buckets[k]).tile == tile
}

/// Encodes every tile that has features.
pub fn encode_tiles<
    E: Fn(&str, u32, &[(String, PropKind)], &[TileEntry]) -> Result<Vec<u8>, EncodeError>,
>(
    layer_name: &str,
    extent: u32,
    schema: &[(String, PropKind)],
    tiles: &TileMap,
    spatial: &E,
) -> (r: Result<Vec<EncodedTile>, EncodeError>)
    requires
        tiles.wf(),
        answers(*spatial),
    ensures
        encoding(*spatial, layer_name@, extent, columns_of(schema@), tiles@, r),
{
    let ghost columns = columns_of(schema@);
    let buckets: &Vec<TileBucket> = tiles.buckets();
    let mut out: Vec<EncodedTile> = Vec::new();
    for i in 0..buckets.len()
        invariant
            answers(*spatial),
            columns == columns_of(schema@),
            forall|j: int|
                0 <= j < buckets.len() ==> tiles@.contains_pair(
                    (#[trigger] buckets[j]).tile,
                    buckets[j].entries@,
                ),
            forall|j: int, k: int|
                0 <= j < k < buckets.len() ==> (#[trigger] buckets[j]).tile != (
                #[trigger] buckets[k]).tile,
            forall|j: int|
                0 <= j < out.len() ==> encoded_from(
                    *spatial,
                    layer_name@,
                    extent,
                    columns,
                    tiles@,
                    #[trigger] out[j],
                ),
            forall|j: int|
                0 <= j < out.len() ==> among(buckets@.take(i as int), (#[trigger] out[j]).tile),
            forall|j: int, k: int|
                0 <= j < k < out.len() ==> (#[trigger] out[j]).tile != (#[trigger] out[k]).tile,
            forall|j: int|
                0 <= j < i ==> {
                    let entries = (#[trigger] buckets[j]).entries@;
                    &&& sound(layer_name@, extent, columns, entries)
                    &&& entries.len() > 0 ==> written(out@, buckets[j].tile) || left_out(
                        *spatial,
                        layer_name@,
                        extent,
                        columns,
                        entries,
                    )
                },
    {
        let bucket: &TileBucket = &buckets[i];
        assert(tiles@.contains_key(bucket.tile));
        if !is_rising(&bucket.entries) && !is_encodable(schema, &bucket.entries) {
            return Err(EncodeError::Oversize);
        }
        let bytes: Vec<u8> = match encode_tile(
            layer_name,
            extent,
            schema,
            &bucket.entries,
            spatial,
        ) {
            Ok(bytes) => bytes,
            Err(e) => {
                return Err(e);
            },
        };
        let ghost before = out@;
        assert(yields(*spatial, layer_name@, extent, columns, bucket.entries@, bytes));
        if bytes.len() > 0 {
            let tile: Tile = bucket.tile;
            out.push(EncodedTile { tile, bytes, features: bucket.entries.len() });
            assert(out@[before.len() as int].tile == tile);
        }
        assert(forall|k: int| 0 <= k < before.len() ==> out@[k] == #[trigger] before[k]);
        assert forall|tile: Tile| #[trigger] written(before, tile) implies written(out@, tile) by {
            let k = choose|k: int| 0 <= k < before.len() && (#[trigger] before[k]).tile == tile;
            assert(out@[k].tile == tile);
        }
        assert forall|tile: Tile| among(buckets@.take(i as int), tile) || tile
            == bucket.tile implies #[trigger] among(buckets@.take(i + 1), tile) by {
            let seen = buckets@.take(i as int);
            let all = buckets@.take(i + 1);
            assert(all[i as int] == *bucket);
            if among(seen, tile) {
                let k = choose|k: int| 0 <= k < seen.len() && (#[trigger] seen[k]).tile == tile;
                assert(all[k].tile == tile);
            }
        }
    }
    assert forall|tile: Tile| #[trigger] tiles@.contains_key(tile) implies {
        &&& sound(layer_name@, extent, columns, tiles@[tile])
        &&& tiles@[tile].len() > 0 ==> written(out@, tile) || left_out(
            *spatial,
            layer_name@,
            extent,
            columns,
            tiles@[tile],
        )
    } by {
        let i = choose|i: int| 0 <= i < buckets.len() && (#[trigger] buckets[i]).tile == tile;
        assert(tiles@.contains_pair(buckets[i].tile, buckets[i].entries@));
    }
    Ok(out)
}

/// Flattening drops the Z and nothing else. A geometry keeps its kind, its parts
/// and its vertices in their order, and each vertex keeps its X as the first and
/// its Y as the second of its coordinates.
pub proof fn law_flattening_drops_only_the_z(wkt: Wkt)
    ensures
        match wkt {
            Wkt::Point(p) => flat_shape(wkt) == Shape::Point((p.coord.x, p.coord.y)),
            Wkt::LineString(line) => {
                &&& flat_shape(wkt) matches Shape::LineString(r)
                &&& r.len() == line.coords@.len()
                &&& forall|i: int|
                    0 <= i < r.len() ==> #[trigger] r[i] == (line.coords@[i].x, line.coords@[i].y)
            },
            Wkt::Polygon(polygon) => flat_shape(wkt) == Shape::Polygon(flat_polygon(polygon)),
            Wkt::MultiPoint(m) => {
                &&& flat_shape(wkt) matches Shape::MultiPoint(r)
                &&& r.len() == m.points@.len()
                &&& forall|i: int|
                    0 <= i < r.len() ==> #[trigger] r[i] == (
                        m.points@[i].coord.x,
                        m.points@[i].coord.y,
                    )
            },
            Wkt::MultiLineString(m) => {
                &&& flat_shape(wkt) matches Shape::MultiLineString(r)
                &&& r.len() == m.lines@.len()
                &&& forall|i: int|
                    0 <= i < r.len() ==> (#[trigger] r[i]).len() == m.lines@[i].coords@.len()
                &&& forall|i: int, j: int|
                    0 <= i < r.len() && 0 <= j < r[i].len() ==> #[trigger] r[i][j] == (
                        m.lines@[i].coords@[j].x,
                        m.lines@[i].coords@[j].y,
                    )
            },
            Wkt::MultiPolygon(m) => {
                &&& flat_shape(wkt) matches Shape::MultiPolygon(r)
                &&& r.len() == m.polygons@.len()
                &&& forall|i: int|
                    0 <= i < r.len() ==> #[trigger] r[i] == flat_polygon(m.polygons@[i])
            },
        },
{
}

/// The rings of a polygon stand in their order, the exterior first. Each begins
/// with its vertices in their order, X before Y, and ends where it begins: for
/// that, and only then, its first vertex is repeated. A polygon without rings has
/// an empty exterior.
pub proof fn law_flat_polygons_keep_their_rings(polygon: Polygon, i: int)
    ensures
        polygon.rings@.len() == 0 ==> flat_polygon(polygon).len() == 1 && flat_polygon(
            polygon,
        )[0].len() == 0,
        polygon.rings@.len() > 0 ==> flat_polygon(polygon).len() == polygon.rings@.len(),
        0 <= i < polygon.rings@.len() ==> {
            let coords = polygon.rings@[i].coords@;
            let ring = flat_polygon(polygon)[i];
            let closed = coords.len() == 0 || (coords[0].x == coords[coords.len() - 1].x
                && coords[0].y == coords[coords.len() - 1].y);
            &&& ring.len() == if closed {
                coords.len()
            } else {
                coords.len() + 1
            }
            &&& forall|j: int|
                0 <= j < coords.len() ==> ring[j] == ((#[trigger] coords[j]).x, coords[j].y)
            &&& coords.len() > 0 ==> ring[ring.len() - 1] == (coords[0].x, coords[0].y)
        },
{
}

/// A vertex of one of several lines is among their vertices.
proof fn lemma_line_vertex(lines: Seq<LineString>, i: int, j: int) -> (k: int)
    requires
        0 <= i < lines.len(),
        0 <= j < lines[i].coords@.len(),
    ensures
        0 <= k < line_coords(lines).len(),
        line_coords(lines)[k] == lines[i].coords@[j],
    decreases lines.len(),
{
    let rest = lines.drop_last();
    if i < rest.len() {
        assert(rest[i] == lines[i]);
        lemma_line_vertex(rest, i, j)
    } else {
        line_coords(rest).len() + j
    }
}

/// A vertex of a ring of one of several polygons is among their vertices.
proof fn lemma_polygon_vertex(polygons: Seq<Polygon>, i: int, j: int, m: int) -> (k: int)
    requires
        0 <= i < polygons.len(),
        0 <= j < polygons[i].rings@.len(),
        0 <= m < polygons[i].rings@[j].coords@.len(),
    ensures
        0 <= k < polygon_coords(polygons).len(),
        polygon_coords(polygons)[k] == polygons[i].rings@[j].coords@[m],
    decreases polygons.len(),
{
    let rest = polygons.drop_last();
    if i < rest.len() {
        assert(rest[i] == polygons[i]);
        lemma_polygon_vertex(rest, i, j, m)
    } else {
        polygon_coords(rest).len() + lemma_line_vertex(polygons[i].rings@, j, m)
    }
}

/// Of several lines of which one rises, a vertex has a Z.
proof fn lemma_risen_line(lines: Seq<LineString>, i: int) -> (k: int)
    requires
        0 <= i < lines.len(),
        line_rises(lines[i]),
    ensures
        0 <= k < line_coords(lines).len(),
        line_coords(lines)[k].z is Some,
{
    let line = lines[i];
    let j = choose|j: int| 0 <= j < line.coords.len() && (#[trigger] line.coords[j]).z is Some;
    lemma_line_vertex(lines, i, j)
}

/// A geometry rises exactly if one of its vertices has a Z.
pub proof fn law_one_z_makes_a_geometry_rise(wkt: Wkt)
    ensures
        rises(wkt) <==> exists|k: int|
            0 <= k < wkt_coords(wkt).len() && (#[trigger] wkt_coords(wkt)[k]).z is Some,
{
    if exists|k: int|
        0 <= k < wkt_coords(wkt).len() && (#[trigger] wkt_coords(wkt)[k]).z is Some {
        let k = choose|k: int|
            0 <= k < wkt_coords(wkt).len() && (#[trigger] wkt_coords(wkt)[k]).z is Some;
        lemma_rises(wkt, k);
    }
    if rises(wkt) {
        let k: int = match wkt {
            Wkt::Point(_) => 0,
            Wkt::LineString(line) => choose|j: int|
                0 <= j < line.coords.len() && (#[trigger] line.coords[j]).z is Some,
            Wkt::Polygon(polygon) => {
                let i = choose|i: int|
                    0 <= i < polygon.rings.len() && line_rises(#[trigger] polygon.rings[i]);
                lemma_risen_line(polygon.rings@, i)
            },
            Wkt::MultiPoint(m) => choose|i: int|
                0 <= i < m.points.len() && (#[trigger] m.points[i]).coord.z is Some,
            Wkt::MultiLineString(m) => {
                let i = choose|i: int| 0 <= i < m.lines.len() && line_rises(#[trigger] m.lines[i]);
                lemma_risen_line(m.lines@, i)
            },
            Wkt::MultiPolygon(m) => {
                let i = choose|i: int|
                    0 <= i < m.polygons.len() && polygon_rises(#[trigger] m.polygons[i]);
                let rings = m.polygons[i].rings;
                let j = choose|j: int| 0 <= j < rings.len() && line_rises(#[trigger] rings[j]);
                let at = choose|n: int|
                    0 <= n < rings[j].coords.len() && (#[trigger] rings[j].coords[n]).z is Some;
                lemma_polygon_vertex(m.polygons@, i, j, at)
            },
        };
        assert(wkt_coords(wkt)[k].z is Some);
    }
}

/// A tile is 3D exactly if a vertex of one of its features has a Z.
pub proof fn law_one_z_makes_a_tile_rise(entries: Seq<TileEntry>)
    ensures
        rising(entries) <==> exists|i: int, k: int|
            0 <= i < entries.len() && 0 <= k < wkt_coords(entries[i].wkt).len() && (
            #[trigger] wkt_coords(entries[i].wkt)[k]).z is Some,
{
    if rising(entries) {
        let i = choose|i: int| 0 <= i < entries.len() && rises((#[trigger] entries[i]).wkt);
        law_one_z_makes_a_geometry_rise(entries[i].wkt);
        let k = choose|k: int|
            0 <= k < wkt_coords(entries[i].wkt).len() && (
            #[trigger] wkt_coords(entries[i].wkt)[k]).z is Some;
        assert(wkt_coords(entries[i].wkt)[k].z is Some);
    }
    assert forall|i: int, k: int|
        0 <= i < entries.len() && 0 <= k < wkt_coords(entries[i].wkt).len() && (
        #[trigger] wkt_coords(entries[i].wkt)[k]).z is Some implies rising(entries) by {
        law_one_z_makes_a_geometry_rise(entries[i].wkt);
        assert(rises(entries[i].wkt));
    }
}

/// A layer has the name, the extent and the columns that it is given, and a row
/// for each feature, in order: with its identifier, its flattened geometry and
/// its values, and null in the columns for which it has none.
pub proof fn law_layers_hold_every_feature(
    name: Seq<char>,
    extent: u32,
    columns: Columns,
    entries: Seq<TileEntry>,
)
    ensures
        ({
            let layer = layer_of(name, extent, columns, entries);
            &&& layer.name == name
            &&& layer.extent == extent
            &&& layer.columns == columns
            &&& layer.rows == rows_of(columns, entries)
            &&& layer.rows.len() == entries.len()
            &&& forall|i: int|
                0 <= i < entries.len() ==> {
                    let row = #[trigger] layer.rows[i];
                    &&& row.id == entries[i].id
                    &&& row.shape == flat_shape(entries[i].wkt)
                    &&& row.values.len() == columns.len()
                    &&& forall|j: int|
                        0 <= j < columns.len() ==> #[trigger] row.values[j] == if j
                            < entries[i].values@.len() {
                            entries[i].values@[j]
                        } else {
                            null_of(columns[j].1)
                        }
                }
        }),
{
}

/// The features of a tile are at fault exactly if the layer has no name or no
/// extent, or else two columns have one name, or else a value is of another kind
/// than its column. An error blames what is at fault.
pub proof fn law_faults_have_their_reasons(
    name: Seq<char>,
    extent: u32,
    columns: Columns,
    entries: Seq<TileEntry>,
    error: EncodeError,
)
    ensures
        ({
            let nameless = name.len() == 0 || extent == 0;
            let twice = exists|i: int, j: int|
                0 <= i < j < columns.len() && (#[trigger] columns[i]).0 == (
                #[trigger] columns[j]).0;
            let unlike = exists|i: int, j: int|
                0 <= i < entries.len() && 0 <= j < entries[i].values@.len() && j < columns.len()
                    && kind_of(#[trigger] entries[i].values@[j]) != columns[j].1;
            let fault = tile_fault(name, extent, columns, entries);
            &&& fault == Some(Fault::Layer) <==> nameless
            &&& fault == Some(Fault::Column) <==> !nameless && twice
            &&& fault == Some(Fault::Value) <==> !nameless && !twice && unlike
            &&& fault is None <==> !nameless && !twice && !unlike
            &&& error.fault() == Some(Fault::Layer) <==> error is Layer
            &&& error.fault() == Some(Fault::Column) <==> error is Column
            &&& error.fault() == Some(Fault::Value) <==> error is Value
        }),
{
    if any_misfit(columns, entries) {
        let i = choose|i: int|
            0 <= i < entries.len() && misfits(columns, (#[trigger] entries[i]).values@);
        let values = entries[i].values@;
        let j = choose|j: int|
            0 <= j < values.len() && j < columns.len() && kind_of(#[trigger] values[j])
                != columns[j].1;
        assert(kind_of(entries[i].values@[j]) != columns[j].1);
    }
    assert forall|i: int, j: int|
        0 <= i < entries.len() && 0 <= j < entries[i].values@.len() && j < columns.len()
            && kind_of(#[trigger] entries[i].values@[j]) != columns[j].1 implies any_misfit(
        columns,
        entries,
    ) by {
        assert(misfits(columns, entries[i].values@));
    }
}

/// What comes out for a tile is what the encoder of its dimension gives: that of
/// 2D layers for the layer of exactly its features, or the caller's, asked under
/// the same name and extent for the same columns and features.
pub proof fn law_bytes_come_from_the_encoder<
    E: Fn(&str, u32, &[(String, PropKind)], &[TileEntry]) -> Result<Vec<u8>, EncodeError>,
>(
    spatial: E,
    name: Seq<char>,
    extent: u32,
    columns: Columns,
    entries: Seq<TileEntry>,
    bytes: Vec<u8>,
)
    requires
        yields(spatial, name, extent, columns, entries, bytes),
    ensures
        !rising(entries) ==> ({
            let layer = layer_of(name, extent, columns, entries);
            encodes(layer, shareable(layer.rows, columns.len()), Some(bytes@))
        }),
        rising(entries) ==> exists|n: &str, schema: &[(String, PropKind)], features: &[TileEntry]|
            #[trigger] spatial.ensures((n, extent, schema, features), Ok(bytes)) && n@ == name
                && columns_of(schema@) == columns && features@ == entries,
{
}

/// What fails has its reason: a 2D layer that is too large, else a fault of the
/// features, else the encoder of the tile's dimension, which gave up on the layer
/// of exactly its features.
pub proof fn law_failures_have_their_reasons<
    E: Fn(&str, u32, &[(String, PropKind)], &[TileEntry]) -> Result<Vec<u8>, EncodeError>,
>(
    spatial: E,
    name: Seq<char>,
    extent: u32,
    columns: Columns,
    entries: Seq<TileEntry>,
    error: EncodeError,
)
    requires
        fails(spatial, name, extent, columns, entries, error),
    ensures
        ({
            let layer = layer_of(name, extent, columns, entries);
            let large = !rising(entries) && !encodable(layer.rows, columns.len());
            let fault = tile_fault(name, extent, columns, entries);
            &&& large ==> error is Oversize
            &&& !large && fault is Some ==> error.fault() == fault
            &&& !large && fault is None && !rising(entries) ==> error is Encode && entries.len() > 0
                && encodes(layer, shareable(layer.rows, columns.len()), None)
            &&& fault is None && rising(entries) ==> exists|
                n: &str,
                schema: &[(String, PropKind)],
                features: &[TileEntry],
            | #[trigger]
                spatial.ensures((n, extent, schema, features), Err(error)) && n@ == name
                    && columns_of(schema@) == columns && features@ == entries
        }),
{
}

/// Encoded tiles are those of the map, each once, with the number of its features
/// and with bytes that its encoder gives. Every tile of the map that has features
/// is there, unless the encoder of 3D layers answered it with no bytes; and none
/// is there unless every tile of the map is sound.
pub proof fn law_every_tile_is_encoded<
    E: Fn(&str, u32, &[(String, PropKind)], &[TileEntry]) -> Result<Vec<u8>, EncodeError>,
>(
    spatial: E,
    name: Seq<char>,
    extent: u32,
    columns: Columns,
    map: Map<Tile, Seq<TileEntry>>,
    out: Vec<EncodedTile>,
)
    requires
        encoding(spatial, name, extent, columns, map, Ok(out)),
    ensures
        forall|i: int|
            0 <= i < out@.len() ==> {
                &&& map.contains_key((#[trigger] out@[i]).tile)
                &&& out@[i].features == map[out@[i].tile].len()
                &&& out@[i].features > 0
                &&& out@[i].bytes@.len() > 0
                &&& yields(spatial, name, extent, columns, map[out@[i].tile], out@[i].bytes)
            },
        forall|i: int, j: int|
            0 <= i < j < out@.len() ==> (#[trigger] out@[i]).tile != (#[trigger] out@[j]).tile,
        forall|tile: Tile| #[trigger]
            map.contains_key(tile) ==> {
                &&& rising(map[tile]) || encodable(rows_of(columns, map[tile]), columns.len())
                &&& tile_fault(name, extent, columns, map[tile]) is None
                &&& map[tile].len() > 0 && !rising(map[tile]) ==> exists|i: int|
                    0 <= i < out@.len() && (#[trigger] out@[i]).tile == tile
                &&& map[tile].len() > 0 && rising(map[tile]) ==> (exists|i: int|
                    0 <= i < out@.len() && (#[trigger] out@[i]).tile == tile) || (exists|
                    bytes: Vec<u8>,
                |
                    bytes@.len() == 0 && #[trigger] yields(
                        spatial,
                        name,
                        extent,
                        columns,
                        map[tile],
                        bytes,
                    ))
            },
{
    assert forall|tile: Tile| #[trigger] map.contains_key(tile) && map[tile].len()
        > 0 implies written(out@, tile) || (rising(map[tile]) && exists|bytes: Vec<u8>|
        bytes@.len() == 0 && #[trigger] yields(
            spatial,
            name,
            extent,
            columns,
            map[tile],
            bytes,
        )) by {
        if !written(out@, tile) {
            let bytes = choose|bytes: Vec<u8>|
                bytes.len() == 0 && #[trigger] outcome(
                    spatial,
                    name,
                    extent,
                    columns,
                    map[tile],
                    Ok::<Vec<u8>, EncodeError>(bytes),
                );
            assert(yields(spatial, name, extent, columns, map[tile], bytes));
        }
    }
}

/// An error is that of a tile of the map.
pub proof fn law_errors_are_those_of_a_tile<
    E: Fn(&str, u32, &[(String, PropKind)], &[TileEntry]) -> Result<Vec<u8>, EncodeError>,
>(
    spatial: E,
    name: Seq<char>,
    extent: u32,
    columns: Columns,
    map: Map<Tile, Seq<TileEntry>>,
    error: EncodeError,
) -> (tile: Tile)
    requires
        encoding(spatial, name, extent, columns, map, Err(error)),
    ensures
        map.contains_key(tile),
        fails(spatial, name, extent, columns, map[tile], error),
{
    choose|tile: Tile| #[trigger]
        map.contains_key(tile) && fails(spatial, name, extent, columns, map[tile], error)
}

/// Lines in a row, flattened, are their vertices in a row, flattened.
proof fn lemma_flat_lines(lines: Seq<LineString>)
    ensures
        lines.map_values(|line: LineString| flat_line(line)).flatten() == line_coords(
            lines,
        ).map_values(|c: Coord| (c.x, c.y)),
    decreases lines.len(),
{
    let of = |line: LineString| flat_line(line);
    if lines.len() > 0 {
        let rest = lines.drop_last();
        lemma_flat_lines(rest);
        assert(lines.map_values(of) == rest.map_values(of).push(flat_line(lines.last())));
        rest.map_values(of).lemma_flatten_push(flat_line(lines.last()));
    }
}

/// The vertices that a layer holds for a geometry without rings are, one for one
/// and in order, the X and the Y of the vertices of the geometry.
pub proof fn law_flat_vertices_follow_the_vertices(wkt: Wkt)
    ensures
        ({
            let vertices = wkt_coords(wkt).map_values(|c: Coord| (c.x, c.y));
            match flat_shape(wkt) {
                Shape::Point(v) => vertices == seq![v],
                Shape::LineString(line) => vertices == line,
                Shape::MultiPoint(points) => vertices == points,
                Shape::MultiLineString(lines) => vertices == lines.flatten(),
                Shape::Polygon(_) => wkt is Polygon,
                Shape::MultiPolygon(_) => wkt is MultiPolygon,
            }
        }),
{
    let vertices = wkt_coords(wkt).map_values(|c: Coord| (c.x, c.y));
    match wkt {
        Wkt::Point(p) => {
            assert(vertices == seq![(p.coord.x, p.coord.y)]);
        },
        Wkt::LineString(line) => {
            assert(vertices == flat_line(line));
        },
        Wkt::MultiPoint(m) => {
            assert(vertices == m.points@.map_values(|p: Point| flat_coord(p.coord)));
        },
        Wkt::MultiLineString(m) => lemma_flat_lines(m.lines@),
        _ => {},
    }
}

} // verus!
