//! The row-oriented MLT layer that `mlt_core` builds and encodes.
//!
//! A [`Layer`] is what a builder, or the layer it finishes, holds: a name, an
//! extent, the property columns in order and one [`Row`] per feature. The
//! contracts of the foreign functions say what each does to it.

use mlt_core::encoder::EncoderConfig;
use mlt_core::geo_types::{Geometry, Polygon};
use mlt_core::{
    MltError, PropKind, PropValue, PropertyKey, TileFeatureBuilder, TileLayer, TileLayerBuilder,
};
use vstd::prelude::*;
use vstd::utf8::encode_utf8;

verus! {

/// The kind of a property column.
#[verifier::external_type_specification]
pub struct ExPropKind(mlt_core::PropKind);

/// A property value of one of the kinds of column, or that kind's null.
#[verifier::external_type_specification]
pub struct ExPropValue(mlt_core::PropValue);

/// Which column of a layer a value is for, see [`key_index`].
#[verifier::external_type_specification]
#[verifier::external_body]
pub struct ExPropertyKey(mlt_core::PropertyKey);

/// A layer under construction, see [`builder_layer`].
#[verifier::external_type_specification]
#[verifier::external_body]
pub struct ExTileLayerBuilder(mlt_core::TileLayerBuilder);

/// A feature under construction, which borrows its layer: see [`draft_row`],
/// [`draft_base`] and [`draft_outcome`].
#[verifier::external_type_specification]
#[verifier::external_body]
pub struct ExTileFeatureBuilder<'a>(mlt_core::TileFeatureBuilder<'a>);

/// A finished layer, see [`tile_layer`].
#[verifier::external_type_specification]
#[verifier::external_body]
pub struct ExTileLayer(mlt_core::TileLayer);

/// Why a layer cannot be built or encoded.
#[verifier::external_type_specification]
#[verifier::external_body]
pub struct ExMltError(mlt_core::MltError);

/// A vertex of a tile-local geometry.
pub type Vertex = (i32, i32);

/// A flat (2D) geometry, as plain values. A polygon is its exterior ring and
/// its interior rings.
pub enum Flat {
    Point(Vertex),
    LineString(Vec<Vertex>),
    Polygon(Vec<Vertex>, Vec<Vec<Vertex>>),
    MultiPoint(Vec<Vertex>),
    MultiLineString(Vec<Vec<Vertex>>),
    MultiPolygon(Vec<(Vec<Vertex>, Vec<Vec<Vertex>>)>),
}

/// The geometry of a row. A polygon is the sequence of its rings, the exterior
/// first.
#[verifier::ext_equal]
pub enum Shape {
    Point(Vertex),
    LineString(Seq<Vertex>),
    Polygon(Seq<Seq<Vertex>>),
    MultiPoint(Seq<Vertex>),
    MultiLineString(Seq<Seq<Vertex>>),
    MultiPolygon(Seq<Seq<Seq<Vertex>>>),
}

/// One feature of a layer.
#[verifier::ext_equal]
pub struct Row {
    pub id: Option<u64>,
    pub shape: Shape,
    pub values: Seq<PropValue>,
}

/// What a layer holds.
#[verifier::ext_equal]
pub struct Layer {
    pub name: Seq<char>,
    pub extent: u32,
    pub columns: Seq<(Seq<char>, PropKind)>,
    pub rows: Seq<Row>,
}

/// `ring` with its first vertex repeated at the end, unless it ends there
/// already.
pub open spec fn closed_ring(ring: Seq<Vertex>) -> Seq<Vertex> {
    if ring.len() == 0 || ring.first() == ring.last() {
        ring
    } else {
        ring.push(ring.first())
    }
}

/// The rings of a polygon, each closed.
pub open spec fn closed_rings(exterior: Vec<Vertex>, interiors: Vec<Vec<Vertex>>) -> Seq<
    Seq<Vertex>,
> {
    seq![closed_ring(exterior@)] + interiors@.map_values(|r: Vec<Vertex>| closed_ring(r@))
}

impl Flat {
    /// The geometry that a layer holds for `self`: the rings are closed.
    pub open spec fn shape(self) -> Shape {
        match self {
            Flat::Point(v) => Shape::Point(v),
            Flat::LineString(line) => Shape::LineString(line@),
            Flat::Polygon(exterior, interiors) => Shape::Polygon(closed_rings(exterior, interiors)),
            Flat::MultiPoint(points) => Shape::MultiPoint(points@),
            Flat::MultiLineString(lines) => Shape::MultiLineString(
                lines@.map_values(|l: Vec<Vertex>| l@),
            ),
            Flat::MultiPolygon(polygons) => Shape::MultiPolygon(
                polygons@.map_values(|p: (Vec<Vertex>, Vec<Vec<Vertex>>)| closed_rings(p.0, p.1)),
            ),
        }
    }
}

/// The kind of column that a value is for.
pub open spec fn kind_of(value: PropValue) -> PropKind {
    match value {
        PropValue::Bool(_) => PropKind::Bool,
        PropValue::I8(_) => PropKind::I8,
        PropValue::U8(_) => PropKind::U8,
        PropValue::I32(_) => PropKind::I32,
        PropValue::U32(_) => PropKind::U32,
        PropValue::I64(_) => PropKind::I64,
        PropValue::U64(_) => PropKind::U64,
        PropValue::F32(_) => PropKind::F32,
        PropValue::F64(_) => PropKind::F64,
        PropValue::Str(_) => PropKind::Str,
    }
}

/// The null of a kind of column.
pub open spec fn null_of(kind: PropKind) -> PropValue {
    match kind {
        PropKind::Bool => PropValue::Bool(None),
        PropKind::I8 => PropValue::I8(None),
        PropKind::U8 => PropValue::U8(None),
        PropKind::I32 => PropValue::I32(None),
        PropKind::U32 => PropValue::U32(None),
        PropKind::I64 => PropValue::I64(None),
        PropKind::U64 => PropValue::U64(None),
        PropKind::F32 => PropValue::F32(None),
        PropKind::F64 => PropValue::F64(None),
        PropKind::Str => PropValue::Str(None),
    }
}

/// Whether one of `columns` is called `name`.
pub open spec fn has_column(columns: Seq<(Seq<char>, PropKind)>, name: Seq<char>) -> bool {
    exists|i: int| 0 <= i < columns.len() && (#[trigger] columns[i]).0 == name
}

/// Whether there is one value per column, of the column's kind.
pub open spec fn row_fits(values: Seq<PropValue>, columns: Seq<(Seq<char>, PropKind)>) -> bool {
    &&& values.len() == columns.len()
    &&& forall|i: int| 0 <= i < values.len() ==> kind_of(#[trigger] values[i]) == columns[i].1
}

/// The sum of `parts`.
pub open spec fn sum(parts: Seq<nat>) -> nat
    decreases parts.len(),
{
    if parts.len() == 0 {
        0
    } else {
        sum(parts.drop_last()) + parts.last()
    }
}

/// How many vertices several lines have.
pub open spec fn line_vertices(lines: Seq<Seq<Vertex>>) -> nat {
    sum(lines.map_values(|line: Seq<Vertex>| line.len()))
}

/// How many vertices a ring has, one that repeats the first at the end left out.
pub open spec fn ring_length(ring: Seq<Vertex>) -> nat {
    if ring.len() > 1 && ring.first() == ring.last() {
        (ring.len() - 1) as nat
    } else {
        ring.len()
    }
}

/// How many vertices the rings of a polygon have.
pub open spec fn ring_vertices(rings: Seq<Seq<Vertex>>) -> nat {
    sum(rings.map_values(|ring: Seq<Vertex>| ring_length(ring)))
}

/// How many vertices a geometry has.
pub open spec fn shape_vertices(shape: Shape) -> nat {
    match shape {
        Shape::Point(_) => 1,
        Shape::LineString(line) => line.len(),
        Shape::Polygon(rings) => ring_vertices(rings),
        Shape::MultiPoint(points) => points.len(),
        Shape::MultiLineString(lines) => line_vertices(lines),
        Shape::MultiPolygon(polygons) => sum(
            polygons.map_values(|rings: Seq<Seq<Vertex>>| ring_vertices(rings)),
        ),
    }
}

/// How many lines and rings a geometry has.
pub open spec fn shape_lines(shape: Shape) -> nat {
    match shape {
        Shape::Point(_) | Shape::MultiPoint(_) => 0,
        Shape::LineString(_) => 1,
        Shape::Polygon(rings) => rings.len(),
        Shape::MultiLineString(lines) => lines.len(),
        Shape::MultiPolygon(polygons) => sum(
            polygons.map_values(|rings: Seq<Seq<Vertex>>| rings.len()),
        ),
    }
}

/// How many points, lines or polygons a geometry is made of.
pub open spec fn shape_members(shape: Shape) -> nat {
    match shape {
        Shape::Point(_) | Shape::LineString(_) | Shape::Polygon(_) => 1,
        Shape::MultiPoint(points) => points.len(),
        Shape::MultiLineString(lines) => lines.len(),
        Shape::MultiPolygon(polygons) => polygons.len(),
    }
}

/// The text that a value holds: an empty one where it holds none.
pub open spec fn text_in(value: PropValue) -> Seq<char> {
    match value {
        PropValue::Str(Some(text)) => text@,
        _ => seq![],
    }
}

/// The texts of a column, row by row.
pub open spec fn column_texts(rows: Seq<Row>, column: int) -> Seq<Seq<char>> {
    rows.map_values(|row: Row| text_in(row.values[column]))
}

/// The texts of the columns from `from` to before `to`, column by column.
pub open spec fn texts_between(rows: Seq<Row>, from: int, to: int) -> Seq<Seq<char>>
    decreases to - from,
{
    if to <= from {
        seq![]
    } else {
        texts_between(rows, from, to - 1) + column_texts(rows, to - 1)
    }
}

/// How many bytes several texts have.
pub open spec fn bytes_of(texts: Seq<Seq<char>>) -> nat {
    sum(texts.map_values(|text: Seq<char>| encode_utf8(text).len()))
}

/// How many bytes several texts have, where equal ones count once.
pub open spec fn distinct_bytes(texts: Seq<Seq<char>>) -> nat
    decreases texts.len(),
{
    if texts.len() == 0 {
        0
    } else {
        let before = texts.drop_last();
        distinct_bytes(before) + if before.contains(texts.last()) {
            0
        } else {
            encode_utf8(texts.last()).len()
        }
    }
}

/// How many bytes of text stand in more than one of the first `width` columns,
/// counted once for each column but one.
pub open spec fn repeated_bytes(rows: Seq<Row>, width: nat) -> int {
    let each = Seq::new(width, |column: int| distinct_bytes(column_texts(rows, column)));
    sum(each) - distinct_bytes(texts_between(rows, 0, width as int))
}

/// Whether every dictionary that several of the first `width` columns may share
/// can be counted. The encoder counts the bytes of its texts, equal ones once, in
/// an `i32`. One of more than 100,000 bytes it makes only where a twentieth of
/// the bytes of its columns are repeated ones.
pub open spec fn shareable(rows: Seq<Row>, width: nat) -> bool {
    ||| distinct_bytes(texts_between(rows, 0, width as int)) <= i32::MAX
    ||| 20 * repeated_bytes(rows, width) < i32::MAX
}

/// The first vertex of a geometry, where its first part has one.
pub open spec fn first_vertex(shape: Shape) -> Option<Vertex> {
    match shape {
        Shape::Point(v) => Some(v),
        Shape::LineString(line) => head(line),
        Shape::Polygon(rings) => head(rings[0]),
        Shape::MultiPoint(points) => head(points),
        Shape::MultiLineString(lines) => if lines.len() == 0 {
            None
        } else {
            head(lines[0])
        },
        Shape::MultiPolygon(polygons) => if polygons.len() == 0 {
            None
        } else {
            head(polygons[0][0])
        },
    }
}

/// The first of `vertices`, where there is one.
pub open spec fn head(vertices: Seq<Vertex>) -> Option<Vertex> {
    if vertices.len() == 0 {
        None
    } else {
        Some(vertices[0])
    }
}

/// Whether no two first vertices are further apart, on either axis, than an
/// `i32` can tell.
pub open spec fn narrow(firsts: Seq<Option<Vertex>>) -> bool {
    forall|i: int, j: int|
        0 <= i < firsts.len() && 0 <= j < firsts.len() ==> #[trigger] near(firsts[i], firsts[j])
}

/// Whether `a` is no more than `i32::MAX` to the right of, or below, `b`.
pub open spec fn near(a: Option<Vertex>, b: Option<Vertex>) -> bool {
    a matches Some(v) ==> b matches Some(w) ==> v.0 - w.0 <= i32::MAX && v.1 - w.1 <= i32::MAX
}

/// Whether the encoder's arithmetic on a layer of `width` columns stays in range,
/// dictionaries that columns share left aside. It counts vertices, lines and
/// members each in a `u32`, and the bytes of a text column in an `i32`. From 512
/// features on it measures, in an `i32`, how far apart the first vertices lie.
pub open spec fn encodable(rows: Seq<Row>, width: nat) -> bool {
    &&& sum(rows.map_values(|r: Row| shape_vertices(r.shape))) <= u32::MAX
    &&& sum(rows.map_values(|r: Row| shape_lines(r.shape))) <= u32::MAX
    &&& sum(rows.map_values(|r: Row| shape_members(r.shape))) <= u32::MAX
    &&& forall|column: int|
        0 <= column < width ==> bytes_of(#[trigger] column_texts(rows, column)) <= i32::MAX
    &&& rows.len() < 512 || narrow(rows.map_values(|r: Row| first_vertex(r.shape)))
}

/// The column that a key is for.
pub uninterp spec fn key_index(key: PropertyKey) -> int;

/// What a layer under construction holds.
pub uninterp spec fn builder_layer(builder: TileLayerBuilder) -> Layer;

/// What a finished layer holds.
pub uninterp spec fn tile_layer(layer: TileLayer) -> Layer;

/// The feature under construction.
pub uninterp spec fn draft_row(draft: TileFeatureBuilder<'_>) -> Row;

/// What the borrowed layer held when the feature was begun.
pub uninterp spec fn draft_base(draft: TileFeatureBuilder<'_>) -> Layer;

/// What the borrowed layer holds once the borrow has ended.
pub uninterp spec fn draft_outcome(draft: TileFeatureBuilder<'_>) -> Layer;

/// Whether the encoder, given a layer, can come to this outcome: bytes, or `None`
/// where it gives up. `sharing` says whether columns may share a dictionary, as
/// they may by default. Which outcome it comes to rests on estimates made in
/// floating point.
pub uninterp spec fn encodes(layer: Layer, sharing: bool, outcome: Option<Seq<u8>>) -> bool;

/// `mlt_core::PropValue::null` gives the null of a kind.
pub assume_specification[ mlt_core::PropValue::null ](kind: PropKind) -> (value: PropValue)
    ensures
        value == null_of(kind),
;

/// `mlt_core::TileLayer::builder` begins a layer without columns and features.
/// It fails on an empty name and on an extent of zero.
#[verifier::external_body]
pub(crate) fn layer_builder(name: &str, extent: u32) -> (r: Result<TileLayerBuilder, MltError>)
    ensures
        r is Ok <==> (name@.len() > 0 && extent > 0),
        r matches Ok(builder) ==> builder_layer(builder) == (Layer {
            name: name@,
            extent,
            columns: seq![],
            rows: seq![],
        }),
{
    TileLayer::builder(name, extent)
}

/// `mlt_core::TileLayerBuilder::add_property` appends a column. It fails on a
/// name that a column has already. What it does to the features that a layer
/// has already is left unsaid.
#[verifier::external_body]
pub(crate) fn add_property(
    builder: &mut TileLayerBuilder,
    name: &str,
    kind: PropKind,
) -> (r: Result<PropertyKey, MltError>)
    ensures
        r is Ok <==> !has_column(builder_layer(*old(builder)).columns, name@),
        r is Err ==> builder_layer(*final(builder)) == builder_layer(*old(builder)),
        r matches Ok(key) ==> key_index(key) == builder_layer(*old(builder)).columns.len(),
        r is Ok && builder_layer(*old(builder)).rows.len() == 0 ==> builder_layer(*final(builder))
            == (Layer {
            columns: builder_layer(*old(builder)).columns.push((name@, kind)),
            ..builder_layer(*old(builder))
        }),
{
    builder.add_property(name, kind)
}

/// `mlt_core::TileLayerBuilder::feature` begins a feature without identifier
/// whose values are all null. `geo_types` closes the rings of a polygon.
#[verifier::external_body]
pub(crate) fn begin_feature<'a>(builder: &'a mut TileLayerBuilder, flat: Flat) -> (draft:
    TileFeatureBuilder<'a>)
    ensures
        draft_base(draft) == builder_layer(*old(builder)),
        draft_outcome(draft) == builder_layer(*final(builder)),
        draft_row(draft) == (Row {
            id: None,
            shape: flat.shape(),
            values: builder_layer(*old(builder)).columns.map_values(
                |c: (Seq<char>, PropKind)| null_of(c.1),
            ),
        }),
{
    builder.feature(match flat {
        Flat::Point(v) => Geometry::Point(v.into()),
        Flat::LineString(l) => Geometry::LineString(l.into()),
        Flat::Polygon(e, i) => {
            Geometry::Polygon(Polygon::new(e.into(), i.into_iter().map(Into::into).collect()))
        },
        Flat::MultiPoint(p) => Geometry::MultiPoint(p.into()),
        Flat::MultiLineString(l) => Geometry::MultiLineString(l.into_iter().collect()),
        Flat::MultiPolygon(p) => Geometry::MultiPolygon(
            p.into_iter().map(
                |(e, i)| Polygon::new(e.into(), i.into_iter().map(Into::into).collect()),
            ).collect(),
        ),
    })
}

/// `mlt_core::TileFeatureBuilder::id` sets the identifier of a feature.
#[verifier::external_body]
pub(crate) fn set_id(draft: &mut TileFeatureBuilder<'_>, id: Option<u64>)
    ensures
        draft_base(*final(draft)) == draft_base(*old(draft)),
        draft_outcome(*final(draft)) == draft_outcome(*old(draft)),
        draft_row(*final(draft)) == (Row { id, ..draft_row(*old(draft)) }),
{
    draft.id(id);
}

/// `mlt_core::TileFeatureBuilder::property` sets the value of one column. It
/// fails where there is no such column and where the value is of another kind
/// than the one that stands there.
#[verifier::external_body]
pub(crate) fn set_property(
    draft: &mut TileFeatureBuilder<'_>,
    key: PropertyKey,
    value: &PropValue,
) -> (r: Result<(), MltError>)
    ensures
        r is Ok <==> (0 <= key_index(key) < draft_row(*old(draft)).values.len() && kind_of(*value)
            == kind_of(draft_row(*old(draft)).values[key_index(key)])),
        draft_base(*final(draft)) == draft_base(*old(draft)),
        draft_outcome(*final(draft)) == draft_outcome(*old(draft)),
        r is Err ==> draft_row(*final(draft)) == draft_row(*old(draft)),
        r is Ok ==> draft_row(*final(draft)) == (Row {
            values: draft_row(*old(draft)).values.update(key_index(key), *value),
            ..draft_row(*old(draft))
        }),
{
    draft.property(key, value.clone()).map(|_| ())
}

/// `mlt_core::TileFeatureBuilder::finish` appends the feature to its layer. It
/// fails where the values do not fit the columns.
#[verifier::external_body]
pub(crate) fn finish_feature(draft: TileFeatureBuilder<'_>) -> (r: Result<(), MltError>)
    ensures
        r is Ok <==> row_fits(draft_row(draft).values, draft_base(draft).columns),
        r is Ok ==> draft_outcome(draft) == (Layer {
            rows: draft_base(draft).rows.push(draft_row(draft)),
            ..draft_base(draft)
        }),
        r is Err ==> draft_outcome(draft) == draft_base(draft),
{
    draft.finish()
}

/// `mlt_core::TileLayerBuilder::finish` hands the layer out.
#[verifier::external_body]
pub(crate) fn finish_layer(builder: TileLayerBuilder) -> (layer: TileLayer)
    ensures
        tile_layer(layer) == builder_layer(builder),
{
    builder.finish()
}

/// `mlt_core::TileLayer::encode` with the default configuration, but that columns
/// share a dictionary only if `sharing`. A layer without features becomes no
/// bytes, any other a record of at least a length and a tag. It can fail on a
/// layer that is too large for the format.
#[verifier::external_body]
pub(crate) fn encode_layer(layer: TileLayer, sharing: bool) -> (r: Result<Vec<u8>, MltError>)
    requires
        encodable(tile_layer(layer).rows, tile_layer(layer).columns.len()),
        sharing ==> shareable(tile_layer(layer).rows, tile_layer(layer).columns.len()),
    ensures
        r matches Ok(bytes) ==> encodes(tile_layer(layer), sharing, Some(bytes@)),
        r is Err ==> encodes(tile_layer(layer), sharing, None),
        r matches Ok(bytes) ==> (bytes.len() == 0 <==> tile_layer(layer).rows.len() == 0),
        tile_layer(layer).name.len() > 0 && tile_layer(layer).rows.len() == 0 ==> r is Ok,
{
    layer.encode(EncoderConfig::default().with_shared_dict(sharing))
}

/// A flat geometry becomes, in a layer, the geometry of its kind with the same
/// vertices in the same order. Rings are closed: each ring begins with the
/// vertices that it was given, and ends where it begins.
pub proof fn law_layers_keep_the_vertices(
    v: Vertex,
    line: Vec<Vertex>,
    lines: Vec<Vec<Vertex>>,
    polygons: Vec<(Vec<Vertex>, Vec<Vec<Vertex>>)>,
)
    ensures
        Flat::Point(v).shape() == Shape::Point(v),
        Flat::LineString(line).shape() == Shape::LineString(line@),
        Flat::MultiPoint(line).shape() == Shape::MultiPoint(line@),
        Flat::MultiLineString(lines).shape() matches Shape::MultiLineString(r) && r.len()
            == lines.len() && forall|i: int| 0 <= i < r.len() ==> #[trigger] r[i] == lines[i]@,
        Flat::Polygon(line, lines).shape() matches Shape::Polygon(r) && r == closed_rings(
            line,
            lines,
        ),
        closed_rings(line, lines).len() == lines.len() + 1,
        closed_rings(line, lines)[0] == closed_ring(line@),
        forall|i: int|
            0 <= i < lines.len() ==> closed_rings(line, lines)[i + 1] == closed_ring(
                (#[trigger] lines[i])@,
            ),
        Flat::MultiPolygon(polygons).shape() matches Shape::MultiPolygon(r) && r.len()
            == polygons.len() && forall|i: int|
            0 <= i < r.len() ==> #[trigger] r[i] == closed_rings(polygons[i].0, polygons[i].1),
{
}

/// Closing a ring keeps its vertices in order, adds one at most, and that only
/// to end where the ring begins.
pub proof fn law_rings_end_where_they_begin(ring: Seq<Vertex>)
    ensures
        ring.len() == 0 <==> closed_ring(ring).len() == 0,
        ring.len() > 0 ==> closed_ring(ring)[closed_ring(ring).len() - 1] == closed_ring(ring)[0],
        forall|i: int| 0 <= i < ring.len() ==> closed_ring(ring)[i] == #[trigger] ring[i],
        ring.len() <= closed_ring(ring).len() <= ring.len() + 1,
        closed_ring(closed_ring(ring)) == closed_ring(ring),
        ring.len() > 0 && ring[0] == ring[ring.len() - 1] ==> closed_ring(ring).len() == ring.len(),
{
}

/// Each kind of column has one null, which is of that kind and holds nothing, and
/// the kind of a value is that of its constructor.
pub proof fn law_kinds_of_values(kind: PropKind, value: PropValue)
    ensures
        kind_of(null_of(kind)) == kind,
        null_of(kind) matches PropValue::Bool(v) ==> v is None,
        null_of(kind) matches PropValue::I8(v) ==> v is None,
        null_of(kind) matches PropValue::U8(v) ==> v is None,
        null_of(kind) matches PropValue::I32(v) ==> v is None,
        null_of(kind) matches PropValue::U32(v) ==> v is None,
        null_of(kind) matches PropValue::I64(v) ==> v is None,
        null_of(kind) matches PropValue::U64(v) ==> v is None,
        null_of(kind) matches PropValue::F32(v) ==> v is None,
        null_of(kind) matches PropValue::F64(v) ==> v is None,
        null_of(kind) matches PropValue::Str(v) ==> v is None,
        value is Bool <==> kind_of(value) is Bool,
        value is I8 <==> kind_of(value) is I8,
        value is U8 <==> kind_of(value) is U8,
        value is I32 <==> kind_of(value) is I32,
        value is U32 <==> kind_of(value) is U32,
        value is I64 <==> kind_of(value) is I64,
        value is U64 <==> kind_of(value) is U64,
        value is F32 <==> kind_of(value) is F32,
        value is F64 <==> kind_of(value) is F64,
        value is Str <==> kind_of(value) is Str,
{
}

/// A sum takes each part once.
pub proof fn law_sums_take_every_part(parts: Seq<nat>)
    ensures
        sum(parts) == parts.fold_left(0, |total: nat, part: nat| total + part),
    decreases parts.len(),
{
    if parts.len() > 0 {
        law_sums_take_every_part(parts.drop_last());
    }
}

/// The vertices of rings come ring by ring.
proof fn lemma_ring_vertices_push(rings: Seq<Seq<Vertex>>, ring: Seq<Vertex>)
    ensures
        ring_vertices(rings.push(ring)) == ring_vertices(rings) + ring_length(ring),
{
    let of = |ring: Seq<Vertex>| ring_length(ring);
    let all = rings.push(ring).map_values(of);
    assert(all.drop_last() == rings.map_values(of));
}

/// A ring has as many vertices as it was given, and one less if it repeats its
/// first vertex at the end. Rings have as many as each of them has.
pub proof fn law_rings_are_counted_open(
    rings: Seq<Seq<Vertex>>,
    more: Seq<Seq<Vertex>>,
    ring: Seq<Vertex>,
)
    ensures
        ring.len() > 1 && ring[0] == ring[ring.len() - 1] ==> ring_length(ring) == ring.len() - 1,
        ring.len() > 1 && ring[0] != ring[ring.len() - 1] ==> ring_length(ring) == ring.len(),
        ring.len() <= 1 ==> ring_length(ring) == ring.len(),
        ring.len() > 1 && ring[0] != ring[ring.len() - 1] ==> ring_length(closed_ring(ring))
            == ring.len(),
        ring_vertices(seq![]) == 0,
        ring_vertices(seq![ring]) == ring_length(ring),
        ring_vertices(rings + more) == ring_vertices(rings) + ring_vertices(more),
    decreases more.len(),
{
    assert(seq![ring] == Seq::<Seq<Vertex>>::empty().push(ring));
    lemma_ring_vertices_push(seq![], ring);
    if more.len() > 0 {
        let rest = more.drop_last();
        law_rings_are_counted_open(rings, rest, ring);
        assert(rest.push(more.last()) == more);
        assert((rings + rest).push(more.last()) == rings + more);
        lemma_ring_vertices_push(rest, more.last());
        lemma_ring_vertices_push(rings + rest, more.last());
    } else {
        assert(rings + more == rings);
    }
}

/// The vertices of lines are those of all of them in a row.
proof fn lemma_line_vertices(lines: Seq<Seq<Vertex>>)
    ensures
        line_vertices(lines) == lines.flatten().len(),
    decreases lines.len(),
{
    let of = |line: Seq<Vertex>| line.len();
    if lines.len() > 0 {
        let rest = lines.drop_last();
        lemma_line_vertices(rest);
        assert(rest.push(lines.last()) == lines);
        rest.lemma_flatten_push(lines.last());
        assert(lines.map_values(of).drop_last() == rest.map_values(of));
    }
}

/// The rings of polygons, and their vertices, are those of all of them in a row.
proof fn lemma_polygon_parts(polygons: Seq<Seq<Seq<Vertex>>>)
    ensures
        sum(polygons.map_values(|rings: Seq<Seq<Vertex>>| ring_vertices(rings))) == ring_vertices(
            polygons.flatten(),
        ),
        sum(polygons.map_values(|rings: Seq<Seq<Vertex>>| rings.len())) == polygons.flatten().len(),
    decreases polygons.len(),
{
    let vertices = |rings: Seq<Seq<Vertex>>| ring_vertices(rings);
    let count = |rings: Seq<Seq<Vertex>>| rings.len();
    if polygons.len() > 0 {
        let rest = polygons.drop_last();
        lemma_polygon_parts(rest);
        assert(rest.push(polygons.last()) == polygons);
        rest.lemma_flatten_push(polygons.last());
        assert(polygons.map_values(vertices).drop_last() == rest.map_values(vertices));
        assert(polygons.map_values(count).drop_last() == rest.map_values(count));
        law_rings_are_counted_open(rest.flatten(), polygons.last(), seq![]);
    }
}

/// A geometry is counted by its vertices, by its lines and rings, and by its
/// points, lines or polygons.
pub proof fn law_geometries_are_counted_by_their_parts(shape: Shape)
    ensures
        match shape {
            Shape::Point(_) => shape_vertices(shape) == 1 && shape_lines(shape) == 0
                && shape_members(shape) == 1,
            Shape::LineString(line) => shape_vertices(shape) == line.len() && shape_lines(shape)
                == 1 && shape_members(shape) == 1,
            Shape::Polygon(rings) => shape_vertices(shape) == ring_vertices(rings) && shape_lines(
                shape,
            ) == rings.len() && shape_members(shape) == 1,
            Shape::MultiPoint(points) => shape_vertices(shape) == points.len() && shape_lines(shape)
                == 0 && shape_members(shape) == points.len(),
            Shape::MultiLineString(lines) => shape_vertices(shape) == lines.flatten().len()
                && shape_lines(shape) == lines.len() && shape_members(shape) == lines.len(),
            Shape::MultiPolygon(polygons) => shape_vertices(shape) == ring_vertices(
                polygons.flatten(),
            ) && shape_lines(shape) == polygons.flatten().len() && shape_members(shape)
                == polygons.len(),
        },
{
    match shape {
        Shape::MultiLineString(lines) => lemma_line_vertices(lines),
        Shape::MultiPolygon(polygons) => lemma_polygon_parts(polygons),
        _ => {},
    }
}

/// The texts of columns are those of all of them in a row.
proof fn lemma_texts_between(rows: Seq<Row>, from: int, count: nat)
    ensures
        texts_between(rows, from, from + count) == Seq::new(
            count,
            |i: int| column_texts(rows, from + i),
        ).flatten(),
    decreases count,
{
    let of = |i: int| column_texts(rows, from + i);
    if count > 0 {
        let less = (count - 1) as nat;
        lemma_texts_between(rows, from, less);
        assert(Seq::new(count, of) == Seq::new(less, of).push(of(less as int)));
        Seq::new(less, of).lemma_flatten_push(of(less as int));
    }
}

/// A column has a text for each row: that of a text value, and else an empty one.
/// Columns have the texts of each of them in a row.
pub proof fn law_columns_have_a_text_for_each_row(rows: Seq<Row>, column: int, count: nat)
    ensures
        column_texts(rows, column).len() == rows.len(),
        forall|i: int|
            0 <= i < rows.len() ==> match rows[i].values[column] {
                PropValue::Str(Some(text)) => #[trigger] column_texts(rows, column)[i] == text@,
                _ => column_texts(rows, column)[i].len() == 0,
            },
        texts_between(rows, column, column + count) == Seq::new(
            count,
            |i: int| column_texts(rows, column + i),
        ).flatten(),
{
    lemma_texts_between(rows, column, count);
}

/// Texts have the bytes of each of them. Where equal ones count once, a text that
/// is there already adds nothing, and any other its bytes.
pub proof fn law_texts_are_counted_in_bytes(texts: Seq<Seq<char>>, text: Seq<char>)
    ensures
        bytes_of(seq![]) == 0,
        bytes_of(texts.push(text)) == bytes_of(texts) + encode_utf8(text).len(),
        distinct_bytes(seq![]) == 0,
        texts.contains(text) ==> distinct_bytes(texts.push(text)) == distinct_bytes(texts),
        !texts.contains(text) ==> distinct_bytes(texts.push(text)) == distinct_bytes(texts)
            + encode_utf8(text).len(),
{
    let of = |text: Seq<char>| encode_utf8(text).len();
    assert(texts.push(text).map_values(of).drop_last() == texts.map_values(of));
    assert(texts.push(text).drop_last() == texts);
}

/// The first vertex of a geometry is that of its first part.
pub proof fn law_first_vertices_come_first(shape: Shape)
    ensures
        match shape {
            Shape::Point(v) => first_vertex(shape) == Some(v),
            Shape::LineString(line) => first_vertex(shape) == if line.len() == 0 {
                None
            } else {
                Some(line[0])
            },
            Shape::MultiPoint(points) => first_vertex(shape) == if points.len() == 0 {
                None
            } else {
                Some(points[0])
            },
            Shape::Polygon(rings) => first_vertex(shape) == if rings[0].len() == 0 {
                None
            } else {
                Some(rings[0][0])
            },
            Shape::MultiLineString(lines) => first_vertex(shape) == if lines.len() == 0
                || lines[0].len() == 0 {
                None
            } else {
                Some(lines[0][0])
            },
            Shape::MultiPolygon(polygons) => first_vertex(shape) == if polygons.len() == 0
                || polygons[0][0].len() == 0 {
                None
            } else {
                Some(polygons[0][0][0])
            },
        },
{
}

/// A layer can be encoded exactly if its vertices, its lines and its members each
/// fit in 32 bits, the bytes of each column fit in 31, and, where there are 512
/// features or more, so does the distance of any two first vertices on each axis.
pub proof fn law_layers_that_can_be_encoded(rows: Seq<Row>, width: nat)
    ensures
        encodable(rows, width) <==> {
            &&& sum(rows.map_values(|r: Row| shape_vertices(r.shape))) <= 0xffff_ffff
            &&& sum(rows.map_values(|r: Row| shape_lines(r.shape))) <= 0xffff_ffff
            &&& sum(rows.map_values(|r: Row| shape_members(r.shape))) <= 0xffff_ffff
            &&& forall|column: int|
                0 <= column < width ==> bytes_of(#[trigger] column_texts(rows, column))
                    <= 0x7fff_ffff
            &&& rows.len() >= 512 ==> forall|i: int, j: int|
                0 <= i < rows.len() && 0 <= j < rows.len() && (#[trigger] first_vertex(
                    rows[i].shape,
                )) is Some && (#[trigger] first_vertex(rows[j].shape)) is Some ==> {
                    let (a, b) = (first_vertex(rows[i].shape)->0, first_vertex(rows[j].shape)->0);
                    a.0 - b.0 <= 0x7fff_ffff && a.1 - b.1 <= 0x7fff_ffff
                }
        },
{
    let firsts = rows.map_values(|r: Row| first_vertex(r.shape));
    let within = |i: int, j: int|
        {
            let (a, b) = (first_vertex(rows[i].shape)->0, first_vertex(rows[j].shape)->0);
            a.0 - b.0 <= 0x7fff_ffff && a.1 - b.1 <= 0x7fff_ffff
        };
    if narrow(firsts) {
        assert forall|i: int, j: int|
            0 <= i < rows.len() && 0 <= j < rows.len() && (#[trigger] first_vertex(
                rows[i].shape,
            )) is Some && (#[trigger] first_vertex(rows[j].shape)) is Some implies within(
            i,
            j,
        ) by {
            assert(near(firsts[i], firsts[j]));
        }
    }
    if forall|i: int, j: int|
        0 <= i < rows.len() && 0 <= j < rows.len() && (#[trigger] first_vertex(
            rows[i].shape,
        )) is Some && (#[trigger] first_vertex(rows[j].shape)) is Some ==> {
            let (a, b) = (first_vertex(rows[i].shape)->0, first_vertex(rows[j].shape)->0);
            a.0 - b.0 <= 0x7fff_ffff && a.1 - b.1 <= 0x7fff_ffff
        } {
        assert forall|i: int, j: int|
            0 <= i < firsts.len() && 0 <= j < firsts.len() implies #[trigger] near(
            firsts[i],
            firsts[j],
        ) by {
            assert(firsts[i] == first_vertex(rows[i].shape));
            assert(firsts[j] == first_vertex(rows[j].shape));
        }
    }
}

/// Columns may share dictionaries exactly if their texts, equal ones taken once,
/// have bytes that fit in 31 bits, or else what the columns repeat among each
/// other is less than a twentieth of that.
pub proof fn law_layers_whose_columns_may_share(rows: Seq<Row>, width: nat)
    ensures
        shareable(rows, width) <==> {
            let each = Seq::new(width, |column: int| distinct_bytes(column_texts(rows, column)));
            let all = distinct_bytes(
                Seq::new(width, |column: int| column_texts(rows, column)).flatten(),
            );
            all <= 0x7fff_ffff || 20 * (sum(each) - all) < 0x7fff_ffff
        },
{
    lemma_texts_between(rows, 0, width);
    assert(Seq::new(width, |column: int| column_texts(rows, column)) == Seq::new(
        width,
        |i: int| column_texts(rows, 0 + i),
    ));
}

/// Values fit columns exactly if there is one for each, of its kind; and a name is
/// taken exactly if a column has it.
pub proof fn law_values_that_fit(
    values: Seq<PropValue>,
    columns: Seq<(Seq<char>, PropKind)>,
    name: Seq<char>,
)
    ensures
        row_fits(values, columns) <==> columns.map_values(|c: (Seq<char>, PropKind)| c.1)
            == values.map_values(|v: PropValue| kind_of(v)),
        has_column(columns, name) <==> columns.map_values(
            |c: (Seq<char>, PropKind)| c.0,
        ).contains(name),
{
    let kinds = columns.map_values(|c: (Seq<char>, PropKind)| c.1);
    let own = values.map_values(|v: PropValue| kind_of(v));
    if kinds == own {
        assert forall|i: int| 0 <= i < values.len() implies kind_of(#[trigger] values[i])
            == columns[i].1 by {
            assert(kinds[i] == own[i]);
        }
    }
    if row_fits(values, columns) {
        assert(kinds =~= own);
    }
    let names = columns.map_values(|c: (Seq<char>, PropKind)| c.0);
    if has_column(columns, name) {
        let i = choose|i: int| 0 <= i < columns.len() && (#[trigger] columns[i]).0 == name;
        assert(names[i] == name);
    }
    if names.contains(name) {
        let i = choose|i: int| 0 <= i < names.len() && names[i] == name;
        assert(columns[i].0 == name);
    }
}

} // verus!
