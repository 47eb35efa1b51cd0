//! Inspection and projection of geometries: the positions of a
//! [`GeometryValue`], whether any carries a Z, their bounding box, and their
//! image in a tile.

use geojson::{GeometryValue, Position};
use vstd::prelude::*;

use crate::json::{ordinate, ordinate_count, ordinates};
use crate::ordinate::{is_less, is_nan, less, nan, rank};
use crate::project::{tile_local, Projection, Tile};
use crate::wkt::{
    Coord, Dimension, LineString, MultiLineString, MultiPoint, MultiPolygon, Point, Polygon, Wkt,
};

verus! {

/// The values behind a sequence of references.
pub open spec fn unref(refs: Seq<&Position>) -> Seq<Position> {
    refs.map_values(|p: &Position| *p)
}

/// The positions of several lines, one line after the other.
pub open spec fn line_positions(lines: Seq<Vec<Position>>) -> Seq<Position>
    decreases lines.len(),
{
    if lines.len() == 0 {
        seq![]
    } else {
        line_positions(lines.drop_last()) + lines.last()@
    }
}

/// The positions of several polygons, one polygon after the other.
pub open spec fn polygon_positions(polygons: Seq<Vec<Vec<Position>>>) -> Seq<Position>
    decreases polygons.len(),
{
    if polygons.len() == 0 {
        seq![]
    } else {
        polygon_positions(polygons.drop_last()) + line_positions(polygons.last()@)
    }
}

/// The positions of several geometries, one geometry after the other.
pub open spec fn collection_positions(geometries: Seq<geojson::Geometry>) -> Seq<Position>
    decreases geometries,
{
    if geometries.len() == 0 {
        seq![]
    } else {
        collection_positions(geometries.drop_last()) + value_positions(geometries.last().value)
    }
}

/// Every position of a geometry, in order, those of nested collections too.
pub open spec fn value_positions(value: GeometryValue) -> Seq<Position>
    decreases value,
{
    match value {
        GeometryValue::Point { coordinates } => seq![coordinates],
        GeometryValue::MultiPoint { coordinates } => coordinates@,
        GeometryValue::LineString { coordinates } => coordinates@,
        GeometryValue::MultiLineString { coordinates } => line_positions(coordinates@),
        GeometryValue::Polygon { coordinates } => line_positions(coordinates@),
        GeometryValue::MultiPolygon { coordinates } => polygon_positions(coordinates@),
        GeometryValue::GeometryCollection { geometries } => collection_positions(geometries@),
    }
}

/// Appends the positions of a line.
fn push_line<'a>(line: &'a Vec<Position>, out: &mut Vec<&'a Position>)
    ensures
        unref(final(out)@) == unref(old(out)@) + line@,
{
    for i in 0..line.len()
        invariant
            unref(out@) == unref(old(out)@) + line@.take(i as int),
    {
        let ghost before = out@;
        out.push(&line[i]);
        assert(unref(out@) == unref(before).push(line@[i as int]));
        assert(line@.take(i + 1) == line@.take(i as int).push(line@[i as int]));
    }
    assert(line@.take(line.len() as int) == line@);
}

/// Appends the positions of several lines.
fn push_lines<'a>(lines: &'a Vec<Vec<Position>>, out: &mut Vec<&'a Position>)
    ensures
        unref(final(out)@) == unref(old(out)@) + line_positions(lines@),
{
    for i in 0..lines.len()
        invariant
            unref(out@) == unref(old(out)@) + line_positions(lines@.take(i as int)),
    {
        push_line(&lines[i], out);
        assert(lines@.take(i + 1).drop_last() == lines@.take(i as int));
    }
    assert(lines@.take(lines.len() as int) == lines@);
}

/// Appends the positions of several polygons.
fn push_polygons<'a>(polygons: &'a Vec<Vec<Vec<Position>>>, out: &mut Vec<&'a Position>)
    ensures
        unref(final(out)@) == unref(old(out)@) + polygon_positions(polygons@),
{
    for i in 0..polygons.len()
        invariant
            unref(out@) == unref(old(out)@) + polygon_positions(polygons@.take(i as int)),
    {
        push_lines(&polygons[i], out);
        assert(polygons@.take(i + 1).drop_last() == polygons@.take(i as int));
    }
    assert(polygons@.take(polygons.len() as int) == polygons@);
}

/// Appends the positions of a geometry.
fn push_value<'a>(value: &'a GeometryValue, out: &mut Vec<&'a Position>)
    ensures
        unref(final(out)@) == unref(old(out)@) + value_positions(*value),
    decreases value,
{
    match value {
        GeometryValue::Point { coordinates } => {
            out.push(coordinates);
        },
        GeometryValue::MultiPoint { coordinates } => push_line(coordinates, out),
        GeometryValue::LineString { coordinates } => push_line(coordinates, out),
        GeometryValue::MultiLineString { coordinates } => push_lines(coordinates, out),
        GeometryValue::Polygon { coordinates } => push_lines(coordinates, out),
        GeometryValue::MultiPolygon { coordinates } => push_polygons(coordinates, out),
        GeometryValue::GeometryCollection { geometries } => {
            for i in 0..geometries.len()
                invariant
                    value matches GeometryValue::GeometryCollection { geometries: g } && g
                        == geometries,
                    unref(out@) == unref(old(out)@) + collection_positions(
                        geometries@.take(i as int),
                    ),
            {
                assert(decreases_to!(value => geometries@[i as int].value));
                push_value(&geometries[i].value, out);
                assert(geometries@.take(i + 1).drop_last() == geometries@.take(i as int));
            }
            assert(geometries@.take(geometries.len() as int) == geometries@);
        },
    }
}

/// The longitude, latitude and altitude of a position, where it has the first
/// two.
pub open spec fn spherical(ordinates: Seq<u64>) -> Option<(u64, u64, Option<u64>)> {
    if ordinates.len() < 2 {
        None
    } else if ordinates.len() == 2 {
        Some((ordinates[0], ordinates[1], None))
    } else {
        Some((ordinates[0], ordinates[1], Some(ordinates[2])))
    }
}

/// Reads longitude, latitude and optional altitude from a position. A position
/// with fewer than two ordinates has none.
pub fn lon_lat_alt(pos: &Position) -> (r: Option<(u64, u64, Option<u64>)>)
    ensures
        r == spherical(ordinates(*pos)),
{
    let n: usize = ordinate_count(pos);
    if n < 2 {
        return None;
    }
    let alt: Option<u64> = if n >= 3 {
        Some(ordinate(pos, 2))
    } else {
        None
    };
    Some((ordinate(pos, 0), ordinate(pos, 1), alt))
}

/// Whether a position has a longitude and a latitude.
pub open spec fn usable(pos: Position) -> bool {
    ordinates(pos).len() >= 2
}

/// Whether one of `positions` has a longitude and a latitude.
pub open spec fn any_usable(positions: Seq<Position>) -> bool {
    exists|i: int| 0 <= i < positions.len() && usable(#[trigger] positions[i])
}

/// Whether one of `positions` has a third ordinate.
pub open spec fn any_z(positions: Seq<Position>) -> bool {
    exists|i: int| 0 <= i < positions.len() && ordinates(#[trigger] positions[i]).len() >= 3
}

/// Whether `pos` is one of the usable `positions` and none of them is less on
/// the axis. What is no number counts only where nothing else is there.
pub open spec fn least_on(axis: int, pos: Position, positions: Seq<Position>) -> bool {
    &&& usable(pos)
    &&& positions.contains(pos)
    &&& forall|i: int|
        0 <= i < positions.len() && usable(#[trigger] positions[i]) && !nan(
            ordinates(positions[i])[axis],
        ) ==> !nan(ordinates(pos)[axis]) && rank(ordinates(pos)[axis]) <= rank(
            ordinates(positions[i])[axis],
        )
}

/// Whether `pos` is one of the usable `positions` and none of them is greater
/// on the axis. What is no number counts only where nothing else is there.
pub open spec fn greatest_on(axis: int, pos: Position, positions: Seq<Position>) -> bool {
    &&& usable(pos)
    &&& positions.contains(pos)
    &&& forall|i: int|
        0 <= i < positions.len() && usable(#[trigger] positions[i]) && !nan(
            ordinates(positions[i])[axis],
        ) ==> !nan(ordinates(pos)[axis]) && rank(ordinates(positions[i])[axis]) <= rank(
            ordinates(pos)[axis],
        )
}

/// Appending a position keeps, or takes over, the least and the greatest.
proof fn lemma_extremes_push(axis: int, positions: Seq<Position>, next: Position)
    requires
        axis == 0 || axis == 1,
    ensures
        any_usable(positions.push(next)) == (any_usable(positions) || usable(next)),
        forall|p: Position|
            #![trigger least_on(axis, p, positions)]
            least_on(axis, p, positions) ==> ({
                let (x, y) = (ordinates(p)[axis], ordinates(next)[axis]);
                let kept = if usable(next) && (nan(x) || less(y, x)) {
                    next
                } else {
                    p
                };
                least_on(axis, kept, positions.push(next))
            }),
        forall|p: Position|
            #![trigger greatest_on(axis, p, positions)]
            greatest_on(axis, p, positions) ==> ({
                let (x, y) = (ordinates(p)[axis], ordinates(next)[axis]);
                let kept = if usable(next) && (nan(x) || less(x, y)) {
                    next
                } else {
                    p
                };
                greatest_on(axis, kept, positions.push(next))
            }),
        !any_usable(positions) && usable(next) ==> least_on(axis, next, positions.push(next))
            && greatest_on(axis, next, positions.push(next)),
{
    let all = positions.push(next);
    assert(all[positions.len() as int] == next);
    assert(forall|i: int| 0 <= i < positions.len() ==> all[i] == #[trigger] positions[i]);
    if any_usable(positions) {
        let i = choose|i: int| 0 <= i < positions.len() && usable(#[trigger] positions[i]);
        assert(usable(all[i]));
    }
    assert(forall|p: Position| positions.contains(p) ==> #[trigger] all.contains(p)) by {
        assert forall|p: Position| positions.contains(p) implies #[trigger] all.contains(p) by {
            let i = choose|i: int| 0 <= i < positions.len() && positions[i] == p;
            assert(all[i] == p);
        }
    }
}

/// A bounding box, by the positions that lie on its sides.
pub struct LonLatBbox<'a> {
    /// A position with the least longitude.
    pub west: &'a Position,
    /// A position with the least latitude.
    pub south: &'a Position,
    /// A position with the greatest longitude.
    pub east: &'a Position,
    /// A position with the greatest latitude.
    pub north: &'a Position,
}

impl<'a> LonLatBbox<'a> {
    /// Whether `self` bounds the usable ones of `positions`.
    pub open spec fn bounds(self, positions: Seq<Position>) -> bool {
        &&& least_on(0, *self.west, positions)
        &&& least_on(1, *self.south, positions)
        &&& greatest_on(0, *self.east, positions)
        &&& greatest_on(1, *self.north, positions)
    }

    /// The box as `(min_lon, min_lat, max_lon, max_lat)`.
    pub open spec fn corners(self) -> (u64, u64, u64, u64) {
        (
            ordinates(*self.west)[0],
            ordinates(*self.south)[1],
            ordinates(*self.east)[0],
            ordinates(*self.north)[1],
        )
    }

    /// The box as `(min_lon, min_lat, max_lon, max_lat)`.
    pub fn to_corners(&self) -> (r: (u64, u64, u64, u64))
        requires
            usable(*self.west),
            usable(*self.south),
            usable(*self.east),
            usable(*self.north),
        ensures
            r == self.corners(),
    {
        (
            ordinate(self.west, 0),
            ordinate(self.south, 1),
            ordinate(self.east, 0),
            ordinate(self.north, 1),
        )
    }
}

/// A bounding box has its least sides before its greatest, unless what lies on
/// them is no number.
pub proof fn law_bbox_is_in_order(bbox: LonLatBbox<'_>, positions: Seq<Position>)
    requires
        bbox.bounds(positions),
    ensures
        !nan(bbox.corners().0) ==> rank(bbox.corners().0) <= rank(bbox.corners().2),
        !nan(bbox.corners().1) ==> rank(bbox.corners().1) <= rank(bbox.corners().3),
{
    let i = choose|i: int| 0 <= i < positions.len() && positions[i] == *bbox.west;
    assert(usable(positions[i]));
    let j = choose|j: int| 0 <= j < positions.len() && positions[j] == *bbox.south;
    assert(usable(positions[j]));
}

/// The lesser of two positions on an axis; `a` where they are equal.
fn lesser<'a>(a: &'a Position, b: &'a Position, axis: usize) -> (r: &'a Position)
    requires
        axis < ordinates(*a).len(),
        axis < ordinates(*b).len(),
    ensures
        ({
            let (x, y) = (ordinates(*a)[axis as int], ordinates(*b)[axis as int]);
            *r == if nan(x) || less(y, x) {
                *b
            } else {
                *a
            }
        }),
{
    let x: u64 = ordinate(a, axis);
    let y: u64 = ordinate(b, axis);
    if is_nan(x) || is_less(y, x) {
        b
    } else {
        a
    }
}

/// The greater of two positions on an axis; `a` where they are equal.
fn greater<'a>(a: &'a Position, b: &'a Position, axis: usize) -> (r: &'a Position)
    requires
        axis < ordinates(*a).len(),
        axis < ordinates(*b).len(),
    ensures
        ({
            let (x, y) = (ordinates(*a)[axis as int], ordinates(*b)[axis as int]);
            *r == if nan(x) || less(x, y) {
                *b
            } else {
                *a
            }
        }),
{
    let x: u64 = ordinate(a, axis);
    let y: u64 = ordinate(b, axis);
    if is_nan(x) || is_less(x, y) {
        b
    } else {
        a
    }
}

/// Inspection helpers on the foreign [`GeometryValue`] type.
pub trait GeometryValueExt {
    /// Every position in the geometry, in order.
    spec fn all_positions(&self) -> Seq<Position>;

    /// Lists every position in the geometry, recursing into nested collections.
    fn positions(&self) -> (r: Vec<&Position>)
        ensures
            unref(r@) == self.all_positions(),
    ;

    /// Whether any position in the geometry carries a Z coordinate.
    fn has_z(&self) -> (r: bool)
        ensures
            r == any_z(self.all_positions()),
    {
        let positions = self.positions();
        for i in 0..positions.len()
            invariant
                unref(positions@) == self.all_positions(),
                forall|j: int| 0 <= j < i ==> ordinates(#[trigger] unref(positions@)[j]).len() < 3,
        {
            assert(unref(positions@)[i as int] == *positions@[i as int]);
            if ordinate_count(positions[i]) >= 3 {
                return true;
            }
        }
        false
    }

    /// The longitude/latitude bounding box of the geometry, or `None` if it has
    /// no usable positions.
    fn lonlat_bbox(&self) -> (r: Option<LonLatBbox<'_>>)
        ensures
            r is Some <==> any_usable(self.all_positions()),
            r matches Some(bbox) ==> bbox.bounds(self.all_positions()),
    {
        let positions = self.positions();
        let ghost all = unref(positions@);
        let mut bbox: Option<LonLatBbox<'_>> = None;
        for i in 0..positions.len()
            invariant
                all == unref(positions@),
                bbox is Some <==> any_usable(all.take(i as int)),
                bbox matches Some(b) ==> b.bounds(all.take(i as int)),
        {
            let pos: &Position = positions[i];
            assert(all[i as int] == *pos);
            assert(all.take(i + 1) == all.take(i as int).push(*pos));
            proof {
                lemma_extremes_push(0, all.take(i as int), *pos);
                lemma_extremes_push(1, all.take(i as int), *pos);
            }
            if ordinate_count(pos) >= 2 {
                bbox = match bbox {
                    Some(b) => Some(
                        LonLatBbox {
                            west: lesser(b.west, pos, 0),
                            south: lesser(b.south, pos, 1),
                            east: greater(b.east, pos, 0),
                            north: greater(b.north, pos, 1),
                        },
                    ),
                    None => Some(LonLatBbox { west: pos, south: pos, east: pos, north: pos }),
                };
            }
        }
        assert(all.take(positions.len() as int) == all);
        bbox
    }
}

impl GeometryValueExt for GeometryValue {
    open spec fn all_positions(&self) -> Seq<Position> {
        value_positions(*self)
    }

    fn positions(&self) -> (r: Vec<&Position>) {
        let mut out: Vec<&Position> = Vec::new();
        push_value(self, &mut out);
        assert(unref(Seq::<&Position>::empty()) + value_positions(*self) == value_positions(*self));
        out
    }
}

/// Where a geometry is projected to: a tile with its extent, in a layer of some
/// dimension.
#[derive(Clone, Copy, Debug, PartialEq, Eq)]
pub struct Frame {
    pub dim: Dimension,
    pub tile: Tile,
    pub extent: u32,
}

/// The position that stands for `pos`: the origin for one that is not usable.
pub open spec fn placed(pos: Position) -> (u64, u64, Option<u64>) {
    match spherical(ordinates(pos)) {
        Some(position) => position,
        None => (0, 0, None),
    }
}

impl<
    X: Fn(u64, u8, u32, u32) -> i32,
    Y: Fn(u64, u8, u32, u32) -> i32,
    H: Fn(u64) -> i32,
> Projection<X, Y, H> {
    /// Whether `c` is an image of a position.
    pub open spec fn images_position(self, pos: Position, frame: Frame, c: Coord) -> bool {
        self.images(placed(pos), frame.tile, frame.extent, frame.dim == Dimension::XYZ, c)
    }

    /// Whether `r` is an image of a position, as a geometry.
    pub open spec fn images_point(self, pos: Position, frame: Frame, r: Point) -> bool {
        &&& r.dim == frame.dim
        &&& self.images_position(pos, frame, r.coord)
    }

    /// Whether `r` is an image of a line, position by position.
    pub open spec fn images_line(self, line: Seq<Position>, frame: Frame, r: LineString) -> bool {
        &&& r.dim == frame.dim
        &&& r.coords.len() == line.len()
        &&& forall|i: int|
            0 <= i < line.len() ==> self.images_position(line[i], frame, #[trigger] r.coords[i])
    }

    /// Whether `r` is an image of a polygon, ring by ring.
    pub open spec fn images_polygon(
        self,
        rings: Seq<Vec<Position>>,
        frame: Frame,
        r: Polygon,
    ) -> bool {
        &&& r.dim == frame.dim
        &&& r.rings.len() == rings.len()
        &&& forall|i: int|
            0 <= i < rings.len() ==> self.images_line(rings[i]@, frame, #[trigger] r.rings[i])
    }

    /// Whether `r` is an image of a geometry, part by part.
    pub open spec fn images_value(self, value: GeometryValue, frame: Frame, r: Wkt) -> bool {
        match (value, r) {
            (GeometryValue::Point { coordinates }, Wkt::Point(r)) => self.images_point(
                coordinates,
                frame,
                r,
            ),
            (GeometryValue::LineString { coordinates }, Wkt::LineString(r)) => self.images_line(
                coordinates@,
                frame,
                r,
            ),
            (GeometryValue::Polygon { coordinates }, Wkt::Polygon(r)) => self.images_polygon(
                coordinates@,
                frame,
                r,
            ),
            (GeometryValue::MultiPoint { coordinates }, Wkt::MultiPoint(r)) => {
                &&& r.dim == frame.dim
                &&& r.points.len() == coordinates.len()
                &&& forall|i: int|
                    0 <= i < coordinates.len() ==> self.images_point(
                        coordinates[i],
                        frame,
                        #[trigger] r.points[i],
                    )
            },
            (GeometryValue::MultiLineString { coordinates }, Wkt::MultiLineString(r)) => {
                &&& r.dim == frame.dim
                &&& r.lines.len() == coordinates.len()
                &&& forall|i: int|
                    0 <= i < coordinates.len() ==> self.images_line(
                        coordinates[i]@,
                        frame,
                        #[trigger] r.lines[i],
                    )
            },
            (GeometryValue::MultiPolygon { coordinates }, Wkt::MultiPolygon(r)) => {
                &&& r.dim == frame.dim
                &&& r.polygons.len() == coordinates.len()
                &&& forall|i: int|
                    0 <= i < coordinates.len() ==> self.images_polygon(
                        coordinates[i]@,
                        frame,
                        #[trigger] r.polygons[i],
                    )
            },
            _ => false,
        }
    }
}

/// The vertices of several lines, one line after the other.
pub open spec fn line_coords(lines: Seq<LineString>) -> Seq<Coord>
    decreases lines.len(),
{
    if lines.len() == 0 {
        seq![]
    } else {
        line_coords(lines.drop_last()) + lines.last().coords@
    }
}

/// The vertices of several polygons, one polygon after the other.
pub open spec fn polygon_coords(polygons: Seq<Polygon>) -> Seq<Coord>
    decreases polygons.len(),
{
    if polygons.len() == 0 {
        seq![]
    } else {
        polygon_coords(polygons.drop_last()) + line_coords(polygons.last().rings@)
    }
}

/// Every vertex of a geometry, in order.
pub open spec fn wkt_coords(wkt: Wkt) -> Seq<Coord> {
    match wkt {
        Wkt::Point(p) => seq![p.coord],
        Wkt::LineString(line) => line.coords@,
        Wkt::Polygon(polygon) => line_coords(polygon.rings@),
        Wkt::MultiPoint(m) => m.points@.map_values(|p: Point| p.coord),
        Wkt::MultiLineString(m) => line_coords(m.lines@),
        Wkt::MultiPolygon(m) => polygon_coords(m.polygons@),
    }
}

impl<
    X: Fn(u64, u8, u32, u32) -> i32,
    Y: Fn(u64, u8, u32, u32) -> i32,
    H: Fn(u64) -> i32,
> Projection<X, Y, H> {
    /// Whether `coords` are images of `positions`, one for one.
    pub open spec fn images_all(
        self,
        positions: Seq<Position>,
        frame: Frame,
        coords: Seq<Coord>,
    ) -> bool {
        &&& coords.len() == positions.len()
        &&& forall|i: int|
            0 <= i < coords.len() ==> self.images_position(
                positions[i],
                frame,
                #[trigger] coords[i],
            )
    }

    /// The images of lines are those of their positions.
    proof fn lemma_lines_imaged(
        self,
        lines: Seq<Vec<Position>>,
        frame: Frame,
        images: Seq<LineString>,
    )
        requires
            images.len() == lines.len(),
            forall|i: int|
                0 <= i < lines.len() ==> self.images_line(
                    lines[i]@,
                    frame,
                    #[trigger] images[i],
                ),
        ensures
            self.images_all(line_positions(lines), frame, line_coords(images)),
        decreases lines.len(),
    {
        if lines.len() > 0 {
            let rest = images.drop_last();
            assert forall|i: int| 0 <= i < rest.len() implies self.images_line(
                lines.drop_last()[i]@,
                frame,
                #[trigger] rest[i],
            ) by {
                assert(rest[i] == images[i]);
            }
            self.lemma_lines_imaged(lines.drop_last(), frame, rest);
            let last = images.len() - 1;
            assert(self.images_line(lines[last]@, frame, images[last]));
        }
    }

    /// The images of polygons are those of their positions.
    proof fn lemma_polygons_imaged(
        self,
        polygons: Seq<Vec<Vec<Position>>>,
        frame: Frame,
        images: Seq<Polygon>,
    )
        requires
            images.len() == polygons.len(),
            forall|i: int|
                0 <= i < polygons.len() ==> self.images_polygon(
                    polygons[i]@,
                    frame,
                    #[trigger] images[i],
                ),
        ensures
            self.images_all(polygon_positions(polygons), frame, polygon_coords(images)),
        decreases polygons.len(),
    {
        if polygons.len() > 0 {
            let rest = images.drop_last();
            assert forall|i: int| 0 <= i < rest.len() implies self.images_polygon(
                polygons.drop_last()[i]@,
                frame,
                #[trigger] rest[i],
            ) by {
                assert(rest[i] == images[i]);
            }
            self.lemma_polygons_imaged(polygons.drop_last(), frame, rest);
            let last = images.len() - 1;
            assert(self.images_polygon(polygons[last]@, frame, images[last]));
            self.lemma_lines_imaged(polygons[last]@, frame, images[last].rings@);
        }
    }

    /// Nothing is clipped: the image of a geometry has one vertex for each
    /// position, in the same order.
    pub proof fn law_nothing_is_clipped(self, value: GeometryValue, frame: Frame, wkt: Wkt)
        requires
            self.images_value(value, frame, wkt),
        ensures
            self.images_all(value_positions(value), frame, wkt_coords(wkt)),
    {
        match (value, wkt) {
            (GeometryValue::Polygon { coordinates }, Wkt::Polygon(r)) => {
                self.lemma_lines_imaged(coordinates@, frame, r.rings@);
            },
            (GeometryValue::MultiPoint { coordinates }, Wkt::MultiPoint(r)) => {
                assert forall|i: int|
                    0 <= i < wkt_coords(wkt).len() implies self.images_position(
                    coordinates[i],
                    frame,
                    #[trigger] wkt_coords(wkt)[i],
                ) by {
                    assert(self.images_point(coordinates[i], frame, r.points[i]));
                }
            },
            (GeometryValue::MultiLineString { coordinates }, Wkt::MultiLineString(r)) => {
                self.lemma_lines_imaged(coordinates@, frame, r.lines@);
            },
            (GeometryValue::MultiPolygon { coordinates }, Wkt::MultiPolygon(r)) => {
                self.lemma_polygons_imaged(coordinates@, frame, r.polygons@);
            },
            _ => {},
        }
    }

    /// In a 3D layer every vertex has a Z, and in a 2D layer none has.
    pub proof fn law_one_dimension(self, value: GeometryValue, frame: Frame, wkt: Wkt)
        requires
            self.images_value(value, frame, wkt),
        ensures
            forall|i: int|
                0 <= i < wkt_coords(wkt).len() ==> ((#[trigger] wkt_coords(wkt)[i]).z is Some
                    <==> frame.dim == Dimension::XYZ),
    {
        self.law_nothing_is_clipped(value, frame, wkt);
    }
}

/// Projects one position, padding or dropping Z to the layer dimension. A
/// position that is not usable is projected as the origin.
fn project_pos<
    X: Fn(u64, u8, u32, u32) -> i32,
    Y: Fn(u64, u8, u32, u32) -> i32,
    H: Fn(u64) -> i32,
>(
    pos: &Position,
    frame: Frame,
    projection: &Projection<X, Y, H>,
) -> (r: Coord)
    requires
        projection.serves(frame.tile, frame.extent),
    ensures
        projection.images_position(*pos, frame, r),
{
    let (lon, lat, alt): (u64, u64, Option<u64>) = match lon_lat_alt(pos) {
        Some(position) => position,
        None => (0, 0, None),
    };
    tile_local(
        lon,
        lat,
        alt,
        frame.tile,
        frame.extent,
        frame.dim == Dimension::XYZ,
        projection,
    )
}

/// Projects a line, position by position.
fn project_line<
    X: Fn(u64, u8, u32, u32) -> i32,
    Y: Fn(u64, u8, u32, u32) -> i32,
    H: Fn(u64) -> i32,
>(
    line: &Vec<Position>,
    frame: Frame,
    projection: &Projection<X, Y, H>,
) -> (r: LineString)
    requires
        projection.serves(frame.tile, frame.extent),
    ensures
        projection.images_line(line@, frame, r),
{
    let mut coords: Vec<Coord> = Vec::new();
    for i in 0..line.len()
        invariant
            projection.serves(frame.tile, frame.extent),
            coords.len() == i,
            forall|j: int|
                0 <= j < i ==> projection.images_position(line[j], frame, #[trigger] coords[j]),
    {
        coords.push(project_pos(&line[i], frame, projection));
    }
    LineString { coords, dim: frame.dim }
}

/// Projects a polygon, ring by ring.
fn project_polygon<
    X: Fn(u64, u8, u32, u32) -> i32,
    Y: Fn(u64, u8, u32, u32) -> i32,
    H: Fn(u64) -> i32,
>(
    polygon: &Vec<Vec<Position>>,
    frame: Frame,
    projection: &Projection<X, Y, H>,
) -> (r: Polygon)
    requires
        projection.serves(frame.tile, frame.extent),
    ensures
        projection.images_polygon(polygon@, frame, r),
{
    let mut rings: Vec<LineString> = Vec::new();
    for i in 0..polygon.len()
        invariant
            projection.serves(frame.tile, frame.extent),
            rings.len() == i,
            forall|j: int|
                0 <= j < i ==> projection.images_line(polygon[j]@, frame, #[trigger] rings[j]),
    {
        rings.push(project_line(&polygon[i], frame, projection));
    }
    Polygon { rings, dim: frame.dim }
}

/// Projects the positions of a multi-point.
fn project_points<
    X: Fn(u64, u8, u32, u32) -> i32,
    Y: Fn(u64, u8, u32, u32) -> i32,
    H: Fn(u64) -> i32,
>(
    points: &Vec<Position>,
    frame: Frame,
    projection: &Projection<X, Y, H>,
) -> (r: MultiPoint)
    requires
        projection.serves(frame.tile, frame.extent),
    ensures
        projection.images_value(
            (GeometryValue::MultiPoint { coordinates: *points }),
            frame,
            Wkt::MultiPoint(r),
        ),
{
    let mut out: Vec<Point> = Vec::new();
    for i in 0..points.len()
        invariant
            projection.serves(frame.tile, frame.extent),
            out.len() == i,
            forall|j: int|
                0 <= j < i ==> projection.images_point(points[j], frame, #[trigger] out[j]),
    {
        out.push(Point { coord: project_pos(&points[i], frame, projection), dim: frame.dim });
    }
    MultiPoint { points: out, dim: frame.dim }
}

/// Projects the lines of a multi-line.
fn project_lines<
    X: Fn(u64, u8, u32, u32) -> i32,
    Y: Fn(u64, u8, u32, u32) -> i32,
    H: Fn(u64) -> i32,
>(
    lines: &Vec<Vec<Position>>,
    frame: Frame,
    projection: &Projection<X, Y, H>,
) -> (r: MultiLineString)
    requires
        projection.serves(frame.tile, frame.extent),
    ensures
        projection.images_value(
            (GeometryValue::MultiLineString { coordinates: *lines }),
            frame,
            Wkt::MultiLineString(r),
        ),
{
    let mut out: Vec<LineString> = Vec::new();
    for i in 0..lines.len()
        invariant
            projection.serves(frame.tile, frame.extent),
            out.len() == i,
            forall|j: int|
                0 <= j < i ==> projection.images_line(lines[j]@, frame, #[trigger] out[j]),
    {
        out.push(project_line(&lines[i], frame, projection));
    }
    MultiLineString { lines: out, dim: frame.dim }
}

/// Projects the polygons of a multi-polygon.
fn project_polygons<
    X: Fn(u64, u8, u32, u32) -> i32,
    Y: Fn(u64, u8, u32, u32) -> i32,
    H: Fn(u64) -> i32,
>(
    polygons: &Vec<Vec<Vec<Position>>>,
    frame: Frame,
    projection: &Projection<X, Y, H>,
) -> (r: MultiPolygon)
    requires
        projection.serves(frame.tile, frame.extent),
    ensures
        projection.images_value(
            (GeometryValue::MultiPolygon { coordinates: *polygons }),
            frame,
            Wkt::MultiPolygon(r),
        ),
{
    let mut out: Vec<Polygon> = Vec::new();
    for i in 0..polygons.len()
        invariant
            projection.serves(frame.tile, frame.extent),
            out.len() == i,
            forall|j: int|
                0 <= j < i ==> projection.images_polygon(polygons[j]@, frame, #[trigger] out[j]),
    {
        out.push(project_polygon(&polygons[i], frame, projection));
    }
    MultiPolygon { polygons: out, dim: frame.dim }
}

/// Whether a geometry has an image in a tile: an empty one and a collection have
/// none.
pub open spec fn projectable(value: GeometryValue) -> bool {
    !(value is GeometryCollection) && value_positions(value).len() > 0
}

/// Projects a whole geometry into a tile, stamping the layer dimension on every
/// container. Gives `None` for an empty geometry and for a collection.
pub fn project_geometry<
    X: Fn(u64, u8, u32, u32) -> i32,
    Y: Fn(u64, u8, u32, u32) -> i32,
    H: Fn(u64) -> i32,
>(
    value: &GeometryValue,
    frame: Frame,
    projection: &Projection<X, Y, H>,
) -> (r: Option<Wkt>)
    requires
        projection.serves(frame.tile, frame.extent),
    ensures
        r is Some <==> projectable(*value),
        r matches Some(wkt) ==> projection.images_value(*value, frame, wkt),
{
    let positions = value.positions();
    assert(unref(positions@).len() == positions.len());
    if positions.len() == 0 {
        return None;
    }
    match value {
        GeometryValue::Point { coordinates } => Some(
            Wkt::Point(
                Point { coord: project_pos(coordinates, frame, projection), dim: frame.dim },
            ),
        ),
        GeometryValue::LineString { coordinates } => Some(
            Wkt::LineString(project_line(coordinates, frame, projection)),
        ),
        GeometryValue::Polygon { coordinates } => Some(
            Wkt::Polygon(project_polygon(coordinates, frame, projection)),
        ),
        GeometryValue::MultiPoint { coordinates } => Some(
            Wkt::MultiPoint(project_points(coordinates, frame, projection)),
        ),
        GeometryValue::MultiLineString { coordinates } => Some(
            Wkt::MultiLineString(project_lines(coordinates, frame, projection)),
        ),
        GeometryValue::MultiPolygon { coordinates } => Some(
            Wkt::MultiPolygon(project_polygons(coordinates, frame, projection)),
        ),
        GeometryValue::GeometryCollection { .. } => None,
    }
}

/// The values behind references are those that the references show, one for one.
pub proof fn law_references_show_their_positions(refs: Seq<&Position>)
    ensures
        unref(refs).len() == refs.len(),
        forall|i: int| 0 <= i < refs.len() ==> unref(refs)[i] == *#[trigger] refs[i],
{
}

/// The positions of lines are those of the lines in a row.
proof fn lemma_line_positions(lines: Seq<Vec<Position>>)
    ensures
        line_positions(lines) == lines.map_values(|line: Vec<Position>| line@).flatten(),
    decreases lines.len(),
{
    let parts = lines.map_values(|line: Vec<Position>| line@);
    if lines.len() > 0 {
        lemma_line_positions(lines.drop_last());
        let rest = lines.drop_last().map_values(|line: Vec<Position>| line@);
        assert(parts == rest.push(lines.last()@));
        rest.lemma_flatten_push(lines.last()@);
    }
}

/// The positions of polygons are those of the polygons in a row.
proof fn lemma_polygon_positions(polygons: Seq<Vec<Vec<Position>>>)
    ensures
        polygon_positions(polygons) == polygons.map_values(
            |rings: Vec<Vec<Position>>| rings@.map_values(|line: Vec<Position>| line@).flatten(),
        ).flatten(),
    decreases polygons.len(),
{
    let of = |rings: Vec<Vec<Position>>|
        rings@.map_values(|line: Vec<Position>| line@).flatten();
    let parts = polygons.map_values(of);
    if polygons.len() > 0 {
        lemma_polygon_positions(polygons.drop_last());
        lemma_line_positions(polygons.last()@);
        let rest = polygons.drop_last().map_values(of);
        assert(parts == rest.push(of(polygons.last())));
        rest.lemma_flatten_push(of(polygons.last()));
    }
}

/// The positions of geometries are those of the geometries in a row.
proof fn lemma_collection_positions(geometries: Seq<geojson::Geometry>)
    ensures
        collection_positions(geometries) == geometries.map_values(
            |geometry: geojson::Geometry| value_positions(geometry.value),
        ).flatten(),
    decreases geometries.len(),
{
    let of = |geometry: geojson::Geometry| value_positions(geometry.value);
    let parts = geometries.map_values(of);
    if geometries.len() > 0 {
        lemma_collection_positions(geometries.drop_last());
        let rest = geometries.drop_last().map_values(of);
        assert(parts == rest.push(of(geometries.last())));
        rest.lemma_flatten_push(of(geometries.last()));
    }
}

/// A geometry has all the positions of its parts, in their order, and no others:
/// those of each point, line and ring, and in a collection those of each member.
pub proof fn law_positions_are_those_of_the_parts(value: GeometryValue)
    ensures
        value_positions(value) == match value {
            GeometryValue::Point { coordinates } => seq![coordinates],
            GeometryValue::MultiPoint { coordinates } => coordinates@,
            GeometryValue::LineString { coordinates } => coordinates@,
            GeometryValue::MultiLineString { coordinates } => coordinates@.map_values(
                |line: Vec<Position>| line@,
            ).flatten(),
            GeometryValue::Polygon { coordinates } => coordinates@.map_values(
                |line: Vec<Position>| line@,
            ).flatten(),
            GeometryValue::MultiPolygon { coordinates } => coordinates@.map_values(
                |rings: Vec<Vec<Position>>|
                    rings@.map_values(|line: Vec<Position>| line@).flatten(),
            ).flatten(),
            GeometryValue::GeometryCollection { geometries } => geometries@.map_values(
                |geometry: geojson::Geometry| value_positions(geometry.value),
            ).flatten(),
        },
        value.all_positions() == value_positions(value),
{
    match value {
        GeometryValue::MultiLineString { coordinates } => lemma_line_positions(coordinates@),
        GeometryValue::Polygon { coordinates } => lemma_line_positions(coordinates@),
        GeometryValue::MultiPolygon { coordinates } => lemma_polygon_positions(coordinates@),
        GeometryValue::GeometryCollection { geometries } => lemma_collection_positions(geometries@),
        _ => {},
    }
}

/// The vertices of lines are those of the lines in a row.
proof fn lemma_line_coords(lines: Seq<LineString>)
    ensures
        line_coords(lines) == lines.map_values(|line: LineString| line.coords@).flatten(),
    decreases lines.len(),
{
    let parts = lines.map_values(|line: LineString| line.coords@);
    if lines.len() > 0 {
        lemma_line_coords(lines.drop_last());
        let rest = lines.drop_last().map_values(|line: LineString| line.coords@);
        assert(parts == rest.push(lines.last().coords@));
        rest.lemma_flatten_push(lines.last().coords@);
    }
}

/// The vertices of polygons are those of the polygons in a row.
proof fn lemma_polygon_coords(polygons: Seq<Polygon>)
    ensures
        polygon_coords(polygons) == polygons.map_values(
            |polygon: Polygon|
                polygon.rings@.map_values(|line: LineString| line.coords@).flatten(),
        ).flatten(),
    decreases polygons.len(),
{
    let of = |polygon: Polygon|
        polygon.rings@.map_values(|line: LineString| line.coords@).flatten();
    let parts = polygons.map_values(of);
    if polygons.len() > 0 {
        lemma_polygon_coords(polygons.drop_last());
        lemma_line_coords(polygons.last().rings@);
        let rest = polygons.drop_last().map_values(of);
        assert(parts == rest.push(of(polygons.last())));
        rest.lemma_flatten_push(of(polygons.last()));
    }
}

/// A tile-local geometry has all the vertices of its parts, in their order, and no
/// others.
pub proof fn law_vertices_are_those_of_the_parts(wkt: Wkt)
    ensures
        wkt_coords(wkt) == match wkt {
            Wkt::Point(point) => seq![point.coord],
            Wkt::LineString(line) => line.coords@,
            Wkt::Polygon(polygon) => polygon.rings@.map_values(
                |line: LineString| line.coords@,
            ).flatten(),
            Wkt::MultiPoint(multi) => Seq::new(
                multi.points@.len(),
                |i: int| multi.points@[i].coord,
            ),
            Wkt::MultiLineString(multi) => multi.lines@.map_values(
                |line: LineString| line.coords@,
            ).flatten(),
            Wkt::MultiPolygon(multi) => multi.polygons@.map_values(
                |polygon: Polygon|
                    polygon.rings@.map_values(|line: LineString| line.coords@).flatten(),
            ).flatten(),
        },
{
    match wkt {
        Wkt::Polygon(polygon) => lemma_line_coords(polygon.rings@),
        Wkt::MultiLineString(multi) => lemma_line_coords(multi.lines@),
        Wkt::MultiPolygon(multi) => lemma_polygon_coords(multi.polygons@),
        _ => {},
    }
}

/// A position has a longitude and a latitude if it has two ordinates, and an
/// altitude if it has a third: the first, the second and the third of them. One
/// with fewer than two is placed at the origin, without altitude.
pub proof fn law_ordinates_make_a_position(pos: Position)
    ensures
        usable(pos) <==> ordinates(pos).len() >= 2,
        spherical(ordinates(pos)) is Some <==> ordinates(pos).len() >= 2,
        spherical(ordinates(pos)) matches Some(p) ==> p == placed(pos),
        ordinates(pos).len() >= 2 ==> placed(pos).0 == ordinates(pos)[0] && placed(pos).1
            == ordinates(pos)[1],
        ordinates(pos).len() < 2 ==> placed(pos).0 == 0 && placed(pos).1 == 0,
        placed(pos).2 is Some <==> ordinates(pos).len() >= 3,
        ordinates(pos).len() >= 3 ==> placed(pos).2 == Some(ordinates(pos)[2]),
{
}

/// A bounding box is there exactly if some position has two ordinates, and a Z
/// exactly if some position has three.
pub proof fn law_positions_by_their_ordinates(positions: Seq<Position>)
    ensures
        any_usable(positions) <==> exists|i: int|
            0 <= i < positions.len() && ordinates(#[trigger] positions[i]).len() >= 2,
        any_z(positions) <==> exists|i: int|
            0 <= i < positions.len() && ordinates(#[trigger] positions[i]).len() >= 3,
{
    if any_usable(positions) {
        let i = choose|i: int| 0 <= i < positions.len() && usable(#[trigger] positions[i]);
        assert(ordinates(positions[i]).len() >= 2);
    }
    if exists|i: int| 0 <= i < positions.len() && ordinates(#[trigger] positions[i]).len() >= 2 {
        let i = choose|i: int|
            0 <= i < positions.len() && ordinates(#[trigger] positions[i]).len() >= 2;
        assert(usable(positions[i]));
    }
}

/// A bounding box is tight and holds everything. Each side lies at the longitude
/// or latitude of a position, and no longitude or latitude that is a number lies
/// beyond a side; a side is no number only where there is no number at all.
pub proof fn law_bbox_is_tight(bbox: LonLatBbox<'_>, positions: Seq<Position>)
    requires
        bbox.bounds(positions),
    ensures
        exists|i: int|
            0 <= i < positions.len() && ordinates(#[trigger] positions[i]).len() >= 2
                && ordinates(positions[i])[0] == bbox.corners().0,
        exists|i: int|
            0 <= i < positions.len() && ordinates(#[trigger] positions[i]).len() >= 2
                && ordinates(positions[i])[1] == bbox.corners().1,
        exists|i: int|
            0 <= i < positions.len() && ordinates(#[trigger] positions[i]).len() >= 2
                && ordinates(positions[i])[0] == bbox.corners().2,
        exists|i: int|
            0 <= i < positions.len() && ordinates(#[trigger] positions[i]).len() >= 2
                && ordinates(positions[i])[1] == bbox.corners().3,
        forall|i: int|
            0 <= i < positions.len() && ordinates(#[trigger] positions[i]).len() >= 2 ==> {
                let (lon, lat) = (ordinates(positions[i])[0], ordinates(positions[i])[1]);
                &&& !less(lon, bbox.corners().0) && !less(bbox.corners().2, lon)
                &&& !less(lat, bbox.corners().1) && !less(bbox.corners().3, lat)
                &&& !nan(lon) ==> !nan(bbox.corners().0) && !nan(bbox.corners().2)
                &&& !nan(lat) ==> !nan(bbox.corners().1) && !nan(bbox.corners().3)
            },
{
    assert forall|i: int|
        0 <= i < positions.len() && ordinates(#[trigger] positions[i]).len() >= 2 implies usable(
        positions[i],
    ) by {}
}

/// Two boxes round the same positions have the same sides: equal ordinates, or no
/// number on both.
pub proof fn law_bbox_is_unique(a: LonLatBbox<'_>, b: LonLatBbox<'_>, positions: Seq<Position>)
    requires
        a.bounds(positions),
        b.bounds(positions),
    ensures
        !less(a.corners().0, b.corners().0) && nan(a.corners().0) == nan(b.corners().0),
        !less(a.corners().1, b.corners().1) && nan(a.corners().1) == nan(b.corners().1),
        !less(a.corners().2, b.corners().2) && nan(a.corners().2) == nan(b.corners().2),
        !less(a.corners().3, b.corners().3) && nan(a.corners().3) == nan(b.corners().3),
{
    assert forall|p: Position| positions.contains(p) && usable(p) implies exists|i: int|
        0 <= i < positions.len() && usable(#[trigger] positions[i]) && positions[i] == p by {
        let i = choose|i: int| 0 <= i < positions.len() && positions[i] == p;
        assert(usable(positions[i]));
    }
}

impl<
    X: Fn(u64, u8, u32, u32) -> i32,
    Y: Fn(u64, u8, u32, u32) -> i32,
    H: Fn(u64) -> i32,
> Projection<X, Y, H> {
    /// Vertex by vertex, an image is what the projection gives: the X for the
    /// first ordinate of the position and the Y for the second, or those of the
    /// origin for a position with fewer than two. In a 3D layer the Z is that of
    /// the third ordinate, or zero where there is none; in a 2D layer there is no
    /// Z.
    pub proof fn law_vertices_are_projected(
        self,
        value: GeometryValue,
        frame: Frame,
        wkt: Wkt,
        i: int,
    )
        requires
            self.images_value(value, frame, wkt),
            0 <= i < value_positions(value).len(),
        ensures
            wkt_coords(wkt).len() == value_positions(value).len(),
            ({
                let ordinates = ordinates(value_positions(value)[i]);
                let c = wkt_coords(wkt)[i];
                let lon: u64 = if ordinates.len() >= 2 {
                    ordinates[0]
                } else {
                    0
                };
                let lat: u64 = if ordinates.len() >= 2 {
                    ordinates[1]
                } else {
                    0
                };
                &&& self.east.ensures((lon, frame.tile.zoom, frame.tile.col, frame.extent), c.x)
                &&& self.south.ensures((lat, frame.tile.zoom, frame.tile.row, frame.extent), c.y)
                &&& frame.dim is XY ==> c.z is None
                &&& frame.dim is XYZ && ordinates.len() < 3 ==> c.z == Some(0i32)
                &&& frame.dim is XYZ && ordinates.len() >= 3 ==> c.z is Some && self.height.ensures(
                    (ordinates[2],),
                    c.z->0,
                )
            }),
    {
        self.law_nothing_is_clipped(value, frame, wkt);
        assert(self.images_position(value_positions(value)[i], frame, wkt_coords(wkt)[i]));
    }

    /// An image has the kind and the parts of its geometry, each with as many
    /// vertices as there are positions, and each stamped with the dimension.
    pub proof fn law_images_keep_the_parts(self, value: GeometryValue, frame: Frame, wkt: Wkt)
        requires
            self.images_value(value, frame, wkt),
        ensures
            match value {
                GeometryValue::Point { .. } => wkt matches Wkt::Point(r) && r.dim == frame.dim,
                GeometryValue::LineString { coordinates } => {
                    &&& wkt matches Wkt::LineString(r)
                    &&& r.dim == frame.dim
                    &&& r.coords@.len() == coordinates@.len()
                },
                GeometryValue::Polygon { coordinates } => {
                    &&& wkt matches Wkt::Polygon(r)
                    &&& r.dim == frame.dim
                    &&& r.rings@.len() == coordinates@.len()
                    &&& forall|i: int|
                        0 <= i < r.rings@.len() ==> (#[trigger] r.rings@[i]).dim == frame.dim
                            && r.rings@[i].coords@.len() == coordinates@[i]@.len()
                },
                GeometryValue::MultiPoint { coordinates } => {
                    &&& wkt matches Wkt::MultiPoint(r)
                    &&& r.dim == frame.dim
                    &&& r.points@.len() == coordinates@.len()
                    &&& forall|i: int|
                        0 <= i < r.points@.len() ==> (#[trigger] r.points@[i]).dim == frame.dim
                },
                GeometryValue::MultiLineString { coordinates } => {
                    &&& wkt matches Wkt::MultiLineString(r)
                    &&& r.dim == frame.dim
                    &&& r.lines@.len() == coordinates@.len()
                    &&& forall|i: int|
                        0 <= i < r.lines@.len() ==> (#[trigger] r.lines@[i]).dim == frame.dim
                            && r.lines@[i].coords@.len() == coordinates@[i]@.len()
                },
                GeometryValue::MultiPolygon { coordinates } => {
                    &&& wkt matches Wkt::MultiPolygon(r)
                    &&& r.dim == frame.dim
                    &&& r.polygons@.len() == coordinates@.len()
                    &&& forall|i: int|
                        0 <= i < r.polygons@.len() ==> (#[trigger] r.polygons@[i]).dim == frame.dim
                            && r.polygons@[i].rings@.len() == coordinates@[i]@.len()
                    &&& forall|i: int, j: int|
                        0 <= i < r.polygons@.len() && 0 <= j < r.polygons@[i].rings@.len() ==> (
                        #[trigger] r.polygons@[i].rings@[j]).dim == frame.dim
                            && r.polygons@[i].rings@[j].coords@.len() == coordinates@[i]@[j]@.len()
                },
                GeometryValue::GeometryCollection { .. } => false,
            },
    {
        match (value, wkt) {
            (GeometryValue::Polygon { coordinates }, Wkt::Polygon(r)) => {
                assert forall|i: int| 0 <= i < r.rings@.len() implies (#[trigger] r.rings@[i]).dim
                    == frame.dim && r.rings@[i].coords@.len() == coordinates@[i]@.len() by {
                    assert(self.images_line(coordinates@[i]@, frame, r.rings[i]));
                }
            },
            (GeometryValue::MultiPoint { coordinates }, Wkt::MultiPoint(r)) => {
                assert forall|i: int| 0 <= i < r.points@.len() implies (
                #[trigger] r.points@[i]).dim == frame.dim by {
                    assert(self.images_point(coordinates@[i], frame, r.points[i]));
                }
            },
            (GeometryValue::MultiLineString { coordinates }, Wkt::MultiLineString(r)) => {
                assert forall|i: int| 0 <= i < r.lines@.len() implies (#[trigger] r.lines@[i]).dim
                    == frame.dim && r.lines@[i].coords@.len() == coordinates@[i]@.len() by {
                    assert(self.images_line(coordinates@[i]@, frame, r.lines[i]));
                }
            },
            (GeometryValue::MultiPolygon { coordinates }, Wkt::MultiPolygon(r)) => {
                assert forall|i: int| 0 <= i < r.polygons@.len() implies (
                #[trigger] r.polygons@[i]).dim == frame.dim && r.polygons@[i].rings@.len()
                    == coordinates@[i]@.len() by {
                    assert(self.images_polygon(coordinates@[i]@, frame, r.polygons[i]));
                }
                assert forall|i: int, j: int|
                    0 <= i < r.polygons@.len() && 0 <= j < r.polygons@[i].rings@.len() implies (
                #[trigger] r.polygons@[i].rings@[j]).dim == frame.dim
                    && r.polygons@[i].rings@[j].coords@.len() == coordinates@[i]@[j]@.len() by {
                    assert(self.images_polygon(coordinates@[i]@, frame, r.polygons[i]));
                    assert(self.images_line(
                        coordinates@[i]@[j]@,
                        frame,
                        r.polygons[i].rings[j],
                    ));
                }
            },
            _ => {},
        }
    }
}

/// A geometry has an image exactly if it is no collection and has a position.
pub proof fn law_all_but_empty_ones_and_collections_are_projected(value: GeometryValue)
    ensures
        value is GeometryCollection ==> !projectable(value),
        !(value is GeometryCollection) ==> (projectable(value) <==> exists|i: int|
            0 <= i < value_positions(value).len() && value_positions(value).contains(
                #[trigger] value_positions(value)[i],
            )),
        value is Point ==> projectable(value),
{
    if value_positions(value).len() > 0 {
        assert(value_positions(value).contains(value_positions(value)[0]));
    }
}

} // verus!
