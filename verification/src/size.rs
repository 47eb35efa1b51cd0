//! Whether the encoder can count what a layer holds.

use mlt_core::{PropKind, PropValue};
use vstd::prelude::*;
use vstd::utf8::encode_utf8;

use crate::encode::{flat_line, flat_polygon, flat_shape, rows_of};
use crate::mlt::{
    bytes_of, closed_ring, column_texts, distinct_bytes, encodable, first_vertex, head, narrow,
    near, ring_length, ring_vertices, shape_lines, shape_members, shape_vertices, shareable, sum,
    texts_between, Row, Vertex,
};
use crate::properties::columns_of;
use crate::tiles::TileEntry;
use crate::wkt::{Coord, LineString, Polygon, Wkt};

verus! {

/// A count, or one more than fits in a `u32` where it does not fit.
spec fn capped(n: nat) -> nat {
    if n > u32::MAX {
        0x1_0000_0000
    } else {
        n
    }
}

/// Adds two counts.
fn plus(a: u64, b: u64) -> (r: u64)
    requires
        a <= 0x1_0000_0000,
        b <= 0x1_0000_0000,
    ensures
        r == capped((a + b) as nat),
{
    if a + b > u32::MAX as u64 {
        0x1_0000_0000
    } else {
        a + b
    }
}

/// A length as a count.
fn length(n: usize) -> (r: u64)
    ensures
        r == capped(n as nat),
{
    if n as u64 > u32::MAX as u64 {
        0x1_0000_0000
    } else {
        n as u64
    }
}

/// A sum grows by the next part.
proof fn lemma_sum_step(parts: Seq<nat>, i: int)
    requires
        0 <= i < parts.len(),
    ensures
        sum(parts.take(i + 1)) == sum(parts.take(i)) + parts[i],
{
    assert(parts.take(i + 1).drop_last() == parts.take(i));
}

/// How many vertices a ring has, one that repeats the first at the end left out.
fn count_ring(ring: &LineString) -> (r: u64)
    ensures
        r == capped(ring_length(closed_ring(flat_line(*ring)))),
{
    let n: usize = ring.coords.len();
    if n < 2 {
        return length(n);
    }
    let a: Coord = ring.coords[0];
    let b: Coord = ring.coords[n - 1];
    assert(flat_line(*ring).first() == (a.x, a.y));
    assert(flat_line(*ring).last() == (b.x, b.y));
    if a.x == b.x && a.y == b.y {
        length(n - 1)
    } else {
        assert(closed_ring(flat_line(*ring)).first() == (a.x, a.y));
        length(n)
    }
}

/// How many vertices the rings of a polygon have.
fn count_rings(polygon: &Polygon) -> (r: u64)
    ensures
        r == capped(ring_vertices(flat_polygon(*polygon))),
{
    let ghost parts = flat_polygon(*polygon).map_values(|ring: Seq<Vertex>| ring_length(ring));
    if polygon.rings.len() == 0 {
        assert(parts == seq![0nat]);
        assert(parts.drop_last() == Seq::<nat>::empty());
        assert(sum(parts) == 0) by {
            reveal_with_fuel(sum, 2);
        }
        return 0;
    }
    let mut total: u64 = 0;
    for i in 0..polygon.rings.len()
        invariant
            polygon.rings.len() > 0,
            parts == flat_polygon(*polygon).map_values(|ring: Seq<Vertex>| ring_length(ring)),
            total == capped(sum(parts.take(i as int))),
    {
        proof {
            lemma_sum_step(parts, i as int);
        }
        total = plus(total, count_ring(&polygon.rings[i]));
    }
    assert(parts.take(polygon.rings.len() as int) == parts);
    total
}

/// How many vertices a geometry has.
fn count_vertices(wkt: &Wkt) -> (r: u64)
    ensures
        r == capped(shape_vertices(flat_shape(*wkt))),
{
    match wkt {
        Wkt::Point(_) => 1,
        Wkt::LineString(line) => length(line.coords.len()),
        Wkt::Polygon(polygon) => count_rings(polygon),
        Wkt::MultiPoint(m) => length(m.points.len()),
        Wkt::MultiLineString(m) => {
            let ghost lines = m.lines@.map_values(|line: LineString| flat_line(line));
            let ghost parts = lines.map_values(|line: Seq<Vertex>| line.len());
            let mut total: u64 = 0;
            for i in 0..m.lines.len()
                invariant
                    parts.len() == m.lines.len(),
                    forall|j: int|
                        0 <= j < parts.len() ==> #[trigger] parts[j] == flat_line(m.lines[j]).len(),
                    total == capped(sum(parts.take(i as int))),
            {
                proof {
                    lemma_sum_step(parts, i as int);
                }
                total = plus(total, length(m.lines[i].coords.len()));
            }
            assert(parts.take(m.lines.len() as int) == parts);
            total
        },
        Wkt::MultiPolygon(m) => {
            let ghost polygons = m.polygons@.map_values(|polygon: Polygon| flat_polygon(polygon));
            let ghost parts = polygons.map_values(|rings: Seq<Seq<Vertex>>| ring_vertices(rings));
            let mut total: u64 = 0;
            for i in 0..m.polygons.len()
                invariant
                    parts.len() == m.polygons.len(),
                    forall|j: int|
                        0 <= j < parts.len() ==> #[trigger] parts[j] == ring_vertices(
                            flat_polygon(m.polygons[j]),
                        ),
                    total == capped(sum(parts.take(i as int))),
            {
                proof {
                    lemma_sum_step(parts, i as int);
                }
                total = plus(total, count_rings(&m.polygons[i]));
            }
            assert(parts.take(m.polygons.len() as int) == parts);
            total
        },
    }
}

/// How many rings a polygon has. One without rings has an empty exterior.
fn rings_of(polygon: &Polygon) -> (r: u64)
    ensures
        r == capped(flat_polygon(*polygon).len()),
{
    if polygon.rings.len() == 0 {
        1
    } else {
        length(polygon.rings.len())
    }
}

/// How many lines and rings a geometry has.
fn count_lines(wkt: &Wkt) -> (r: u64)
    ensures
        r == capped(shape_lines(flat_shape(*wkt))),
{
    match wkt {
        Wkt::Point(_) | Wkt::MultiPoint(_) => 0,
        Wkt::LineString(_) => 1,
        Wkt::Polygon(polygon) => rings_of(polygon),
        Wkt::MultiLineString(m) => length(m.lines.len()),
        Wkt::MultiPolygon(m) => {
            let ghost polygons = m.polygons@.map_values(|polygon: Polygon| flat_polygon(polygon));
            let ghost parts = polygons.map_values(|rings: Seq<Seq<Vertex>>| rings.len());
            let mut total: u64 = 0;
            for i in 0..m.polygons.len()
                invariant
                    parts.len() == m.polygons.len(),
                    forall|j: int|
                        0 <= j < parts.len() ==> #[trigger] parts[j] == flat_polygon(
                            m.polygons[j],
                        ).len(),
                    total == capped(sum(parts.take(i as int))),
            {
                proof {
                    lemma_sum_step(parts, i as int);
                }
                total = plus(total, rings_of(&m.polygons[i]));
            }
            assert(parts.take(m.polygons.len() as int) == parts);
            total
        },
    }
}

/// How many points, lines or polygons a geometry is made of.
fn count_members(wkt: &Wkt) -> (r: u64)
    ensures
        r == capped(shape_members(flat_shape(*wkt))),
{
    match wkt {
        Wkt::Point(_) | Wkt::LineString(_) | Wkt::Polygon(_) => 1,
        Wkt::MultiPoint(m) => length(m.points.len()),
        Wkt::MultiLineString(m) => length(m.lines.len()),
        Wkt::MultiPolygon(m) => length(m.polygons.len()),
    }
}

/// The rows for the features of a tile.
spec fn rows_for(schema: Seq<(String, PropKind)>, features: Seq<TileEntry>) -> Seq<Row> {
    rows_of(columns_of(schema), features)
}

/// The characters of a text: none where there is no text.
spec fn shown(text: Option<&String>) -> Seq<char> {
    match text {
        Some(text) => text@,
        None => seq![],
    }
}

/// The text of a feature in a column, where it has one.
fn text_at<'a>(
    schema: &[(String, PropKind)],
    features: &'a [TileEntry],
    row: usize,
    column: usize,
) -> (r: Option<&'a String>)
    requires
        row < features.len(),
        column < schema.len(),
    ensures
        shown(r) == column_texts(rows_for(schema@, features@), column as int)[row as int],
{
    let values: &Vec<PropValue> = &features[row].values;
    if column < values.len() {
        match &values[column] {
            PropValue::Str(Some(text)) => Some(text),
            _ => None,
        }
    } else {
        None
    }
}

/// How many bytes a text has.
fn size(text: Option<&String>) -> (r: usize)
    ensures
        r == encode_utf8(shown(text)).len(),
{
    match text {
        Some(text) => text.as_str().as_bytes().len(),
        None => 0,
    }
}

/// Whether two texts are equal.
fn is_same(a: Option<&String>, b: Option<&String>) -> (r: bool)
    ensures
        r == (shown(a) == shown(b)),
{
    assert(shown(a).len() == 0 ==> shown(a) == Seq::<char>::empty());
    assert(shown(b).len() == 0 ==> shown(b) == Seq::<char>::empty());
    match (a, b) {
        (Some(a), Some(b)) => *a == *b,
        (Some(a), None) => a.as_str().is_empty(),
        (None, Some(b)) => b.as_str().is_empty(),
        (None, None) => true,
    }
}

/// How many bytes of text a column holds.
fn count_column(schema: &[(String, PropKind)], features: &[TileEntry], column: usize) -> (r: u64)
    requires
        column < schema.len(),
    ensures
        r == capped(bytes_of(column_texts(rows_for(schema@, features@), column as int))),
{
    let ghost texts = column_texts(rows_for(schema@, features@), column as int);
    let ghost parts = texts.map_values(|text: Seq<char>| encode_utf8(text).len());
    let mut total: u64 = 0;
    for i in 0..features.len()
        invariant
            column < schema.len(),
            texts == column_texts(rows_for(schema@, features@), column as int),
            texts.len() == features.len(),
            parts == texts.map_values(|text: Seq<char>| encode_utf8(text).len()),
            total == capped(sum(parts.take(i as int))),
    {
        proof {
            lemma_sum_step(parts, i as int);
        }
        total = plus(total, length(size(text_at(schema, features, i, column))));
    }
    assert(parts.take(features.len() as int) == parts);
    total
}

/// Whether the bytes of every text column can be counted.
fn is_countable_text(schema: &[(String, PropKind)], features: &[TileEntry]) -> (r: bool)
    ensures
        r == forall|column: int|
            0 <= column < schema.len() ==> bytes_of(
                #[trigger] column_texts(rows_of(columns_of(schema@), features@), column),
            ) <= i32::MAX,
{
    let ghost rows = rows_for(schema@, features@);
    for i in 0..schema.len()
        invariant
            rows == rows_for(schema@, features@),
            forall|column: int|
                0 <= column < i ==> bytes_of(#[trigger] column_texts(rows, column)) <= i32::MAX,
    {
        if count_column(schema, features, i) > i32::MAX as u64 {
            assert(bytes_of(column_texts(rows, i as int)) > i32::MAX);
            return false;
        }
    }
    true
}

/// Appended texts add at most their bytes.
proof fn lemma_distinct_append(texts: Seq<Seq<char>>, more: Seq<Seq<char>>)
    ensures
        distinct_bytes(texts + more) <= distinct_bytes(texts) + bytes_of(more),
    decreases more.len(),
{
    let weigh = |text: Seq<char>| encode_utf8(text).len();
    if more.len() == 0 {
        assert(texts + more == texts);
    } else {
        assert((texts + more).drop_last() == texts + more.drop_last());
        lemma_distinct_append(texts, more.drop_last());
        assert(more.map_values(weigh).drop_last() == more.drop_last().map_values(weigh));
    }
}

/// The first texts of a column have at most the bytes of all of them.
proof fn lemma_bytes_take(texts: Seq<Seq<char>>, count: int)
    requires
        0 <= count <= texts.len(),
    ensures
        bytes_of(texts.take(count)) <= bytes_of(texts),
    decreases texts.len(),
{
    let weigh = |text: Seq<char>| encode_utf8(text).len();
    if count < texts.len() {
        assert(texts.drop_last().take(count) == texts.take(count));
        lemma_bytes_take(texts.drop_last(), count);
        assert(texts.map_values(weigh).drop_last() == texts.drop_last().map_values(weigh));
    } else {
        assert(texts.take(count) == texts);
    }
}

/// Columns that can be counted have few distinct bytes.
proof fn lemma_distinct_bound(rows: Seq<Row>, from: int, to: int)
    requires
        from <= to,
        forall|column: int|
            from <= column < to ==> bytes_of(#[trigger] column_texts(rows, column)) <= i32::MAX,
    ensures
        distinct_bytes(texts_between(rows, from, to)) <= (to - from) * i32::MAX,
    decreases to - from,
{
    if from < to {
        lemma_distinct_bound(rows, from, to - 1);
        lemma_distinct_append(texts_between(rows, from, to - 1), column_texts(rows, to - 1));
        assert(bytes_of(column_texts(rows, to - 1)) <= i32::MAX);
        assert((to - from) * i32::MAX == (to - 1 - from) * i32::MAX + i32::MAX)
            by (nonlinear_arith);
    }
}

/// A text stands between two columns where it stands in one of those there.
proof fn lemma_texts_between(rows: Seq<Row>, from: int, to: int, text: Seq<char>)
    ensures
        texts_between(rows, from, to).contains(text) <==> exists|column: int|
            from <= column < to && (#[trigger] column_texts(rows, column)).contains(text),
    decreases to - from,
{
    if from < to {
        let before = texts_between(rows, from, to - 1);
        let last = column_texts(rows, to - 1);
        lemma_texts_between(rows, from, to - 1, text);
        lemma_contains_append(before, last, text);
        if texts_between(rows, from, to).contains(text) {
            if last.contains(text) {
                assert(column_texts(rows, to - 1).contains(text));
            }
        }
    }
}

/// What stands in one of two sequences stands in both together.
proof fn lemma_contains_append(a: Seq<Seq<char>>, b: Seq<Seq<char>>, text: Seq<char>)
    ensures
        (a + b).contains(text) <==> a.contains(text) || b.contains(text),
{
    if a.contains(text) {
        let i = choose|i: int| 0 <= i < a.len() && a[i] == text;
        assert((a + b)[i] == text);
    }
    if b.contains(text) {
        let i = choose|i: int| 0 <= i < b.len() && b[i] == text;
        assert((a + b)[a.len() + i] == text);
    }
    if (a + b).contains(text) {
        let i = choose|i: int| 0 <= i < (a + b).len() && (a + b)[i] == text;
        if i < a.len() {
            assert(a[i] == text);
        } else {
            assert(b[i - a.len()] == text);
        }
    }
}

/// Whether a text stands in one of the first `count` rows of a column.
fn stands_in(
    schema: &[(String, PropKind)],
    features: &[TileEntry],
    text: Option<&String>,
    column: usize,
    count: usize,
) -> (r: bool)
    requires
        column < schema.len(),
        count <= features.len(),
    ensures
        r == column_texts(rows_for(schema@, features@), column as int).take(
            count as int,
        ).contains(shown(text)),
{
    let ghost texts = column_texts(rows_for(schema@, features@), column as int);
    for j in 0..count
        invariant
            column < schema.len(),
            count <= features.len(),
            texts == column_texts(rows_for(schema@, features@), column as int),
            texts.len() == features.len(),
            forall|k: int| 0 <= k < j ==> #[trigger] texts[k] != shown(text),
    {
        if is_same(text_at(schema, features, j, column), text) {
            assert(texts.take(count as int)[j as int] == shown(text));
            return true;
        }
    }
    assert forall|k: int| 0 <= k < count implies texts.take(count as int)[k] != shown(text) by {
        assert(texts[k] != shown(text));
    }
    false
}

/// Whether a text stands in one of the columns from `from` to before `to`.
fn stands_between(
    schema: &[(String, PropKind)],
    features: &[TileEntry],
    text: Option<&String>,
    from: usize,
    to: usize,
) -> (r: bool)
    requires
        from <= to <= schema.len(),
    ensures
        r == texts_between(rows_for(schema@, features@), from as int, to as int).contains(
            shown(text),
        ),
{
    let ghost rows = rows_for(schema@, features@);
    proof {
        lemma_texts_between(rows, from as int, to as int, shown(text));
    }
    for column in from..to
        invariant
            from <= to <= schema.len(),
            rows == rows_for(schema@, features@),
            rows.len() == features.len(),
            texts_between(rows, from as int, to as int).contains(shown(text)) <==> exists|c: int|
                from <= c < to && (#[trigger] column_texts(rows, c)).contains(shown(text)),
            forall|c: int|
                from <= c < column ==> !(#[trigger] column_texts(rows, c)).contains(shown(text)),
    {
        let ghost texts = column_texts(rows, column as int);
        assert(texts.take(features.len() as int) == texts);
        if stands_in(schema, features, text, column, features.len()) {
            return true;
        }
    }
    false
}

/// How many bytes the texts of the columns from `from` to before `to` have, where
/// equal ones count once.
fn count_distinct(
    schema: &[(String, PropKind)],
    features: &[TileEntry],
    from: usize,
    to: usize,
) -> (r: u128)
    requires
        from <= to <= schema.len(),
        forall|column: int|
            0 <= column < schema.len() ==> bytes_of(
                #[trigger] column_texts(rows_of(columns_of(schema@), features@), column),
            ) <= i32::MAX,
    ensures
        r == distinct_bytes(
            texts_between(rows_for(schema@, features@), from as int, to as int),
        ),
{
    let ghost rows = rows_for(schema@, features@);
    let mut total: u128 = 0;
    for c in from..to
        invariant
            from <= to <= schema.len(),
            rows == rows_for(schema@, features@),
            rows.len() == features.len(),
            forall|column: int|
                0 <= column < schema.len() ==> bytes_of(#[trigger] column_texts(rows, column))
                    <= i32::MAX,
            total == distinct_bytes(texts_between(rows, from as int, c as int)),
    {
        let ghost before = texts_between(rows, from as int, c as int);
        let ghost texts = column_texts(rows, c as int);
        proof {
            lemma_distinct_bound(rows, from as int, c as int);
            assert((c - from) * i32::MAX <= 0x1_0000_0000_0000_0000 * i32::MAX) by (nonlinear_arith)
                requires
                    c - from <= 0x1_0000_0000_0000_0000,
            ;
            assert(before + texts.take(0) == before);
        }
        for i in 0..features.len()
            invariant
                from <= c < to <= schema.len(),
                rows == rows_for(schema@, features@),
                texts == column_texts(rows, c as int),
                texts.len() == features.len(),
                before == texts_between(rows, from as int, c as int),
                bytes_of(texts) <= i32::MAX,
                distinct_bytes(before) <= 0x1_0000_0000_0000_0000 * i32::MAX,
                total == distinct_bytes(before + texts.take(i as int)),
        {
            let text: Option<&String> = text_at(schema, features, i, c);
            proof {
                assert(shown(text) == texts[i as int]);
                lemma_contains_append(before, texts.take(i as int), shown(text));
                assert((before + texts.take(i + 1)).drop_last() == before + texts.take(i as int));
                lemma_distinct_append(before, texts.take(i + 1));
                lemma_bytes_take(texts, i + 1);
            }
            if !stands_in(schema, features, text, c, i) && !stands_between(
                schema,
                features,
                text,
                from,
                c,
            ) {
                total = total + size(text) as u128;
            }
        }
        assert(texts.take(features.len() as int) == texts);
    }
    total
}

/// Whether every dictionary that columns may share can be counted. Where not all
/// text together can, this looks at all pairs of texts.
pub fn is_shareable(schema: &[(String, PropKind)], features: &[TileEntry]) -> (r: bool)
    requires
        forall|column: int|
            0 <= column < schema.len() ==> bytes_of(
                #[trigger] column_texts(rows_of(columns_of(schema@), features@), column),
            ) <= i32::MAX,
    ensures
        r == shareable(rows_of(columns_of(schema@), features@), schema.len() as nat),
{
    let ghost rows = rows_for(schema@, features@);
    let mut all: u64 = 0;
    for c in 0..schema.len()
        invariant
            rows == rows_for(schema@, features@),
            distinct_bytes(texts_between(rows, 0, c as int)) <= all || all > i32::MAX,
            all <= 0x1_0000_0000,
    {
        proof {
            lemma_distinct_append(texts_between(rows, 0, c as int), column_texts(rows, c as int));
        }
        all = plus(all, count_column(schema, features, c));
    }
    if all <= i32::MAX as u64 {
        return true;
    }
    let together: u128 = count_distinct(schema, features, 0, schema.len());
    if together <= i32::MAX as u128 {
        return true;
    }
    let ghost each = Seq::new(
        schema.len() as nat,
        |column: int| distinct_bytes(column_texts(rows, column)),
    );
    let mut apiece: u128 = 0;
    for c in 0..schema.len()
        invariant
            rows == rows_for(schema@, features@),
            forall|column: int|
                0 <= column < schema.len() ==> bytes_of(#[trigger] column_texts(rows, column))
                    <= i32::MAX,
            each == Seq::new(
                schema.len() as nat,
                |column: int| distinct_bytes(column_texts(rows, column)),
            ),
            apiece == sum(each.take(c as int)),
            apiece <= c * i32::MAX,
    {
        let ghost texts = column_texts(rows, c as int);
        proof {
            lemma_sum_step(each, c as int);
            assert(texts_between(rows, c as int, c as int) == Seq::<Seq<char>>::empty());
            assert(texts_between(rows, c as int, c + 1) == texts);
            lemma_distinct_bound(rows, c as int, c + 1);
            assert(c * i32::MAX <= 0x1_0000_0000_0000_0000 * i32::MAX) by (nonlinear_arith)
                requires
                    0 <= c <= 0x1_0000_0000_0000_0000,
            ;
            assert((c + 1) * i32::MAX == c * i32::MAX + i32::MAX) by (nonlinear_arith);
        }
        apiece = apiece + count_distinct(schema, features, c, c + 1);
    }
    assert(each.take(schema.len() as int) == each);
    proof {
        lemma_distinct_bound(rows, 0, schema.len() as int);
        assert(schema.len() * i32::MAX <= 0x1_0000_0000_0000_0000 * i32::MAX) by (nonlinear_arith)
            requires
                0 <= schema.len() <= 0x1_0000_0000_0000_0000,
        ;
    }
    20 * apiece < 20 * together + i32::MAX as u128
}

/// The first vertex of a line, where it has one.
fn line_head(line: &LineString) -> (r: Option<Vertex>)
    ensures
        r == head(flat_line(*line)),
        r == head(closed_ring(flat_line(*line))),
{
    if line.coords.len() == 0 {
        None
    } else {
        Some((line.coords[0].x, line.coords[0].y))
    }
}

/// The first vertex of a polygon, where its exterior has one.
fn polygon_head(polygon: &Polygon) -> (r: Option<Vertex>)
    ensures
        r == head(flat_polygon(*polygon)[0]),
{
    if polygon.rings.len() == 0 {
        None
    } else {
        line_head(&polygon.rings[0])
    }
}

/// The first vertex of a geometry, where its first part has one.
fn wkt_head(wkt: &Wkt) -> (r: Option<Vertex>)
    ensures
        r == first_vertex(flat_shape(*wkt)),
{
    match wkt {
        Wkt::Point(p) => Some((p.coord.x, p.coord.y)),
        Wkt::LineString(line) => line_head(line),
        Wkt::Polygon(polygon) => polygon_head(polygon),
        Wkt::MultiPoint(m) => if m.points.len() == 0 {
            None
        } else {
            Some((m.points[0].coord.x, m.points[0].coord.y))
        },
        Wkt::MultiLineString(m) => if m.lines.len() == 0 {
            None
        } else {
            line_head(&m.lines[0])
        },
        Wkt::MultiPolygon(m) => if m.polygons.len() == 0 {
            None
        } else {
            polygon_head(&m.polygons[0])
        },
    }
}

/// The least and the greatest value on an axis.
struct Bounds {
    low: i32,
    high: i32,
}

/// Whether `bounds` are the least and the greatest of the values that are
/// there.
spec fn bound(bounds: Option<Bounds>, values: Seq<Option<i32>>) -> bool {
    match bounds {
        None => forall|i: int| 0 <= i < values.len() ==> #[trigger] values[i] is None,
        Some(b) => {
            &&& values.contains(Some(b.low))
            &&& values.contains(Some(b.high))
            &&& forall|i: int|
                0 <= i < values.len() ==> (#[trigger] values[i] matches Some(v) ==> b.low <= v
                    <= b.high)
        },
    }
}

/// Takes one more value into account.
fn extend(bounds: Option<Bounds>, value: i32, Ghost(values): Ghost<Seq<Option<i32>>>) -> (r: Option<
    Bounds,
>)
    requires
        bound(bounds, values),
    ensures
        bound(r, values.push(Some(value))),
{
    let ghost all = values.push(Some(value));
    assert(all[values.len() as int] == Some(value));
    assert forall|v: Option<i32>| values.contains(v) implies #[trigger] all.contains(v) by {
        let i = choose|i: int| 0 <= i < values.len() && values[i] == v;
        assert(all[i] == v);
    }
    match bounds {
        None => Some(Bounds { low: value, high: value }),
        Some(b) => {
            let low: i32 = if value < b.low {
                value
            } else {
                b.low
            };
            let high: i32 = if value > b.high {
                value
            } else {
                b.high
            };
            Some(Bounds { low, high })
        },
    }
}

/// Whether the greatest value is further from the least than an `i32` can tell.
fn is_wide(bounds: &Option<Bounds>) -> (r: bool)
    ensures
        r == (bounds matches Some(b) && b.high - b.low > i32::MAX),
{
    match bounds {
        Some(b) => b.high as i64 - b.low as i64 > i32::MAX as i64,
        None => false,
    }
}

/// The first vertices of the features of a tile.
spec fn heads(entries: Seq<TileEntry>) -> Seq<Option<Vertex>> {
    entries.map_values(|entry: TileEntry| first_vertex(flat_shape(entry.wkt)))
}

/// The X of a vertex.
spec fn x_of(v: Option<Vertex>) -> Option<i32> {
    match v {
        Some(v) => Some(v.0),
        None => None,
    }
}

/// The Y of a vertex.
spec fn y_of(v: Option<Vertex>) -> Option<i32> {
    match v {
        Some(v) => Some(v.1),
        None => None,
    }
}

/// Vertices lie within reach of each other where their extremes do.
proof fn lemma_narrow(firsts: Seq<Option<Vertex>>, xs: Option<Bounds>, ys: Option<Bounds>)
    requires
        bound(xs, firsts.map_values(|v: Option<Vertex>| x_of(v))),
        bound(ys, firsts.map_values(|v: Option<Vertex>| y_of(v))),
    ensures
        narrow(firsts) <==> !((xs matches Some(b) && b.high - b.low > i32::MAX) || (
        ys matches Some(b) && b.high - b.low > i32::MAX)),
{
    let all_x = firsts.map_values(|v: Option<Vertex>| x_of(v));
    let all_y = firsts.map_values(|v: Option<Vertex>| y_of(v));
    assert(forall|i: int| 0 <= i < firsts.len() ==> all_x[i] == x_of(#[trigger] firsts[i]));
    assert(forall|i: int| 0 <= i < firsts.len() ==> all_y[i] == y_of(#[trigger] firsts[i]));
    if narrow(firsts) {
        if let Some(b) = xs {
            let i = choose|i: int| 0 <= i < all_x.len() && all_x[i] == Some(b.high);
            let j = choose|j: int| 0 <= j < all_x.len() && all_x[j] == Some(b.low);
            assert(near(firsts[i], firsts[j]));
        }
        if let Some(b) = ys {
            let i = choose|i: int| 0 <= i < all_y.len() && all_y[i] == Some(b.high);
            let j = choose|j: int| 0 <= j < all_y.len() && all_y[j] == Some(b.low);
            assert(near(firsts[i], firsts[j]));
        }
    } else {
        let (i, j) = choose|i: int, j: int|
            0 <= i < firsts.len() && 0 <= j < firsts.len() && !#[trigger] near(
                firsts[i],
                firsts[j],
            );
        assert(x_of(firsts[i]) == all_x[i]);
        assert(x_of(firsts[j]) == all_x[j]);
        assert(y_of(firsts[i]) == all_y[i]);
        assert(y_of(firsts[j]) == all_y[j]);
    }
}

/// Whether no two first vertices are further apart than an `i32` can tell.
fn is_narrow(features: &[TileEntry]) -> (r: bool)
    ensures
        r == narrow(heads(features@)),
{
    let ghost firsts = heads(features@);
    let ghost all_x = firsts.map_values(|v: Option<Vertex>| x_of(v));
    let ghost all_y = firsts.map_values(|v: Option<Vertex>| y_of(v));
    let mut xs: Option<Bounds> = None;
    let mut ys: Option<Bounds> = None;
    for i in 0..features.len()
        invariant
            all_x.len() == features.len(),
            all_y.len() == features.len(),
            forall|j: int|
                0 <= j < features.len() ==> #[trigger] all_x[j] == x_of(
                    first_vertex(flat_shape(features@[j].wkt)),
                ),
            forall|j: int|
                0 <= j < features.len() ==> #[trigger] all_y[j] == y_of(
                    first_vertex(flat_shape(features@[j].wkt)),
                ),
            bound(xs, all_x.take(i as int)),
            bound(ys, all_y.take(i as int)),
    {
        assert(all_x.take(i + 1) == all_x.take(i as int).push(all_x[i as int]));
        assert(all_y.take(i + 1) == all_y.take(i as int).push(all_y[i as int]));
        match wkt_head(&features[i].wkt) {
            Some((x, y)) => {
                xs = extend(xs, x, Ghost(all_x.take(i as int)));
                ys = extend(ys, y, Ghost(all_y.take(i as int)));
            },
            None => {
                proof {
                    lemma_bound_none(xs, all_x.take(i as int));
                    lemma_bound_none(ys, all_y.take(i as int));
                }
            },
        }
    }
    assert(all_x.take(features.len() as int) == all_x);
    assert(all_y.take(features.len() as int) == all_y);
    proof {
        lemma_narrow(firsts, xs, ys);
    }
    !is_wide(&xs) && !is_wide(&ys)
}

/// A value that is not there leaves the extremes as they are.
proof fn lemma_bound_none(bounds: Option<Bounds>, values: Seq<Option<i32>>)
    requires
        bound(bounds, values),
    ensures
        bound(bounds, values.push(None)),
{
    let all = values.push(None);
    assert forall|v: Option<i32>| values.contains(v) implies #[trigger] all.contains(v) by {
        let i = choose|i: int| 0 <= i < values.len() && values[i] == v;
        assert(all[i] == v);
    }
}

/// Whether the encoder's arithmetic on the layer of these features stays in
/// range.
pub fn is_encodable(schema: &[(String, PropKind)], features: &[TileEntry]) -> (r: bool)
    ensures
        r == encodable(rows_of(columns_of(schema@), features@), schema.len() as nat),
{
    let ghost rows = rows_of(columns_of(schema@), features@);
    let ghost vertices = rows.map_values(|r: Row| shape_vertices(r.shape));
    let ghost lines = rows.map_values(|r: Row| shape_lines(r.shape));
    let ghost members = rows.map_values(|r: Row| shape_members(r.shape));
    let mut all_vertices: u64 = 0;
    let mut all_lines: u64 = 0;
    let mut all_members: u64 = 0;
    for i in 0..features.len()
        invariant
            vertices.len() == features.len(),
            lines.len() == features.len(),
            members.len() == features.len(),
            forall|j: int|
                0 <= j < features.len() ==> #[trigger] vertices[j] == shape_vertices(
                    flat_shape(features@[j].wkt),
                ),
            forall|j: int|
                0 <= j < features.len() ==> #[trigger] lines[j] == shape_lines(
                    flat_shape(features@[j].wkt),
                ),
            forall|j: int|
                0 <= j < features.len() ==> #[trigger] members[j] == shape_members(
                    flat_shape(features@[j].wkt),
                ),
            all_vertices == capped(sum(vertices.take(i as int))),
            all_lines == capped(sum(lines.take(i as int))),
            all_members == capped(sum(members.take(i as int))),
    {
        proof {
            lemma_sum_step(vertices, i as int);
            lemma_sum_step(lines, i as int);
            lemma_sum_step(members, i as int);
        }
        all_vertices = plus(all_vertices, count_vertices(&features[i].wkt));
        all_lines = plus(all_lines, count_lines(&features[i].wkt));
        all_members = plus(all_members, count_members(&features[i].wkt));
    }
    assert(vertices.take(features.len() as int) == vertices);
    assert(lines.take(features.len() as int) == lines);
    assert(members.take(features.len() as int) == members);
    assert(rows.map_values(|r: Row| first_vertex(r.shape)) == heads(features@));
    let limit: u64 = u32::MAX as u64;
    all_vertices <= limit && all_lines <= limit && all_members <= limit && is_countable_text(
        schema,
        features,
    ) && (features.len() < 512 || is_narrow(features))
}

} // verus!
