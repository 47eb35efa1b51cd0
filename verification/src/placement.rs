//! Which features each tile holds.
//!
//! A feature lands, at every zoom level, in the tiles that its bounding box
//! spans. Its geometry is projected into each of them without clipping.

use std::rc::Rc;

use geojson::{Feature, GeometryValue, Position};
use mlt_core::{PropKind, PropValue};
use vstd::arithmetic::power2::{lemma2_to64, pow2};
use vstd::prelude::*;

use crate::geometry::{
    any_usable, any_z, law_bbox_is_in_order, law_bbox_is_tight, law_positions_by_their_ordinates,
    project_geometry, projectable, usable,
    value_positions, wkt_coords, Frame, GeometryValueExt, LonLatBbox,
};
use crate::json::ordinates;
use crate::ordinate::{less, nan};
use crate::mercator::{columns_follow, on_map, spans, tile_range, TileRange};
use crate::project::{Projection, Tile};
use crate::properties::{
    columns_of, feature_id, feature_values, id_of, law_values_agree, same_value, values_for,
};
use crate::tiles::{entries_at, share, TileEntry, TileMap};
use crate::wkt::Dimension;

verus! {

/// The positions of a feature: none for one without geometry.
pub open spec fn feature_positions(feature: Feature) -> Seq<Position> {
    match feature.geometry {
        Some(geometry) => value_positions(geometry.value),
        None => seq![],
    }
}

/// Whether any of the features carries a Z.
pub open spec fn carries_z(features: Seq<Feature>) -> bool {
    exists|i: int| 0 <= i < features.len() && any_z(feature_positions(#[trigger] features[i]))
}

/// The dimension of the layer for features: 3D if any of them carries a Z
/// anywhere.
pub open spec fn dimension_of(features: Seq<Feature>) -> Dimension {
    if carries_z(features) {
        Dimension::XYZ
    } else {
        Dimension::XY
    }
}

/// Decides the one dimension of the whole layer.
pub fn layer_dimension(features: &[Feature]) -> (r: Dimension)
    ensures
        r == dimension_of(features@),
{
    for i in 0..features.len()
        invariant
            forall|j: int|
                0 <= j < i ==> !any_z(feature_positions(#[trigger] features@[j])),
    {
        match &features[i].geometry {
            Some(geometry) => {
                if geometry.value.has_z() {
                    assert(any_z(feature_positions(features@[i as int])));
                    return Dimension::XYZ;
                }
            },
            None => {},
        }
    }
    Dimension::XY
}

/// The dimension depends on which features there are, not on their order.
pub proof fn law_dimension_ignores_order(a: Seq<Feature>, b: Seq<Feature>)
    requires
        forall|feature: Feature| a.contains(feature) <==> b.contains(feature),
    ensures
        dimension_of(a) == dimension_of(b),
{
    if carries_z(a) {
        let i = choose|i: int| 0 <= i < a.len() && any_z(feature_positions(#[trigger] a[i]));
        assert(a.contains(a[i]));
        let j = choose|j: int| 0 <= j < b.len() && b[j] == a[i];
        assert(any_z(feature_positions(b[j])));
    }
    if carries_z(b) {
        let i = choose|i: int| 0 <= i < b.len() && any_z(feature_positions(#[trigger] b[i]));
        assert(b.contains(b[i]));
        let j = choose|j: int| 0 <= j < a.len() && a[j] == b[i];
        assert(any_z(feature_positions(a[j])));
    }
}

/// Whether a feature has a geometry collection for a geometry.
pub open spec fn is_collection(feature: Feature) -> bool {
    feature.geometry matches Some(geometry) && geometry.value is GeometryCollection
}

/// Whether any of the features has a geometry collection for a geometry.
pub open spec fn any_collection(features: Seq<Feature>) -> bool {
    exists|i: int| 0 <= i < features.len() && is_collection(#[trigger] features[i])
}

/// Looks for geometry collections, which a layer cannot hold.
pub fn has_collection(features: &[Feature]) -> (r: bool)
    ensures
        r == any_collection(features@),
{
    for i in 0..features.len()
        invariant
            forall|j: int| 0 <= j < i ==> !is_collection(#[trigger] features@[j]),
    {
        match &features[i].geometry {
            Some(geometry) => match geometry.value {
                GeometryValue::GeometryCollection { .. } => {
                    assert(is_collection(features@[i as int]));
                    return true;
                },
                _ => {},
            },
            None => {},
        }
    }
    false
}

/// Whether the rectangle can come out for positions at a zoom level.
pub open spec fn ranges_over(positions: Seq<Position>, zoom: u8, range: TileRange) -> bool {
    &&& range.on_grid(zoom)
    &&& exists|bbox: LonLatBbox<'_>| #[trigger]
        bbox.bounds(positions) && spans(bbox.corners(), zoom, range) && columns_follow(
            bbox.corners(),
            range,
        )
}

/// Whether `ranges` are the rectangles of a feature at the zoom levels from
/// `min_zoom` to `max_zoom`. A feature without usable position has none.
pub open spec fn ranges_for(
    feature: Feature,
    min_zoom: u8,
    max_zoom: u8,
    ranges: Seq<TileRange>,
) -> bool {
    if any_usable(feature_positions(feature)) {
        &&& ranges.len() == max_zoom - min_zoom + 1
        &&& forall|k: int|
            0 <= k < ranges.len() ==> ranges_over(
                feature_positions(feature),
                (min_zoom + k) as u8,
                #[trigger] ranges[k],
            )
    } else {
        ranges.len() == 0
    }
}

/// Finds the tiles of one feature at each zoom level.
fn feature_ranges(feature: &Feature, min_zoom: u8, max_zoom: u8) -> (r: Vec<TileRange>)
    requires
        min_zoom <= max_zoom <= 30,
    ensures
        ranges_for(*feature, min_zoom, max_zoom, r@),
{
    let mut ranges: Vec<TileRange> = Vec::new();
    match &feature.geometry {
        Some(geometry) => match geometry.value.lonlat_bbox() {
            Some(bbox) => {
                let ghost positions = feature_positions(*feature);
                let mut zoom: u8 = min_zoom;
                while zoom <= max_zoom
                    invariant
                        min_zoom <= zoom <= max_zoom + 1,
                        max_zoom <= 30,
                        bbox.bounds(positions),
                        ranges.len() == zoom - min_zoom,
                        forall|k: int|
                            0 <= k < ranges.len() ==> ranges_over(
                                positions,
                                (min_zoom + k) as u8,
                                #[trigger] ranges[k],
                            ),
                    decreases max_zoom + 1 - zoom,
                {
                    ranges.push(tile_range(&bbox, zoom));
                    zoom = zoom + 1;
                }
            },
            None => {},
        },
        None => {},
    }
    ranges
}

/// Whether `ranges` are the rectangles of features, feature by feature.
pub open spec fn located(
    features: Seq<Feature>,
    min_zoom: u8,
    max_zoom: u8,
    ranges: Seq<Vec<TileRange>>,
) -> bool {
    &&& ranges.len() == features.len()
    &&& forall|i: int|
        0 <= i < ranges.len() ==> ranges_for(
            features[i],
            min_zoom,
            max_zoom,
            (#[trigger] ranges[i])@,
        )
}

/// Finds the tiles of every feature at each zoom level.
pub fn tile_ranges(features: &[Feature], min_zoom: u8, max_zoom: u8) -> (r: Vec<Vec<TileRange>>)
    requires
        min_zoom <= max_zoom <= 30,
    ensures
        located(features@, min_zoom, max_zoom, r@),
{
    let mut ranges: Vec<Vec<TileRange>> = Vec::new();
    for i in 0..features.len()
        invariant
            min_zoom <= max_zoom <= 30,
            located(features@.take(i as int), min_zoom, max_zoom, ranges@),
    {
        ranges.push(feature_ranges(&features[i], min_zoom, max_zoom));
    }
    assert(features@.take(features.len() as int) == features@);
    ranges
}

/// Whether none of the usable positions of a feature is west of the map.
pub open spec fn on_the_map(feature: Feature) -> bool {
    let positions = feature_positions(feature);
    forall|i: int|
        0 <= i < positions.len() && usable(#[trigger] positions[i]) ==> on_map(
            ordinates(positions[i])[0],
        )
}

/// A feature that is not west of the map has columns at every zoom level. Where
/// its rectangle has rows in order too, it lands in each tile of it, and so in
/// one at least.
pub proof fn law_lands_at_every_zoom(
    feature: Feature,
    ranges: Seq<TileRange>,
    min_zoom: u8,
    max_zoom: u8,
    zoom: u8,
    geometry: geojson::Geometry,
)
    requires
        min_zoom <= zoom <= max_zoom,
        feature.geometry == Some(geometry),
        projectable(geometry.value),
        any_usable(feature_positions(feature)),
        on_the_map(feature),
        ranges_for(feature, min_zoom, max_zoom, ranges),
    ensures
        ({
            let home = ranges[zoom - min_zoom];
            &&& home.min_col <= home.max_col
            &&& home.min_row <= home.max_row ==> lands(
                feature,
                ranges,
                min_zoom,
                Tile { zoom, col: home.min_col, row: home.min_row },
            )
            &&& forall|tile: Tile|
                tile.zoom == zoom ==> (#[trigger] lands(feature, ranges, min_zoom, tile)
                    <==> home.covers(tile.col, tile.row))
        }),
{
    let positions = feature_positions(feature);
    let home = ranges[zoom - min_zoom];
    assert(ranges_over(positions, zoom, home));
    let bbox = choose|bbox: LonLatBbox<'_>| #[trigger]
        bbox.bounds(positions) && spans(bbox.corners(), zoom, home) && columns_follow(
            bbox.corners(),
            home,
        );
    law_bbox_is_in_order(bbox, positions);
    let i = choose|i: int| 0 <= i < positions.len() && positions[i] == *bbox.west;
    assert(usable(positions[i]));
    let j = choose|j: int| 0 <= j < positions.len() && positions[j] == *bbox.east;
    assert(usable(positions[j]));
}

/// What features are placed by: the columns and the dimension of their layer,
/// the lowest zoom level, the extent of the tiles and the projection.
pub struct Plan<'a, X, Y, H> {
    pub schema: &'a Vec<(String, PropKind)>,
    pub dim: Dimension,
    pub min_zoom: u8,
    pub extent: u32,
    pub projection: &'a Projection<X, Y, H>,
}

/// Whether the rectangles, from `min_zoom` on, cover a tile.
pub open spec fn covered(ranges: Seq<TileRange>, min_zoom: u8, tile: Tile) -> bool {
    &&& min_zoom <= tile.zoom < min_zoom + ranges.len()
    &&& ranges[tile.zoom - min_zoom].covers(tile.col, tile.row)
}

/// Whether a feature with these rectangles lands in a tile.
pub open spec fn lands(feature: Feature, ranges: Seq<TileRange>, min_zoom: u8, tile: Tile) -> bool {
    &&& feature.geometry matches Some(geometry) && projectable(geometry.value)
    &&& covered(ranges, min_zoom, tile)
}

/// Which of the first `count` features land in a tile, in order.
pub open spec fn landing(
    features: Seq<Feature>,
    ranges: Seq<Vec<TileRange>>,
    min_zoom: u8,
    tile: Tile,
    count: int,
) -> Seq<int>
    decreases count,
{
    if count <= 0 {
        seq![]
    } else {
        let before = landing(features, ranges, min_zoom, tile, count - 1);
        if lands(features[count - 1], ranges[count - 1]@, min_zoom, tile) {
            before.push(count - 1)
        } else {
            before
        }
    }
}

/// The features of a tile keep their order, and a feature is among them exactly
/// if it lands in the tile.
pub proof fn law_landing_is_exact(
    features: Seq<Feature>,
    ranges: Seq<Vec<TileRange>>,
    min_zoom: u8,
    tile: Tile,
    count: int,
)
    requires
        0 <= count,
    ensures
        ({
            let indices = landing(features, ranges, min_zoom, tile, count);
            &&& forall|k: int| 0 <= k < indices.len() ==> 0 <= #[trigger] indices[k] < count
            &&& forall|j: int, k: int|
                0 <= j < k < indices.len() ==> #[trigger] indices[j] < #[trigger] indices[k]
            &&& forall|i: int|
                0 <= i < count ==> (#[trigger] indices.contains(i) <==> lands(
                    features[i],
                    ranges[i]@,
                    min_zoom,
                    tile,
                ))
        }),
    decreases count,
{
    if count > 0 {
        law_landing_is_exact(features, ranges, min_zoom, tile, count - 1);
        let before = landing(features, ranges, min_zoom, tile, count - 1);
        let indices = landing(features, ranges, min_zoom, tile, count);
        assert forall|i: int| 0 <= i < count implies (#[trigger] indices.contains(i) <==> lands(
            features[i],
            ranges[i]@,
            min_zoom,
            tile,
        )) by {
            if i < count - 1 {
                if before.contains(i) {
                    let k = choose|k: int| 0 <= k < before.len() && before[k] == i;
                    assert(indices[k] == i);
                }
                if indices.contains(i) {
                    let k = choose|k: int| 0 <= k < indices.len() && indices[k] == i;
                    assert(before[k] == i);
                }
            } else if lands(features[i], ranges[i]@, min_zoom, tile) {
                assert(indices[indices.len() - 1] == i);
            } else if indices.contains(i) {
                let k = choose|k: int| 0 <= k < indices.len() && indices[k] == i;
                assert(before[k] < count - 1);
            }
        }
    }
}

/// A feature lands only in tiles of the requested zoom levels that are on the
/// grid, and nowhere if it has no usable position.
pub proof fn law_lands_on_the_grid(
    feature: Feature,
    ranges: Seq<TileRange>,
    min_zoom: u8,
    max_zoom: u8,
    tile: Tile,
)
    requires
        min_zoom <= max_zoom,
        ranges_for(feature, min_zoom, max_zoom, ranges),
        lands(feature, ranges, min_zoom, tile),
    ensures
        any_usable(feature_positions(feature)),
        min_zoom <= tile.zoom <= max_zoom,
        tile.col < pow2(tile.zoom as nat),
        tile.row < pow2(tile.zoom as nat),
{
    let range = ranges[tile.zoom - min_zoom];
    assert(ranges_over(feature_positions(feature), tile.zoom, range));
}

/// The one tile of zoom level zero has every feature with a usable position and
/// a geometry that can be projected.
pub proof fn law_zoom_zero_has_all(
    feature: Feature,
    ranges: Seq<TileRange>,
    max_zoom: u8,
    geometry: geojson::Geometry,
)
    requires
        feature.geometry == Some(geometry),
        projectable(geometry.value),
        any_usable(feature_positions(feature)),
        ranges_for(feature, 0, max_zoom, ranges),
    ensures
        lands(feature, ranges, 0, Tile { zoom: 0, col: 0, row: 0 }),
{
    assert(ranges_over(feature_positions(feature), 0, ranges[0]));
    lemma2_to64();
}

/// A point lands in one column of each zoom level, and there in exactly one tile
/// where its rectangle is one row high.
pub proof fn law_points_land_in_one_column(
    feature: Feature,
    ranges: Seq<TileRange>,
    min_zoom: u8,
    max_zoom: u8,
    zoom: u8,
    geometry: geojson::Geometry,
)
    requires
        min_zoom <= zoom <= max_zoom,
        feature.geometry == Some(geometry),
        geometry.value is Point,
        any_usable(feature_positions(feature)),
        ranges_for(feature, min_zoom, max_zoom, ranges),
    ensures
        ({
            let home = ranges[zoom - min_zoom];
            &&& forall|tile: Tile|
                tile.zoom == zoom && #[trigger] lands(feature, ranges, min_zoom, tile) ==> tile.col
                    == home.min_col
            &&& home.min_row == home.max_row ==> forall|tile: Tile|
                tile.zoom == zoom ==> (#[trigger] lands(feature, ranges, min_zoom, tile) <==> tile
                    == (Tile { zoom, col: home.min_col, row: home.min_row }))
        }),
{
    let positions = feature_positions(feature);
    let home = ranges[zoom - min_zoom];
    assert(ranges_over(positions, zoom, home));
    let bbox = choose|bbox: LonLatBbox<'_>| #[trigger]
        bbox.bounds(positions) && spans(bbox.corners(), zoom, home) && columns_follow(
            bbox.corners(),
            home,
        );
    assert(positions.len() == 1);
    assert(*bbox.west == positions[0]);
    assert(*bbox.east == positions[0]);
}

/// Whether an entry is what a feature becomes in a tile: its identifier, an image
/// of its geometry and its values, column by column.
pub open spec fn renders<
    X: Fn(u64, u8, u32, u32) -> i32,
    Y: Fn(u64, u8, u32, u32) -> i32,
    H: Fn(u64) -> i32,
>(
    projection: Projection<X, Y, H>,
    columns: Seq<(Seq<char>, PropKind)>,
    frame: Frame,
    feature: Feature,
    entry: TileEntry,
) -> bool {
    &&& entry.id == id_of(feature)
    &&& values_for(feature, columns, entry.values@)
    &&& feature.geometry matches Some(geometry) && projection.images_value(
        geometry.value,
        frame,
        entry.wkt,
    )
}

impl<
    'a,
    X: Fn(u64, u8, u32, u32) -> i32,
    Y: Fn(u64, u8, u32, u32) -> i32,
    H: Fn(u64) -> i32,
> Plan<'a, X, Y, H> {
    /// Whether an entry is what a feature becomes in a tile.
    pub open spec fn renders(self, feature: Feature, tile: Tile, entry: TileEntry) -> bool {
        let frame = Frame { dim: self.dim, tile, extent: self.extent };
        renders(*self.projection, columns_of(self.schema@), frame, feature, entry)
    }

    /// A feature has the same identifier and the same values in every tile.
    pub proof fn law_tiles_share_values(
        self,
        feature: Feature,
        a: (Tile, TileEntry),
        b: (Tile, TileEntry),
    )
        requires
            self.renders(feature, a.0, a.1),
            self.renders(feature, b.0, b.1),
        ensures
            a.1.id == b.1.id,
            a.1.values.len() == b.1.values.len(),
            forall|i: int|
                0 <= i < a.1.values.len() ==> same_value(
                    #[trigger] a.1.values@[i],
                    b.1.values@[i],
                ),
    {
        law_values_agree(feature, columns_of(self.schema@), a.1.values@, b.1.values@);
    }

    /// Whether a tile holds exactly those of the first `count` features that
    /// land in it, in order.
    pub open spec fn fills(
        self,
        features: Seq<Feature>,
        ranges: Seq<Vec<TileRange>>,
        count: int,
        map: Map<Tile, Seq<TileEntry>>,
        tile: Tile,
    ) -> bool {
        let indices = landing(features, ranges, self.min_zoom, tile, count);
        let entries = entries_at(map, tile);
        &&& map.contains_key(tile) <==> indices.len() > 0
        &&& entries.len() == indices.len()
        &&& forall|k: int|
            0 <= k < entries.len() ==> self.renders(
                features[indices[k]],
                tile,
                #[trigger] entries[k],
            )
    }

    /// Whether every tile holds exactly those of the first `count` features that
    /// land in it.
    pub open spec fn filled(
        self,
        features: Seq<Feature>,
        ranges: Seq<Vec<TileRange>>,
        count: int,
        map: Map<Tile, Seq<TileEntry>>,
    ) -> bool {
        forall|tile: Tile| #[trigger] self.fills(features, ranges, count, map, tile)
    }

    /// Whether, from one map to the next, a tile gets the feature if it is due,
    /// and otherwise stays as it is.
    spec fn steps(
        self,
        feature: Feature,
        due: bool,
        before: Map<Tile, Seq<TileEntry>>,
        after: Map<Tile, Seq<TileEntry>>,
        tile: Tile,
    ) -> bool {
        if due {
            &&& after.contains_key(tile)
            &&& after[tile].len() == entries_at(before, tile).len() + 1
            &&& after[tile].drop_last() == entries_at(before, tile)
            &&& self.renders(feature, tile, after[tile].last())
        } else {
            &&& after.contains_key(tile) == before.contains_key(tile)
            &&& entries_at(after, tile) == entries_at(before, tile)
        }
    }

    /// Whether a walk over the rectangles has passed a tile: those of the first
    /// `k` zoom levels, and of the next one those before a column and a row.
    spec fn passed(self, k: int, col: int, row: int, tile: Tile) -> bool {
        let level = tile.zoom - self.min_zoom;
        ||| level < k
        ||| level == k && tile.col < col
        ||| level == k && tile.col == col && tile.row < row
    }

    /// Whether a feature that lands in a tile is due there, once a walk is at
    /// `(k, col, row)`.
    spec fn due(
        self,
        feature: Feature,
        ranges: Seq<TileRange>,
        at: (int, int, int),
        tile: Tile,
    ) -> bool {
        &&& lands(feature, ranges, self.min_zoom, tile)
        &&& self.passed(at.0, at.1, at.2, tile)
    }

    /// Whether a walk to `at` leads from one map to the next.
    spec fn walked(
        self,
        feature: Feature,
        ranges: Seq<TileRange>,
        at: (int, int, int),
        before: Map<Tile, Seq<TileEntry>>,
        after: Map<Tile, Seq<TileEntry>>,
    ) -> bool {
        forall|tile: Tile|
            self.steps(
                feature,
                #[trigger] self.due(feature, ranges, at, tile),
                before,
                after,
                tile,
            )
    }

    /// A walk that passes the same tiles leads to the same map.
    proof fn lemma_same_walk(
        self,
        feature: Feature,
        ranges: Seq<TileRange>,
        from: (int, int, int),
        to: (int, int, int),
        before: Map<Tile, Seq<TileEntry>>,
        after: Map<Tile, Seq<TileEntry>>,
    )
        requires
            self.walked(feature, ranges, from, before, after),
            forall|tile: Tile| #[trigger]
                lands(feature, ranges, self.min_zoom, tile) ==> self.passed(
                    from.0,
                    from.1,
                    from.2,
                    tile,
                ) == self.passed(to.0, to.1, to.2, tile),
        ensures
            self.walked(feature, ranges, to, before, after),
    {
        assert forall|tile: Tile|
            self.steps(
                feature,
                #[trigger] self.due(feature, ranges, to, tile),
                before,
                after,
                tile,
            ) by {
            assert(self.due(feature, ranges, from, tile) == self.due(feature, ranges, to, tile));
        }
    }

    /// Putting the feature into the next tile takes a walk one tile further.
    proof fn lemma_walk_on(
        self,
        feature: Feature,
        ranges: Seq<TileRange>,
        next: Tile,
        entry: TileEntry,
        before: Map<Tile, Seq<TileEntry>>,
        after: Map<Tile, Seq<TileEntry>>,
    )
        requires
            ({
                let k = next.zoom - self.min_zoom;
                self.walked(feature, ranges, (k, next.col as int, next.row as int), before, after)
            }),
            lands(feature, ranges, self.min_zoom, next),
            self.renders(feature, next, entry),
        ensures
            ({
                let k = next.zoom - self.min_zoom;
                self.walked(
                    feature,
                    ranges,
                    (k, next.col as int, next.row + 1),
                    before,
                    after.insert(next, entries_at(after, next).push(entry)),
                )
            }),
    {
        let k = next.zoom - self.min_zoom;
        let from = (k, next.col as int, next.row as int);
        let to = (k, next.col as int, next.row + 1);
        let moved = after.insert(next, entries_at(after, next).push(entry));
        assert forall|tile: Tile|
            self.steps(
                feature,
                #[trigger] self.due(feature, ranges, to, tile),
                before,
                moved,
                tile,
            ) by {
            let was_due = self.due(feature, ranges, from, tile);
            if tile == next {
                assert(!was_due);
                assert(entries_at(after, next).push(entry).drop_last() == entries_at(after, next));
            } else {
                assert(was_due == self.due(feature, ranges, to, tile));
            }
        }
    }

    /// Projects a feature into each of the tiles of its rectangles.
    fn place_feature(&self, feature: &Feature, ranges: &Vec<TileRange>, tiles: &mut TileMap)
        requires
            old(tiles).wf(),
            self.min_zoom + ranges.len() <= 31,
            self.projection.serves_all(self.extent),
        ensures
            final(tiles).wf(),
            forall|tile: Tile|
                self.steps(
                    *feature,
                    #[trigger] lands(*feature, ranges@, self.min_zoom, tile),
                    old(tiles)@,
                    final(tiles)@,
                    tile,
                ),
    {
        let geometry: &geojson::Geometry = match &feature.geometry {
            Some(geometry) => geometry,
            None => {
                return;
            },
        };
        let id: Option<u64> = feature_id(feature);
        let values: Rc<Vec<PropValue>> = Rc::new(feature_values(feature, self.schema));
        let ghost before = tiles@;
        assert(self.walked(*feature, ranges@, (0, 0, 0), before, before));
        for k in 0..ranges.len()
            invariant
                tiles.wf(),
                self.min_zoom + ranges.len() <= 31,
                self.projection.serves_all(self.extent),
                feature.geometry == Some(*geometry),
                id == id_of(*feature),
                values_for(*feature, columns_of(self.schema@), values@),
                self.walked(*feature, ranges@, (k as int, 0int, 0int), before, tiles@),
        {
            let range: TileRange = ranges[k];
            let zoom: u8 = self.min_zoom + k as u8;
            proof {
                self.lemma_same_walk(
                    *feature,
                    ranges@,
                    (k as int, 0, 0),
                    (k as int, range.min_col as int, 0),
                    before,
                    tiles@,
                );
            }
            let mut col: u64 = range.min_col as u64;
            while col <= range.max_col as u64
                invariant
                    k < ranges.len(),
                    range == ranges[k as int],
                    zoom == self.min_zoom + k,
                    range.min_col <= col,
                    col <= range.max_col + 1 || col == range.min_col,
                    tiles.wf(),
                    self.min_zoom + ranges.len() <= 31,
                    self.projection.serves_all(self.extent),
                    feature.geometry == Some(*geometry),
                    id == id_of(*feature),
                    values_for(*feature, columns_of(self.schema@), values@),
                    self.walked(*feature, ranges@, (k as int, col as int, 0int), before, tiles@),
                decreases range.max_col + 1 - col,
            {
                let mut row: u64 = range.min_row as u64;
                proof {
                    self.lemma_same_walk(
                        *feature,
                        ranges@,
                        (k as int, col as int, 0),
                        (k as int, col as int, row as int),
                        before,
                        tiles@,
                    );
                }
                while row <= range.max_row as u64
                    invariant
                        k < ranges.len(),
                        range == ranges[k as int],
                        zoom == self.min_zoom + k,
                        range.min_col <= col <= range.max_col,
                        range.min_row <= row,
                        row <= range.max_row + 1 || row == range.min_row,
                        tiles.wf(),
                        self.min_zoom + ranges.len() <= 31,
                        self.projection.serves_all(self.extent),
                        feature.geometry == Some(*geometry),
                        id == id_of(*feature),
                        values_for(*feature, columns_of(self.schema@), values@),
                        self.walked(
                            *feature,
                            ranges@,
                            (k as int, col as int, row as int),
                            before,
                            tiles@,
                        ),
                    decreases range.max_row + 1 - row,
                {
                    let tile: Tile = Tile { zoom, col: col as u32, row: row as u32 };
                    let frame: Frame = Frame { dim: self.dim, tile, extent: self.extent };
                    match project_geometry(&geometry.value, frame, self.projection) {
                        Some(wkt) => {
                            let entry: TileEntry = TileEntry { id, wkt, values: share(&values) };
                            proof {
                                self.lemma_walk_on(*feature, ranges@, tile, entry, before, tiles@);
                            }
                            tiles.push(tile, entry);
                        },
                        None => {
                            proof {
                                self.lemma_same_walk(
                                    *feature,
                                    ranges@,
                                    (k as int, col as int, row as int),
                                    (k as int, col as int, row + 1),
                                    before,
                                    tiles@,
                                );
                            }
                        },
                    }
                    row = row + 1;
                }
                proof {
                    self.lemma_same_walk(
                        *feature,
                        ranges@,
                        (k as int, col as int, row as int),
                        (k as int, col + 1, 0),
                        before,
                        tiles@,
                    );
                }
                col = col + 1;
            }
            proof {
                self.lemma_same_walk(
                    *feature,
                    ranges@,
                    (k as int, col as int, 0),
                    (k + 1, 0, 0),
                    before,
                    tiles@,
                );
            }
        }
        assert forall|tile: Tile|
            self.steps(
                *feature,
                #[trigger] lands(*feature, ranges@, self.min_zoom, tile),
                before,
                tiles@,
                tile,
            ) by {
            let end = (ranges.len() as int, 0int, 0int);
            assert(self.due(*feature, ranges@, end, tile) == lands(
                *feature,
                ranges@,
                self.min_zoom,
                tile,
            ));
        }
    }

    /// Projects every feature into each of the tiles of its rectangles. A tile
    /// holds exactly the features that land in it, in their order.
    pub fn place_features(&self, features: &[Feature], ranges: &Vec<Vec<TileRange>>) -> (r: TileMap)
        requires
            ranges.len() == features.len(),
            forall|i: int|
                0 <= i < ranges.len() ==> self.min_zoom + (#[trigger] ranges[i]).len() <= 31,
            self.projection.serves_all(self.extent),
        ensures
            r.wf(),
            self.filled(features@, ranges@, features.len() as int, r@),
    {
        let mut tiles: TileMap = TileMap::new();
        for i in 0..features.len()
            invariant
                tiles.wf(),
                ranges.len() == features.len(),
                forall|i: int|
                    0 <= i < ranges.len() ==> self.min_zoom + (#[trigger] ranges[i]).len() <= 31,
                self.projection.serves_all(self.extent),
                self.filled(features@, ranges@, i as int, tiles@),
        {
            let ghost before = tiles@;
            self.place_feature(&features[i], &ranges[i], &mut tiles);
            assert forall|tile: Tile| #[trigger]
                self.fills(features@, ranges@, i + 1, tiles@, tile) by {
                let feature = features@[i as int];
                let due = lands(feature, ranges[i as int]@, self.min_zoom, tile);
                let indices = landing(features@, ranges@, self.min_zoom, tile, i as int);
                assert(self.fills(features@, ranges@, i as int, before, tile));
                assert(self.steps(feature, due, before, tiles@, tile));
                let entries = entries_at(tiles@, tile);
                let all = landing(features@, ranges@, self.min_zoom, tile, i + 1);
                assert forall|k: int| 0 <= k < entries.len() implies self.renders(
                    features@[all[k]],
                    tile,
                    #[trigger] entries[k],
                ) by {
                    if k < indices.len() {
                        assert(all[k] == indices[k]);
                        assert(entries_at(before, tile)[k] == entries[k]);
                    }
                }
            }
        }
        tiles
    }
}

/// A layer is 3D exactly if a position of one of its features has a third ordinate.
pub proof fn law_one_altitude_makes_a_layer_3d(features: Seq<Feature>)
    ensures
        dimension_of(features) is XYZ <==> exists|i: int, k: int|
            0 <= i < features.len() && features[i].geometry is Some && 0 <= k < value_positions(
                features[i].geometry->0.value,
            ).len() && ordinates(
                #[trigger] value_positions(features[i].geometry->0.value)[k],
            ).len() >= 3,
{
    if carries_z(features) {
        let i = choose|i: int|
            0 <= i < features.len() && any_z(feature_positions(#[trigger] features[i]));
        let positions = feature_positions(features[i]);
        let k = choose|k: int|
            0 <= k < positions.len() && ordinates(#[trigger] positions[k]).len() >= 3;
        assert(ordinates(value_positions(features[i].geometry->0.value)[k]).len() >= 3);
    }
    if exists|i: int, k: int|
        0 <= i < features.len() && features[i].geometry is Some && 0 <= k < value_positions(
            features[i].geometry->0.value,
        ).len() && ordinates(#[trigger] value_positions(features[i].geometry->0.value)[k]).len()
            >= 3 {
        let (i, k) = choose|i: int, k: int|
            0 <= i < features.len() && features[i].geometry is Some && 0 <= k < value_positions(
                features[i].geometry->0.value,
            ).len() && ordinates(
                #[trigger] value_positions(features[i].geometry->0.value)[k],
            ).len() >= 3;
        assert(ordinates(feature_positions(features[i])[k]).len() >= 3);
        assert(any_z(feature_positions(features[i])));
    }
}

/// Collections are found wherever they stand among the features.
pub proof fn law_collections_are_found(features: Seq<Feature>)
    ensures
        any_collection(features) <==> exists|i: int|
            0 <= i < features.len() && (#[trigger] features[i]).geometry is Some
                && features[i].geometry->0.value is GeometryCollection,
{
    if any_collection(features) {
        let i = choose|i: int| 0 <= i < features.len() && is_collection(#[trigger] features[i]);
        assert(features[i].geometry->0.value is GeometryCollection);
    }
    if exists|i: int|
        0 <= i < features.len() && (#[trigger] features[i]).geometry is Some
            && features[i].geometry->0.value is GeometryCollection {
        let i = choose|i: int|
            0 <= i < features.len() && (#[trigger] features[i]).geometry is Some
                && features[i].geometry->0.value is GeometryCollection;
        assert(is_collection(features[i]));
    }
}

/// The rectangle of a feature at a zoom level is what its bounding box spans
/// there, from the first to the last row and column: the box whose sides are the
/// least and the greatest longitude and latitude of its positions.
pub proof fn law_rectangles_are_what_the_box_spans(
    feature: Feature,
    min_zoom: u8,
    max_zoom: u8,
    ranges: Seq<TileRange>,
    zoom: u8,
    geometry: geojson::Geometry,
    some: int,
)
    requires
        min_zoom <= zoom <= max_zoom,
        feature.geometry == Some(geometry),
        0 <= some < value_positions(geometry.value).len(),
        ordinates(value_positions(geometry.value)[some]).len() >= 2,
        ranges_for(feature, min_zoom, max_zoom, ranges),
    ensures
        ranges.len() == max_zoom - min_zoom + 1,
        ({
            let positions = value_positions(geometry.value);
            let home = ranges[zoom - min_zoom];
            exists|sides: (u64, u64, u64, u64)| #[trigger]
                spans(sides, zoom, home) && {
                    &&& exists|i: int|
                        0 <= i < positions.len() && ordinates(#[trigger] positions[i]).len() >= 2
                            && ordinates(positions[i])[0] == sides.0
                    &&& exists|i: int|
                        0 <= i < positions.len() && ordinates(#[trigger] positions[i]).len() >= 2
                            && ordinates(positions[i])[1] == sides.1
                    &&& exists|i: int|
                        0 <= i < positions.len() && ordinates(#[trigger] positions[i]).len() >= 2
                            && ordinates(positions[i])[0] == sides.2
                    &&& exists|i: int|
                        0 <= i < positions.len() && ordinates(#[trigger] positions[i]).len() >= 2
                            && ordinates(positions[i])[1] == sides.3
                    &&& forall|i: int|
                        0 <= i < positions.len() && ordinates(#[trigger] positions[i]).len() >= 2
                            ==> {
                            let (lon, lat) = (
                                ordinates(positions[i])[0],
                                ordinates(positions[i])[1],
                            );
                            &&& !less(lon, sides.0) && !less(sides.2, lon)
                            &&& !less(lat, sides.1) && !less(sides.3, lat)
                            &&& !nan(lon) ==> !nan(sides.0) && !nan(sides.2)
                            &&& !nan(lat) ==> !nan(sides.1) && !nan(sides.3)
                        }
                }
        }),
{
    let positions = value_positions(geometry.value);
    assert(feature_positions(feature) == positions);
    assert(usable(positions[some]));
    let home = ranges[zoom - min_zoom];
    assert(ranges_over(positions, zoom, home));
    let bbox = choose|bbox: LonLatBbox<'_>| #[trigger]
        bbox.bounds(positions) && spans(bbox.corners(), zoom, home) && columns_follow(
            bbox.corners(),
            home,
        );
    law_bbox_is_tight(bbox, positions);
    assert(spans(bbox.corners(), zoom, home));
}

/// A feature without geometry, or without a position of two ordinates, has no
/// rectangle at any zoom level.
pub proof fn law_nowhere_without_positions(
    feature: Feature,
    min_zoom: u8,
    max_zoom: u8,
    ranges: Seq<TileRange>,
)
    requires
        ranges_for(feature, min_zoom, max_zoom, ranges),
        feature.geometry matches Some(geometry) ==> forall|i: int|
            0 <= i < value_positions(geometry.value).len() ==> ordinates(
                #[trigger] value_positions(geometry.value)[i],
            ).len() < 2,
    ensures
        ranges.len() == 0,
{
    law_positions_by_their_ordinates(feature_positions(feature));
}

/// Every feature has its own rectangles, none those of another.
pub proof fn law_every_feature_is_located(
    features: Seq<Feature>,
    min_zoom: u8,
    max_zoom: u8,
    ranges: Seq<Vec<TileRange>>,
    i: int,
)
    requires
        located(features, min_zoom, max_zoom, ranges),
        0 <= i < features.len(),
    ensures
        ranges.len() == features.len(),
        ranges_for(features[i], min_zoom, max_zoom, ranges[i]@),
{
}

/// A feature lands in a tile exactly if it has a geometry, which is no collection
/// and has a position, and its rectangle of the tile's zoom level has the tile's
/// column and row.
pub proof fn law_lands_in_its_rectangle(
    feature: Feature,
    ranges: Seq<TileRange>,
    min_zoom: u8,
    tile: Tile,
)
    ensures
        lands(feature, ranges, min_zoom, tile) <==> {
            &&& feature.geometry is Some
            &&& !(feature.geometry->0.value is GeometryCollection)
            &&& value_positions(feature.geometry->0.value).len() > 0
            &&& 0 <= tile.zoom - min_zoom < ranges.len()
            &&& ranges[tile.zoom - min_zoom].min_col <= tile.col
            &&& tile.col <= ranges[tile.zoom - min_zoom].max_col
            &&& ranges[tile.zoom - min_zoom].min_row <= tile.row
            &&& tile.row <= ranges[tile.zoom - min_zoom].max_row
        },
{
}

impl<
    'a,
    X: Fn(u64, u8, u32, u32) -> i32,
    Y: Fn(u64, u8, u32, u32) -> i32,
    H: Fn(u64) -> i32,
> Plan<'a, X, Y, H> {
    /// A tile holds every feature whose rectangle of the zoom level has it, in the
    /// order of the features, and no other. Each is there with its identifier, its
    /// values and an image of its whole geometry in that tile. A tile without
    /// features is not there. Gives the places of the tile's features.
    pub proof fn law_tiles_hold_what_lands_in_them(
        self,
        features: Seq<Feature>,
        ranges: Seq<Vec<TileRange>>,
        map: Map<Tile, Seq<TileEntry>>,
        tile: Tile,
    ) -> (indices: Seq<int>)
        requires
            self.filled(features, ranges, features.len() as int, map),
        ensures
            forall|j: int, k: int|
                0 <= j < k < indices.len() ==> #[trigger] indices[j] < #[trigger] indices[k],
            forall|i: int| #[trigger]
                indices.contains(i) <==> {
                    &&& 0 <= i < features.len()
                    &&& features[i].geometry is Some
                    &&& !(features[i].geometry->0.value is GeometryCollection)
                    &&& value_positions(features[i].geometry->0.value).len() > 0
                    &&& 0 <= tile.zoom - self.min_zoom < ranges[i]@.len()
                    &&& ranges[i]@[tile.zoom - self.min_zoom].min_col <= tile.col
                    &&& tile.col <= ranges[i]@[tile.zoom - self.min_zoom].max_col
                    &&& ranges[i]@[tile.zoom - self.min_zoom].min_row <= tile.row
                    &&& tile.row <= ranges[i]@[tile.zoom - self.min_zoom].max_row
                },
            map.contains_key(tile) <==> indices.len() > 0,
            map.contains_key(tile) ==> map[tile].len() == indices.len(),
            forall|k: int|
                0 <= k < indices.len() ==> {
                    let feature = features[#[trigger] indices[k]];
                    let entry = map[tile][k];
                    &&& entry.id == id_of(feature)
                    &&& values_for(feature, columns_of(self.schema@), entry.values@)
                    &&& self.projection.images_value(
                        feature.geometry->0.value,
                        Frame { dim: self.dim, tile, extent: self.extent },
                        entry.wkt,
                    )
                },
    {
        let count = features.len() as int;
        let indices = landing(features, ranges, self.min_zoom, tile, count);
        assert(self.fills(features, ranges, count, map, tile));
        law_landing_is_exact(features, ranges, self.min_zoom, tile, count);
        assert forall|i: int| #[trigger] indices.contains(i) implies 0 <= i < count by {
            let k = choose|k: int| 0 <= k < indices.len() && indices[k] == i;
            assert(0 <= indices[k] < count);
        }
        assert forall|k: int| 0 <= k < indices.len() implies self.renders(
            features[#[trigger] indices[k]],
            tile,
            map[tile][k],
        ) by {
            let entries = entries_at(map, tile);
            assert(entries[k] == map[tile][k]);
        }
        indices
    }

    /// What a feature becomes in a tile has, for each of its positions, the vertex
    /// that the projection gives, and a value for each column.
    pub proof fn law_features_are_rendered_whole(
        self,
        feature: Feature,
        tile: Tile,
        entry: TileEntry,
        i: int,
    )
        requires
            self.renders(feature, tile, entry),
        ensures
            entry.values@.len() == self.schema@.len(),
            feature.geometry is Some,
            wkt_coords(entry.wkt).len() == value_positions(feature.geometry->0.value).len(),
            0 <= i < wkt_coords(entry.wkt).len() ==> {
                let ordinates = ordinates(value_positions(feature.geometry->0.value)[i]);
                let c = wkt_coords(entry.wkt)[i];
                &&& ordinates.len() >= 2 ==> {
                    &&& self.projection.east.ensures(
                        (ordinates[0], tile.zoom, tile.col, self.extent),
                        c.x,
                    )
                    &&& self.projection.south.ensures(
                        (ordinates[1], tile.zoom, tile.row, self.extent),
                        c.y,
                    )
                }
                &&& c.z is Some <==> self.dim is XYZ
            },
    {
        let frame = Frame { dim: self.dim, tile, extent: self.extent };
        let value = feature.geometry->0.value;
        self.projection.law_nothing_is_clipped(value, frame, entry.wkt);
        if 0 <= i < wkt_coords(entry.wkt).len() {
            self.projection.law_vertices_are_projected(value, frame, entry.wkt, i);
        }
    }
}

} // verus!
