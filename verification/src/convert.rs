//! The whole conversion: from the arguments and the text of a document to the
//! encoded tiles.

use std::path::PathBuf;

use geojson::{Feature, GeoJson};
use mlt_core::PropKind;
use vstd::arithmetic::power2::pow2;
use vstd::prelude::*;

use crate::encode::{
    answers, distinct, encode_tiles, encoded_from, encoding, fails, law_only_3d_layers_rise,
    left_out, misfits, outcome, rises, rising, tile_fault, written, yields, EncodeError,
    EncodedTile,
};
use crate::geometry::{any_usable, projectable, value_positions, Frame};
use crate::json::{parse_geojson, parsed_geojson};
use crate::mercator::{max_zoom, TileRange};
use crate::placement::{
    any_collection, dimension_of, feature_positions, has_collection, landing, lands,
    law_collections_are_found, law_landing_is_exact, law_lands_on_the_grid, layer_dimension,
    located, ranges_for, renders, tile_ranges, Plan,
};
use crate::project::{Projection, Tile};
use crate::properties::{
    all_entries, columns_for, columns_of, first_seen, id_of, infer_schema,
    law_columns_are_the_names, law_columns_of_a_schema, law_values_fit, values_for,
};
use crate::tiles::{entries_at, TileEntry, TileMap};
use crate::wkt::Dimension;

verus! {

/// A path of the file system.
#[verifier::external_type_specification]
#[verifier::external_body]
pub struct ExPathBuf(std::path::PathBuf);

/// What to convert, and how.
pub struct GeoJsonArgs {
    /// Input `GeoJSON` file (`FeatureCollection`, single `Feature`, or bare geometry)
    pub input: PathBuf,
    /// Output directory for the `z/x/y.mlt` tile tree
    pub output: PathBuf,
    /// Lowest zoom level to generate
    pub min_zoom: u8,
    /// Highest zoom level to generate
    pub max_zoom: u8,
    /// MLT layer name (defaults to the input file stem)
    pub layer: Option<String>,
    /// Tile extent grid (vertices per tile edge)
    pub extent: u32,
}

/// What is wrong with the arguments.
#[derive(Clone, Copy, Debug, PartialEq, Eq, Structural)]
pub enum ArgsError {
    /// The lowest zoom level is above the highest.
    MinAboveMax,
    /// The highest zoom level is above the deepest of the grid.
    MaxAboveLimit,
    /// The extent is zero.
    ZeroExtent,
    /// There is neither a layer name nor a file stem.
    NoLayerName,
}

/// Why a document cannot be converted.
#[derive(Debug)]
pub enum GeoJsonError {
    Args(ArgsError),
    /// The text is no `GeoJSON`.
    Parse(geojson::Error),
    /// A feature has a geometry collection, which a layer cannot hold.
    Collection,
    Encode(EncodeError),
}

impl GeoJsonArgs {
    /// Whether the zoom levels and the extent can be used.
    pub open spec fn valid(self) -> bool {
        self.min_zoom <= self.max_zoom <= 30 && self.extent > 0
    }

    /// The name of the layer, given the stem of the input file.
    pub open spec fn layer_name(self, stem: Option<Seq<char>>) -> Option<Seq<char>> {
        match self.layer {
            Some(name) => Some(name@),
            None => stem,
        }
    }

    /// What is wrong with the arguments, given the stem of the input file.
    pub open spec fn error(self, stem: Option<Seq<char>>) -> Option<ArgsError> {
        if self.min_zoom > self.max_zoom {
            Some(ArgsError::MinAboveMax)
        } else if self.max_zoom > 30 {
            Some(ArgsError::MaxAboveLimit)
        } else if self.extent == 0 {
            Some(ArgsError::ZeroExtent)
        } else if self.layer_name(stem) is None {
            Some(ArgsError::NoLayerName)
        } else {
            None
        }
    }

    /// Checks the arguments and gives the name of the layer. The file stem is
    /// `None` where the input has none, or none that is text.
    pub fn check(&self, stem: &Option<String>) -> (r: Result<String, ArgsError>)
        ensures
            ({
                let stem = text_of_stem(*stem);
                match r {
                    Ok(name) => {
                        &&& self.error(stem) is None
                        &&& self.layer_name(stem) == Some(name@)
                    },
                    Err(e) => self.error(stem) == Some(e),
                }
            }),
    {
        if self.min_zoom > self.max_zoom {
            return Err(ArgsError::MinAboveMax);
        }
        if self.max_zoom > max_zoom() {
            return Err(ArgsError::MaxAboveLimit);
        }
        if self.extent == 0 {
            return Err(ArgsError::ZeroExtent);
        }
        match (&self.layer, stem) {
            (Some(name), _) => Ok(name.clone()),
            (None, Some(stem)) => Ok(stem.clone()),
            (None, None) => Err(ArgsError::NoLayerName),
        }
    }
}

/// The text of a file stem.
pub open spec fn text_of_stem(stem: Option<String>) -> Option<Seq<char>> {
    match stem {
        Some(stem) => Some(stem@),
        None => None,
    }
}

/// The features of a document. A bare geometry is that of a feature without
/// identifier and properties.
pub open spec fn features_of(document: GeoJson) -> Seq<Feature> {
    match document {
        GeoJson::FeatureCollection(collection) => collection.features@,
        GeoJson::Feature(feature) => seq![feature],
        GeoJson::Geometry(geometry) => seq![
            Feature {
                bbox: None,
                geometry: Some(geometry),
                id: None,
                properties: None,
                foreign_members: None,
            },
        ],
    }
}

/// Flattens any document into a list of features. A bare geometry becomes a
/// single feature with no id and no properties.
pub fn normalize_to_features(geojson: GeoJson) -> (r: Vec<Feature>)
    ensures
        r@ == features_of(geojson),
{
    match geojson {
        GeoJson::FeatureCollection(collection) => collection.features,
        GeoJson::Feature(feature) => vec![feature],
        GeoJson::Geometry(geometry) => vec![
            Feature {
                bbox: None,
                geometry: Some(geometry),
                id: None,
                properties: None,
                foreign_members: None,
            },
        ],
    }
}

/// The one layer of a document, cut into tiles.
pub struct TiledLayer {
    pub schema: Vec<(String, PropKind)>,
    pub dim: Dimension,
    pub tiles: TileMap,
}

/// What the features of a layer are placed by.
pub open spec fn plan_for<
    'a,
    X: Fn(u64, u8, u32, u32) -> i32,
    Y: Fn(u64, u8, u32, u32) -> i32,
    H: Fn(u64) -> i32,
>(
    args: GeoJsonArgs,
    projection: &'a Projection<X, Y, H>,
    layer: &'a TiledLayer,
) -> Plan<'a, X, Y, H> {
    Plan {
        schema: &layer.schema,
        dim: layer.dim,
        min_zoom: args.min_zoom,
        extent: args.extent,
        projection,
    }
}

/// Whether `layer` holds the features, each in every tile that it lands in.
pub open spec fn tiled<
    X: Fn(u64, u8, u32, u32) -> i32,
    Y: Fn(u64, u8, u32, u32) -> i32,
    H: Fn(u64) -> i32,
>(
    features: Seq<Feature>,
    args: GeoJsonArgs,
    projection: Projection<X, Y, H>,
    layer: TiledLayer,
) -> bool {
    &&& columns_of(layer.schema@) == columns_for(all_entries(features))
    &&& layer.dim == dimension_of(features)
    &&& layer.tiles.wf()
    &&& exists|ranges: Vec<Vec<TileRange>>| #[trigger]
        located(features, args.min_zoom, args.max_zoom, ranges@) && plan_for(
            args,
            &projection,
            &layer,
        ).filled(features, ranges@, features.len() as int, layer.tiles@)
}

/// The rectangles by which the features of a layer were placed.
proof fn lemma_ranges<
    X: Fn(u64, u8, u32, u32) -> i32,
    Y: Fn(u64, u8, u32, u32) -> i32,
    H: Fn(u64) -> i32,
>(
    features: Seq<Feature>,
    args: GeoJsonArgs,
    projection: Projection<X, Y, H>,
    layer: TiledLayer,
) -> (ranges: Vec<Vec<TileRange>>)
    requires
        tiled(features, args, projection, layer),
    ensures
        located(features, args.min_zoom, args.max_zoom, ranges@),
        plan_for(args, &projection, &layer).filled(
            features,
            ranges@,
            features.len() as int,
            layer.tiles@,
        ),
{
    choose|ranges: Vec<Vec<TileRange>>| #[trigger]
        located(features, args.min_zoom, args.max_zoom, ranges@) && plan_for(
            args,
            &projection,
            &layer,
        ).filled(features, ranges@, features.len() as int, layer.tiles@)
}

/// Whether an entry is what one of the features, which has a geometry that can
/// be projected, becomes in a tile.
pub open spec fn stems_from<
    X: Fn(u64, u8, u32, u32) -> i32,
    Y: Fn(u64, u8, u32, u32) -> i32,
    H: Fn(u64) -> i32,
>(
    features: Seq<Feature>,
    args: GeoJsonArgs,
    projection: Projection<X, Y, H>,
    layer: TiledLayer,
    tile: Tile,
    entry: TileEntry,
) -> bool {
    let columns = columns_of(layer.schema@);
    let frame = Frame { dim: layer.dim, tile, extent: args.extent };
    exists|i: int|
        0 <= i < features.len() && renders(
            projection,
            columns,
            frame,
            #[trigger] features[i],
            entry,
        ) && (features[i].geometry matches Some(geometry) && projectable(geometry.value))
}

/// What holds of every tile of a layer: it has features, it is on the grid of a
/// requested zoom level, and each of its features was projected into it with
/// the values of the layer's columns.
pub proof fn law_every_tile<
    X: Fn(u64, u8, u32, u32) -> i32,
    Y: Fn(u64, u8, u32, u32) -> i32,
    H: Fn(u64) -> i32,
>(
    features: Seq<Feature>,
    args: GeoJsonArgs,
    projection: Projection<X, Y, H>,
    layer: TiledLayer,
    tile: Tile,
)
    requires
        args.valid(),
        tiled(features, args, projection, layer),
        layer.tiles@.contains_key(tile),
    ensures
        layer.tiles@[tile].len() > 0,
        args.min_zoom <= tile.zoom <= args.max_zoom,
        tile.col < pow2(tile.zoom as nat),
        tile.row < pow2(tile.zoom as nat),
        forall|k: int|
            0 <= k < layer.tiles@[tile].len() ==> stems_from(
                features,
                args,
                projection,
                layer,
                tile,
                #[trigger] layer.tiles@[tile][k],
            ),
{
    let plan = plan_for(args, &projection, &layer);
    let n = features.len() as int;
    let ranges = lemma_ranges(features, args, projection, layer);
    let indices = landing(features, ranges@, args.min_zoom, tile, n);
    assert(plan.fills(features, ranges@, n, layer.tiles@, tile));
    law_landing_is_exact(features, ranges@, args.min_zoom, tile, n);
    assert forall|k: int| 0 <= k < indices.len() implies lands(
        features[#[trigger] indices[k]],
        ranges@[indices[k]]@,
        args.min_zoom,
        tile,
    ) by {
        assert(indices.contains(indices[k]));
    }
    let first = indices[0];
    assert(ranges_for(features[first], args.min_zoom, args.max_zoom, ranges@[first]@));
    law_lands_on_the_grid(
        features[first],
        ranges@[first]@,
        args.min_zoom,
        args.max_zoom,
        tile,
    );
    assert forall|k: int| 0 <= k < layer.tiles@[tile].len() implies stems_from(
        features,
        args,
        projection,
        layer,
        tile,
        #[trigger] layer.tiles@[tile][k],
    ) by {
        let entry = layer.tiles@[tile][k];
        assert(entries_at(layer.tiles@, tile)[k] == entry);
        assert(plan.renders(features[indices[k]], tile, entry));
    }
}

/// A feature of a tile has a Z exactly in a 3D layer, and its values are of the
/// kinds of their columns.
proof fn lemma_entry<
    X: Fn(u64, u8, u32, u32) -> i32,
    Y: Fn(u64, u8, u32, u32) -> i32,
    H: Fn(u64) -> i32,
>(
    features: Seq<Feature>,
    args: GeoJsonArgs,
    projection: Projection<X, Y, H>,
    layer: TiledLayer,
    tile: Tile,
    entry: TileEntry,
)
    requires
        stems_from(features, args, projection, layer, tile, entry),
    ensures
        rises(entry.wkt) <==> layer.dim == Dimension::XYZ,
        !misfits(columns_of(layer.schema@), entry.values@),
{
    let columns = columns_of(layer.schema@);
    let frame = Frame { dim: layer.dim, tile, extent: args.extent };
    let i = choose|i: int|
        0 <= i < features.len() && renders(
            projection,
            columns,
            frame,
            #[trigger] features[i],
            entry,
        ) && (features[i].geometry matches Some(geometry) && projectable(geometry.value));
    law_only_3d_layers_rise(projection, features[i].geometry->0.value, frame, entry.wkt);
    law_values_fit(features[i], columns, entry.values@);
}

/// Every tile has the dimension of the layer: one of a 3D layer has a Z, and one
/// of a 2D layer has none.
pub proof fn law_tiles_have_one_dimension<
    X: Fn(u64, u8, u32, u32) -> i32,
    Y: Fn(u64, u8, u32, u32) -> i32,
    H: Fn(u64) -> i32,
>(
    features: Seq<Feature>,
    args: GeoJsonArgs,
    projection: Projection<X, Y, H>,
    layer: TiledLayer,
    tile: Tile,
)
    requires
        args.valid(),
        tiled(features, args, projection, layer),
        layer.tiles@.contains_key(tile),
    ensures
        rising(layer.tiles@[tile]) <==> dimension_of(features) == Dimension::XYZ,
{
    let entries = layer.tiles@[tile];
    law_every_tile(features, args, projection, layer, tile);
    assert forall|k: int| 0 <= k < entries.len() implies (rises((#[trigger] entries[k]).wkt)
        <==> layer.dim == Dimension::XYZ) by {
        lemma_entry(features, args, projection, layer, tile, entries[k]);
    }
    assert(rises(entries[0].wkt) <==> layer.dim == Dimension::XYZ);
}

/// The features of a tile, under a layer name, are without fault: the inferred
/// columns are distinct, and every value is of the kind of its column.
pub proof fn law_tiles_are_without_fault<
    X: Fn(u64, u8, u32, u32) -> i32,
    Y: Fn(u64, u8, u32, u32) -> i32,
    H: Fn(u64) -> i32,
>(
    features: Seq<Feature>,
    args: GeoJsonArgs,
    projection: Projection<X, Y, H>,
    layer: TiledLayer,
    name: Seq<char>,
    tile: Tile,
)
    requires
        args.valid(),
        name.len() > 0,
        tiled(features, args, projection, layer),
        layer.tiles@.contains_key(tile),
    ensures
        tile_fault(name, args.extent, columns_of(layer.schema@), layer.tiles@[tile]) is None,
{
    let columns = columns_of(layer.schema@);
    let entries = layer.tiles@[tile];
    law_every_tile(features, args, projection, layer, tile);
    law_columns_are_the_names(all_entries(features));
    assert(distinct(columns)) by {
        let names = first_seen(all_entries(features));
        assert forall|i: int, j: int| 0 <= i < j < columns.len() implies (#[trigger] columns[i]).0
            != (#[trigger] columns[j]).0 by {
            assert(columns[i].0 == names[i]);
            assert(columns[j].0 == names[j]);
        }
    }
    assert forall|k: int| 0 <= k < entries.len() implies !misfits(
        columns,
        (#[trigger] entries[k]).values@,
    ) by {
        lemma_entry(features, args, projection, layer, tile, entries[k]);
    }
}

/// Decides the dimension and the schema of the layer, and projects every
/// feature into each tile that its bounding box spans.
pub fn tile_features<
    X: Fn(u64, u8, u32, u32) -> i32,
    Y: Fn(u64, u8, u32, u32) -> i32,
    H: Fn(u64) -> i32,
>(
    features: &[Feature],
    args: &GeoJsonArgs,
    projection: &Projection<X, Y, H>,
) -> (layer: TiledLayer)
    requires
        args.valid(),
        projection.serves_all(args.extent),
    ensures
        tiled(features@, *args, *projection, layer),
{
    let dim: Dimension = layer_dimension(features);
    let schema: Vec<(String, PropKind)> = infer_schema(features);
    let ranges: Vec<Vec<TileRange>> = tile_ranges(features, args.min_zoom, args.max_zoom);
    let plan = Plan {
        schema: &schema,
        dim,
        min_zoom: args.min_zoom,
        extent: args.extent,
        projection,
    };
    let tiles: TileMap = plan.place_features(features, &ranges);
    TiledLayer { schema, dim, tiles }
}

/// Whether `r` is what comes of encoding a layer.
pub open spec fn encoded_as<
    E: Fn(&str, u32, &[(String, PropKind)], &[TileEntry]) -> Result<Vec<u8>, EncodeError>,
>(
    spatial: E,
    name: Seq<char>,
    extent: u32,
    layer: TiledLayer,
    r: Result<Vec<EncodedTile>, GeoJsonError>,
) -> bool {
    let columns = columns_of(layer.schema@);
    match r {
        Ok(out) => encoding(spatial, name, extent, columns, layer.tiles@, Ok(out)),
        Err(GeoJsonError::Encode(e)) => encoding(
            spatial,
            name,
            extent,
            columns,
            layer.tiles@,
            Err(e),
        ),
        Err(_) => false,
    }
}

/// Whether `r` is what comes of converting features.
pub open spec fn converted<
    X: Fn(u64, u8, u32, u32) -> i32,
    Y: Fn(u64, u8, u32, u32) -> i32,
    H: Fn(u64) -> i32,
    E: Fn(&str, u32, &[(String, PropKind)], &[TileEntry]) -> Result<Vec<u8>, EncodeError>,
>(
    features: Seq<Feature>,
    name: Seq<char>,
    args: GeoJsonArgs,
    projection: Projection<X, Y, H>,
    spatial: E,
    r: Result<Vec<EncodedTile>, GeoJsonError>,
) -> bool {
    if any_collection(features) {
        r matches Err(e) && e is Collection
    } else {
        exists|layer: TiledLayer| #[trigger]
            tiled(features, args, projection, layer) && encoded_as(
                spatial,
                name,
                args.extent,
                layer,
                r,
            )
    }
}

/// The layer that was encoded.
proof fn lemma_layer<
    X: Fn(u64, u8, u32, u32) -> i32,
    Y: Fn(u64, u8, u32, u32) -> i32,
    H: Fn(u64) -> i32,
    E: Fn(&str, u32, &[(String, PropKind)], &[TileEntry]) -> Result<Vec<u8>, EncodeError>,
>(
    features: Seq<Feature>,
    name: Seq<char>,
    args: GeoJsonArgs,
    projection: Projection<X, Y, H>,
    spatial: E,
    r: Result<Vec<EncodedTile>, GeoJsonError>,
) -> (layer: TiledLayer)
    requires
        !any_collection(features),
        converted(features, name, args, projection, spatial, r),
    ensures
        tiled(features, args, projection, layer),
        encoded_as(spatial, name, args.extent, layer, r),
{
    choose|layer: TiledLayer| #[trigger]
        tiled(features, args, projection, layer) && encoded_as(
            spatial,
            name,
            args.extent,
            layer,
            r,
        )
}

/// Every tile that is written is on the grid of a requested zoom level, and
/// none is written twice.
pub proof fn law_written_tiles<
    X: Fn(u64, u8, u32, u32) -> i32,
    Y: Fn(u64, u8, u32, u32) -> i32,
    H: Fn(u64) -> i32,
    E: Fn(&str, u32, &[(String, PropKind)], &[TileEntry]) -> Result<Vec<u8>, EncodeError>,
>(
    features: Seq<Feature>,
    name: Seq<char>,
    args: GeoJsonArgs,
    projection: Projection<X, Y, H>,
    spatial: E,
    out: Vec<EncodedTile>,
)
    requires
        args.valid(),
        converted(features, name, args, projection, spatial, Ok(out)),
    ensures
        forall|i: int|
            0 <= i < out.len() ==> {
                &&& args.min_zoom <= (#[trigger] out[i]).tile.zoom <= args.max_zoom
                &&& out[i].tile.col < pow2(out[i].tile.zoom as nat)
                &&& out[i].tile.row < pow2(out[i].tile.zoom as nat)
            },
        forall|i: int, j: int|
            0 <= i < j < out.len() ==> (#[trigger] out[i]).tile != (#[trigger] out[j]).tile,
{
    let layer = lemma_layer(features, name, args, projection, spatial, Ok(out));
    assert forall|i: int| 0 <= i < out.len() implies {
        &&& args.min_zoom <= (#[trigger] out[i]).tile.zoom <= args.max_zoom
        &&& out[i].tile.col < pow2(out[i].tile.zoom as nat)
        &&& out[i].tile.row < pow2(out[i].tile.zoom as nat)
    } by {
        law_every_tile(features, args, projection, layer, out[i].tile);
    }
}

/// Whether entries are what the features at `indices`, of which there are some,
/// become in a tile, one for one, in a layer with the inferred columns and
/// dimension.
pub open spec fn turn_into<
    X: Fn(u64, u8, u32, u32) -> i32,
    Y: Fn(u64, u8, u32, u32) -> i32,
    H: Fn(u64) -> i32,
>(
    features: Seq<Feature>,
    args: GeoJsonArgs,
    projection: Projection<X, Y, H>,
    indices: Seq<int>,
    tile: Tile,
    entries: Seq<TileEntry>,
) -> bool {
    let columns = columns_for(all_entries(features));
    let frame = Frame { dim: dimension_of(features), tile, extent: args.extent };
    &&& rising(entries) <==> dimension_of(features) == Dimension::XYZ
    &&& entries.len() == indices.len()
    &&& entries.len() > 0
    &&& forall|k: int|
        0 <= k < entries.len() ==> renders(
            projection,
            columns,
            frame,
            features[indices[k]],
            #[trigger] entries[k],
        )
}

/// Whether a tile was encoded from what the features at `indices` become in it.
pub open spec fn writes<
    X: Fn(u64, u8, u32, u32) -> i32,
    Y: Fn(u64, u8, u32, u32) -> i32,
    H: Fn(u64) -> i32,
    E: Fn(&str, u32, &[(String, PropKind)], &[TileEntry]) -> Result<Vec<u8>, EncodeError>,
>(
    features: Seq<Feature>,
    name: Seq<char>,
    args: GeoJsonArgs,
    projection: Projection<X, Y, H>,
    spatial: E,
    indices: Seq<int>,
    out: EncodedTile,
) -> bool {
    let columns = columns_for(all_entries(features));
    exists|entries: Seq<TileEntry>|
        {
            &&& #[trigger] yields(spatial, name, args.extent, columns, entries, out.bytes)
            &&& turn_into(features, args, projection, indices, out.tile, entries)
            &&& entries.len() == out.features
        }
}

/// Whether the encoder of 3D layers answers with no bytes what the features at
/// `indices` become in a tile.
pub open spec fn answered_empty<
    X: Fn(u64, u8, u32, u32) -> i32,
    Y: Fn(u64, u8, u32, u32) -> i32,
    H: Fn(u64) -> i32,
    E: Fn(&str, u32, &[(String, PropKind)], &[TileEntry]) -> Result<Vec<u8>, EncodeError>,
>(
    features: Seq<Feature>,
    name: Seq<char>,
    args: GeoJsonArgs,
    projection: Projection<X, Y, H>,
    spatial: E,
    indices: Seq<int>,
    tile: Tile,
) -> bool {
    let columns = columns_for(all_entries(features));
    exists|entries: Seq<TileEntry>|
        {
            &&& #[trigger] left_out(spatial, name, args.extent, columns, entries)
            &&& turn_into(features, args, projection, indices, tile, entries)
        }
}

/// A tile in which a feature lands is written, unless it is a 3D one that its
/// encoder answers with no bytes. Every written tile was encoded from what
/// exactly the features that land in it become there, in order, and there are
/// some.
pub proof fn law_written_exactly<
    X: Fn(u64, u8, u32, u32) -> i32,
    Y: Fn(u64, u8, u32, u32) -> i32,
    H: Fn(u64) -> i32,
    E: Fn(&str, u32, &[(String, PropKind)], &[TileEntry]) -> Result<Vec<u8>, EncodeError>,
>(
    features: Seq<Feature>,
    name: Seq<char>,
    args: GeoJsonArgs,
    projection: Projection<X, Y, H>,
    spatial: E,
    out: Vec<EncodedTile>,
)
    requires
        args.valid(),
        converted(features, name, args, projection, spatial, Ok(out)),
    ensures
        exists|ranges: Vec<Vec<TileRange>>| #[trigger]
            located(features, args.min_zoom, args.max_zoom, ranges@) && {
                &&& forall|tile: Tile|
                    (#[trigger] landing(
                        features,
                        ranges@,
                        args.min_zoom,
                        tile,
                        features.len() as int,
                    )).len() > 0 ==> written(out@, tile) || answered_empty(
                        features,
                        name,
                        args,
                        projection,
                        spatial,
                        landing(
                            features,
                            ranges@,
                            args.min_zoom,
                            tile,
                            features.len() as int,
                        ),
                        tile,
                    )
                &&& forall|i: int|
                    0 <= i < out.len() ==> writes(
                        features,
                        name,
                        args,
                        projection,
                        spatial,
                        landing(
                            features,
                            ranges@,
                            args.min_zoom,
                            (#[trigger] out[i]).tile,
                            features.len() as int,
                        ),
                        out[i],
                    )
            },
{
    let layer = lemma_layer(features, name, args, projection, spatial, Ok(out));
    let plan = plan_for(args, &projection, &layer);
    let columns = columns_of(layer.schema@);
    let n = features.len() as int;
    let ranges = lemma_ranges(features, args, projection, layer);
    assert forall|tile: Tile| #[trigger] layer.tiles@.contains_key(tile) implies turn_into(
        features,
        args,
        projection,
        landing(features, ranges@, args.min_zoom, tile, n),
        tile,
        layer.tiles@[tile],
    ) by {
        let indices = landing(features, ranges@, args.min_zoom, tile, n);
        let entries = layer.tiles@[tile];
        assert(plan.fills(features, ranges@, n, layer.tiles@, tile));
        assert(entries == entries_at(layer.tiles@, tile));
        law_tiles_have_one_dimension(features, args, projection, layer, tile);
        let frame = Frame { dim: dimension_of(features), tile, extent: args.extent };
        assert forall|k: int| 0 <= k < entries.len() implies renders(
            projection,
            columns,
            frame,
            features[indices[k]],
            #[trigger] entries[k],
        ) by {
            assert(plan.renders(features[indices[k]], tile, entries[k]));
        }
    }
    assert forall|tile: Tile|
        (#[trigger] landing(features, ranges@, args.min_zoom, tile, n)).len() > 0 implies written(
        out@,
        tile,
    ) || answered_empty(
        features,
        name,
        args,
        projection,
        spatial,
        landing(features, ranges@, args.min_zoom, tile, n),
        tile,
    ) by {
        assert(plan.fills(features, ranges@, n, layer.tiles@, tile));
        assert(layer.tiles@.contains_key(tile));
    }
    assert forall|i: int| 0 <= i < out.len() implies writes(
        features,
        name,
        args,
        projection,
        spatial,
        landing(features, ranges@, args.min_zoom, (#[trigger] out[i]).tile, n),
        out[i],
    ) by {
        let entries = layer.tiles@[out[i].tile];
        assert(encoded_from(spatial, name, args.extent, columns, layer.tiles@, out[i]));
        assert(yields(spatial, name, args.extent, columns, entries, out[i].bytes));
    }
}

/// Whether an encoder of 3D layers gives bytes for every layer with features.
pub open spec fn gives_bytes<
    E: Fn(&str, u32, &[(String, PropKind)], &[TileEntry]) -> Result<Vec<u8>, EncodeError>,
>(spatial: E) -> bool {
    forall|
        name: &str,
        extent: u32,
        schema: &[(String, PropKind)],
        features: &[TileEntry],
        bytes: Vec<u8>,
    |
        features@.len() > 0 && #[trigger] spatial.ensures(
            (name, extent, schema, features),
            Ok::<Vec<u8>, EncodeError>(bytes),
        ) ==> bytes.len() > 0
}

/// No tile is answered with no bytes in a 2D layer, nor by an encoder of 3D layers
/// that gives bytes for every layer with features: then a tile is written exactly
/// if a feature lands in it.
pub proof fn law_no_tile_is_left_out<
    X: Fn(u64, u8, u32, u32) -> i32,
    Y: Fn(u64, u8, u32, u32) -> i32,
    H: Fn(u64) -> i32,
    E: Fn(&str, u32, &[(String, PropKind)], &[TileEntry]) -> Result<Vec<u8>, EncodeError>,
>(
    features: Seq<Feature>,
    name: Seq<char>,
    args: GeoJsonArgs,
    projection: Projection<X, Y, H>,
    spatial: E,
    indices: Seq<int>,
    tile: Tile,
)
    requires
        dimension_of(features) == Dimension::XY || gives_bytes(spatial),
    ensures
        !answered_empty(features, name, args, projection, spatial, indices, tile),
{
}

/// Features without usable positions, no features at all among them, write no
/// tile and are no error.
pub proof fn law_nothing_to_write<
    X: Fn(u64, u8, u32, u32) -> i32,
    Y: Fn(u64, u8, u32, u32) -> i32,
    H: Fn(u64) -> i32,
    E: Fn(&str, u32, &[(String, PropKind)], &[TileEntry]) -> Result<Vec<u8>, EncodeError>,
>(
    features: Seq<Feature>,
    name: Seq<char>,
    args: GeoJsonArgs,
    projection: Projection<X, Y, H>,
    spatial: E,
    r: Result<Vec<EncodedTile>, GeoJsonError>,
)
    requires
        args.valid(),
        !any_collection(features),
        forall|i: int|
            0 <= i < features.len() ==> !any_usable(feature_positions(#[trigger] features[i])),
        converted(features, name, args, projection, spatial, r),
    ensures
        r matches Ok(out) && out.len() == 0,
{
    let layer = lemma_layer(features, name, args, projection, spatial, r);
    let plan = plan_for(args, &projection, &layer);
    let n = features.len() as int;
    let ranges = lemma_ranges(features, args, projection, layer);
    assert forall|tile: Tile| !#[trigger] layer.tiles@.contains_key(tile) by {
        let indices = landing(features, ranges@, args.min_zoom, tile, n);
        law_landing_is_exact(features, ranges@, args.min_zoom, tile, n);
        assert(plan.fills(features, ranges@, n, layer.tiles@, tile));
        if indices.len() > 0 {
            let i = indices[0];
            assert(indices.contains(i));
            assert(ranges_for(features[i], args.min_zoom, args.max_zoom, ranges@[i]@));
        }
    }
    if let Ok(out) = r {
        if out.len() > 0 {
            assert(layer.tiles@.contains_key(out[0].tile));
        }
    }
}

/// Whether an error is one to which the encoder of 3D layers can come, given
/// features.
pub open spec fn spatial_error<
    E: Fn(&str, u32, &[(String, PropKind)], &[TileEntry]) -> Result<Vec<u8>, EncodeError>,
>(
    spatial: E,
    name: Seq<char>,
    extent: u32,
    columns: Seq<(Seq<char>, PropKind)>,
    error: EncodeError,
) -> bool {
    exists|entries: Seq<TileEntry>|
        rising(entries) && #[trigger] outcome(
            spatial,
            name,
            extent,
            columns,
            entries,
            Err::<Vec<u8>, EncodeError>(error),
        )
}

/// The features of a document, under a layer name, reach an encoder. Those of a
/// 2D document fail only where a tile is too large or the encoder gives up, and
/// those of a 3D document only where its encoder does.
pub proof fn law_documents_reach_an_encoder<
    X: Fn(u64, u8, u32, u32) -> i32,
    Y: Fn(u64, u8, u32, u32) -> i32,
    H: Fn(u64) -> i32,
    E: Fn(&str, u32, &[(String, PropKind)], &[TileEntry]) -> Result<Vec<u8>, EncodeError>,
>(
    features: Seq<Feature>,
    name: Seq<char>,
    args: GeoJsonArgs,
    projection: Projection<X, Y, H>,
    spatial: E,
    error: GeoJsonError,
)
    requires
        args.valid(),
        name.len() > 0,
        !any_collection(features),
        converted(features, name, args, projection, spatial, Err(error)),
    ensures
        error matches GeoJsonError::Encode(e) && if dimension_of(features) == Dimension::XYZ {
            spatial_error(spatial, name, args.extent, columns_for(all_entries(features)), e)
        } else {
            e is Oversize || e is Encode
        },
{
    let layer = lemma_layer(features, name, args, projection, spatial, Err(error));
    if let GeoJsonError::Encode(e) = error {
        let columns = columns_of(layer.schema@);
        let tile = choose|tile: Tile| #[trigger]
            layer.tiles@.contains_key(tile) && fails(
                spatial,
                name,
                args.extent,
                columns,
                layer.tiles@[tile],
                e,
            );
        law_tiles_are_without_fault(features, args, projection, layer, name, tile);
        law_tiles_have_one_dimension(features, args, projection, layer, tile);
    }
}

/// Converts a parsed document into the encoded tiles of one named layer. The
/// tiles of a 3D document are encoded by `spatial`.
pub fn convert<
    X: Fn(u64, u8, u32, u32) -> i32,
    Y: Fn(u64, u8, u32, u32) -> i32,
    H: Fn(u64) -> i32,
    E: Fn(&str, u32, &[(String, PropKind)], &[TileEntry]) -> Result<Vec<u8>, EncodeError>,
>(
    document: GeoJson,
    layer_name: &str,
    args: &GeoJsonArgs,
    projection: &Projection<X, Y, H>,
    spatial: &E,
) -> (r: Result<Vec<EncodedTile>, GeoJsonError>)
    requires
        args.valid(),
        projection.serves_all(args.extent),
        answers(*spatial),
    ensures
        converted(features_of(document), layer_name@, *args, *projection, *spatial, r),
{
    let features: Vec<Feature> = normalize_to_features(document);
    if has_collection(&features) {
        return Err(GeoJsonError::Collection);
    }
    let layer: TiledLayer = tile_features(&features, args, projection);
    match encode_tiles(layer_name, args.extent, &layer.schema, &layer.tiles, spatial) {
        Ok(out) => Ok(out),
        Err(e) => Err(GeoJsonError::Encode(e)),
    }
}

/// Converts the text of a `GeoJSON` document into the encoded tiles of one
/// named layer. The tiles of a 3D document are encoded by `spatial`.
pub fn geojson<
    X: Fn(u64, u8, u32, u32) -> i32,
    Y: Fn(u64, u8, u32, u32) -> i32,
    H: Fn(u64) -> i32,
    E: Fn(&str, u32, &[(String, PropKind)], &[TileEntry]) -> Result<Vec<u8>, EncodeError>,
>(
    args: &GeoJsonArgs,
    stem: &Option<String>,
    text: &str,
    projection: &Projection<X, Y, H>,
    spatial: &E,
) -> (r: Result<Vec<EncodedTile>, GeoJsonError>)
    requires
        projection.serves_all(args.extent),
        answers(*spatial),
    ensures
        ({
            let stem = text_of_stem(*stem);
            match (args.error(stem), args.layer_name(stem), parsed_geojson(text@)) {
                (Some(error), _, _) => r matches Err(e) && e == GeoJsonError::Args(error),
                (None, Some(name), Some(document)) => converted(
                    features_of(document),
                    name,
                    *args,
                    *projection,
                    *spatial,
                    r,
                ),
                _ => r matches Err(e) && e is Parse,
            }
        }),
{
    let name: String = match args.check(stem) {
        Ok(name) => name,
        Err(e) => {
            return Err(GeoJsonError::Args(e));
        },
    };
    match parse_geojson(text) {
        Ok(document) => convert(document, name.as_str(), args, projection, spatial),
        Err(e) => Err(GeoJsonError::Parse(e)),
    }
}

/// The arguments are wrong exactly if the lowest zoom level is above the highest,
/// or else the highest is above 30, or else the extent is zero, or else there is
/// neither a layer name nor a file stem. A layer name goes before the stem.
pub proof fn law_arguments_are_checked(args: GeoJsonArgs, stem: Option<Seq<char>>)
    ensures
        ({
            let crossed = args.max_zoom < args.min_zoom;
            let deep = !crossed && 31 <= args.max_zoom;
            let flat = !crossed && !deep && args.extent == 0;
            let nameless = !crossed && !deep && !flat && args.layer is None && stem is None;
            &&& args.error(stem) == Some(ArgsError::MinAboveMax) <==> crossed
            &&& args.error(stem) == Some(ArgsError::MaxAboveLimit) <==> deep
            &&& args.error(stem) == Some(ArgsError::ZeroExtent) <==> flat
            &&& args.error(stem) == Some(ArgsError::NoLayerName) <==> nameless
            &&& args.error(stem) is None <==> !crossed && !deep && !flat && !nameless
            &&& args.valid() <==> !crossed && !deep && !flat
        }),
        args.layer matches Some(name) ==> args.layer_name(stem) == Some(name@),
        args.layer is None ==> args.layer_name(stem) == stem,
{
}

/// The text of a stem is what the stem holds.
pub proof fn law_stems_are_texts(stem: String)
    ensures
        text_of_stem(Some(stem)) == Some(stem@),
        text_of_stem(None) is None,
{
}

/// A collection has its features, in their order, a feature is the only one, and a
/// bare geometry is that of the only one, which has no identifier and no
/// properties.
pub proof fn law_documents_become_features(document: GeoJson)
    ensures
        match document {
            GeoJson::FeatureCollection(collection) => features_of(document)
                == collection.features@,
            GeoJson::Feature(feature) => features_of(document).len() == 1 && features_of(
                document,
            )[0] == feature,
            GeoJson::Geometry(geometry) => {
                &&& features_of(document).len() == 1
                &&& features_of(document)[0].geometry == Some(geometry)
                &&& features_of(document)[0].id is None
                &&& features_of(document)[0].properties is None
            },
        },
{
}

/// A layer has the columns of all properties of all features and the dimension of
/// all their positions, and a tile of it holds, in the order of the features,
/// every one whose rectangle of the zoom level has the tile, and no other. Gives
/// the rectangles, and the places of the features of the tile.
pub proof fn law_layers_are_tiled_by_rectangles<
    X: Fn(u64, u8, u32, u32) -> i32,
    Y: Fn(u64, u8, u32, u32) -> i32,
    H: Fn(u64) -> i32,
>(
    features: Seq<Feature>,
    args: GeoJsonArgs,
    projection: Projection<X, Y, H>,
    layer: TiledLayer,
    tile: Tile,
) -> (r: (Vec<Vec<TileRange>>, Seq<int>))
    requires
        tiled(features, args, projection, layer),
    ensures
        layer.schema@.len() == columns_for(all_entries(features)).len(),
        forall|j: int|
            0 <= j < layer.schema@.len() ==> {
                &&& (#[trigger] layer.schema@[j]).0@ == columns_for(all_entries(features))[j].0
                &&& layer.schema@[j].1 == columns_for(all_entries(features))[j].1
            },
        layer.dim == dimension_of(features),
        r.0@.len() == features.len(),
        forall|i: int|
            0 <= i < features.len() ==> ranges_for(
                features[i],
                args.min_zoom,
                args.max_zoom,
                (#[trigger] r.0@[i])@,
            ),
        forall|j: int, k: int|
            0 <= j < k < r.1.len() ==> #[trigger] r.1[j] < #[trigger] r.1[k],
        forall|i: int| #[trigger]
            r.1.contains(i) <==> {
                &&& 0 <= i < features.len()
                &&& features[i].geometry is Some
                &&& !(features[i].geometry->0.value is GeometryCollection)
                &&& value_positions(features[i].geometry->0.value).len() > 0
                &&& 0 <= tile.zoom - args.min_zoom < r.0@[i]@.len()
                &&& r.0@[i]@[tile.zoom - args.min_zoom].min_col <= tile.col
                &&& tile.col <= r.0@[i]@[tile.zoom - args.min_zoom].max_col
                &&& r.0@[i]@[tile.zoom - args.min_zoom].min_row <= tile.row
                &&& tile.row <= r.0@[i]@[tile.zoom - args.min_zoom].max_row
            },
        layer.tiles@.contains_key(tile) <==> r.1.len() > 0,
        layer.tiles@.contains_key(tile) ==> layer.tiles@[tile].len() == r.1.len(),
        forall|k: int|
            0 <= k < r.1.len() ==> {
                let feature = features[#[trigger] r.1[k]];
                let entry = layer.tiles@[tile][k];
                &&& entry.id == id_of(feature)
                &&& values_for(feature, columns_for(all_entries(features)), entry.values@)
                &&& projection.images_value(
                    feature.geometry->0.value,
                    Frame { dim: dimension_of(features), tile, extent: args.extent },
                    entry.wkt,
                )
            },
{
    let ranges = lemma_ranges(features, args, projection, layer);
    let plan = plan_for(args, &projection, &layer);
    let indices = plan.law_tiles_hold_what_lands_in_them(features, ranges@, layer.tiles@, tile);
    law_columns_of_a_schema(layer.schema@);
    (ranges, indices)
}

/// A feature of a tile of a layer is one of the features: it has its identifier,
/// its values and an image of its geometry. Gives its place.
pub proof fn law_entries_stem_from_features<
    X: Fn(u64, u8, u32, u32) -> i32,
    Y: Fn(u64, u8, u32, u32) -> i32,
    H: Fn(u64) -> i32,
>(
    features: Seq<Feature>,
    args: GeoJsonArgs,
    projection: Projection<X, Y, H>,
    layer: TiledLayer,
    tile: Tile,
    entry: TileEntry,
) -> (i: int)
    requires
        stems_from(features, args, projection, layer, tile, entry),
    ensures
        0 <= i < features.len(),
        entry.id == id_of(features[i]),
        values_for(features[i], columns_of(layer.schema@), entry.values@),
        features[i].geometry is Some,
        projectable(features[i].geometry->0.value),
        projection.images_value(
            features[i].geometry->0.value,
            Frame { dim: layer.dim, tile, extent: args.extent },
            entry.wkt,
        ),
{
    let columns = columns_of(layer.schema@);
    let frame = Frame { dim: layer.dim, tile, extent: args.extent };
    choose|i: int|
        0 <= i < features.len() && renders(
            projection,
            columns,
            frame,
            #[trigger] features[i],
            entry,
        ) && (features[i].geometry matches Some(geometry) && projectable(geometry.value))
}

/// A document with a geometry collection among its geometries is refused as such,
/// and no other is. What else fails fails in encoding.
pub proof fn law_only_collections_are_refused<
    X: Fn(u64, u8, u32, u32) -> i32,
    Y: Fn(u64, u8, u32, u32) -> i32,
    H: Fn(u64) -> i32,
    E: Fn(&str, u32, &[(String, PropKind)], &[TileEntry]) -> Result<Vec<u8>, EncodeError>,
>(
    features: Seq<Feature>,
    name: Seq<char>,
    args: GeoJsonArgs,
    projection: Projection<X, Y, H>,
    spatial: E,
    r: Result<Vec<EncodedTile>, GeoJsonError>,
)
    requires
        converted(features, name, args, projection, spatial, r),
    ensures
        (r matches Err(e) && e is Collection) <==> exists|i: int|
            0 <= i < features.len() && (#[trigger] features[i]).geometry is Some
                && features[i].geometry->0.value is GeometryCollection,
        r matches Err(e) ==> e is Collection || e is Encode,
{
    law_collections_are_found(features);
    if !any_collection(features) {
        let layer = lemma_layer(features, name, args, projection, spatial, r);
        assert(encoded_as(spatial, name, args.extent, layer, r));
    }
}

/// What is encoded is the layer of all features: its tiles, under the given name
/// and extent, with its columns. Gives that layer.
pub proof fn law_the_layer_of_all_features_is_encoded<
    X: Fn(u64, u8, u32, u32) -> i32,
    Y: Fn(u64, u8, u32, u32) -> i32,
    H: Fn(u64) -> i32,
    E: Fn(&str, u32, &[(String, PropKind)], &[TileEntry]) -> Result<Vec<u8>, EncodeError>,
>(
    features: Seq<Feature>,
    name: Seq<char>,
    args: GeoJsonArgs,
    projection: Projection<X, Y, H>,
    spatial: E,
    r: Result<Vec<EncodedTile>, GeoJsonError>,
) -> (layer: TiledLayer)
    requires
        !any_collection(features),
        converted(features, name, args, projection, spatial, r),
    ensures
        tiled(features, args, projection, layer),
        r matches Ok(out) ==> encoding(
            spatial,
            name,
            args.extent,
            columns_for(all_entries(features)),
            layer.tiles@,
            Ok(out),
        ),
        r matches Err(GeoJsonError::Encode(e)) ==> encoding(
            spatial,
            name,
            args.extent,
            columns_for(all_entries(features)),
            layer.tiles@,
            Err(e),
        ),
{
    lemma_layer(features, name, args, projection, spatial, r)
}

/// A written tile has the features at the given places, in that order, each with
/// its identifier, its values and an image of its geometry in that tile, and the
/// bytes are what the encoder gives for exactly these. Gives them.
pub proof fn law_written_tiles_hold_their_features<
    X: Fn(u64, u8, u32, u32) -> i32,
    Y: Fn(u64, u8, u32, u32) -> i32,
    H: Fn(u64) -> i32,
    E: Fn(&str, u32, &[(String, PropKind)], &[TileEntry]) -> Result<Vec<u8>, EncodeError>,
>(
    features: Seq<Feature>,
    name: Seq<char>,
    args: GeoJsonArgs,
    projection: Projection<X, Y, H>,
    spatial: E,
    indices: Seq<int>,
    out: EncodedTile,
) -> (entries: Seq<TileEntry>)
    requires
        writes(features, name, args, projection, spatial, indices, out),
    ensures
        entries.len() == indices.len(),
        entries.len() == out.features,
        entries.len() > 0,
        rising(entries) <==> dimension_of(features) is XYZ,
        yields(
            spatial,
            name,
            args.extent,
            columns_for(all_entries(features)),
            entries,
            out.bytes,
        ),
        forall|k: int|
            0 <= k < entries.len() ==> {
                let feature = features[indices[k]];
                &&& (#[trigger] entries[k]).id == id_of(feature)
                &&& values_for(feature, columns_for(all_entries(features)), entries[k].values@)
                &&& feature.geometry is Some
                &&& projection.images_value(
                    feature.geometry->0.value,
                    Frame { dim: dimension_of(features), tile: out.tile, extent: args.extent },
                    entries[k].wkt,
                )
            },
{
    let columns = columns_for(all_entries(features));
    choose|entries: Seq<TileEntry>|
        {
            &&& #[trigger] yields(spatial, name, args.extent, columns, entries, out.bytes)
            &&& turn_into(features, args, projection, indices, out.tile, entries)
            &&& entries.len() == out.features
        }
}

/// A tile is answered with no bytes only by the encoder of 3D layers, asked for
/// exactly the features at the given places, in that order. Gives them.
pub proof fn law_empty_answers_are_for_their_features<
    X: Fn(u64, u8, u32, u32) -> i32,
    Y: Fn(u64, u8, u32, u32) -> i32,
    H: Fn(u64) -> i32,
    E: Fn(&str, u32, &[(String, PropKind)], &[TileEntry]) -> Result<Vec<u8>, EncodeError>,
>(
    features: Seq<Feature>,
    name: Seq<char>,
    args: GeoJsonArgs,
    projection: Projection<X, Y, H>,
    spatial: E,
    indices: Seq<int>,
    tile: Tile,
) -> (entries: Seq<TileEntry>)
    requires
        answered_empty(features, name, args, projection, spatial, indices, tile),
    ensures
        dimension_of(features) is XYZ,
        entries.len() == indices.len(),
        entries.len() > 0,
        exists|bytes: Vec<u8>|
            bytes@.len() == 0 && #[trigger] yields(
                spatial,
                name,
                args.extent,
                columns_for(all_entries(features)),
                entries,
                bytes,
            ),
        forall|k: int|
            0 <= k < entries.len() ==> {
                let feature = features[indices[k]];
                &&& (#[trigger] entries[k]).id == id_of(feature)
                &&& values_for(feature, columns_for(all_entries(features)), entries[k].values@)
                &&& feature.geometry is Some
                &&& projection.images_value(
                    feature.geometry->0.value,
                    Frame { dim: dimension_of(features), tile, extent: args.extent },
                    entries[k].wkt,
                )
            },
{
    let columns = columns_for(all_entries(features));
    let entries = choose|entries: Seq<TileEntry>|
        {
            &&& #[trigger] left_out(spatial, name, args.extent, columns, entries)
            &&& turn_into(features, args, projection, indices, tile, entries)
        };
    let bytes = choose|bytes: Vec<u8>|
        bytes.len() == 0 && #[trigger] outcome(
            spatial,
            name,
            args.extent,
            columns,
            entries,
            Ok::<Vec<u8>, EncodeError>(bytes),
        );
    assert(yields(spatial, name, args.extent, columns, entries, bytes));
    entries
}

/// An error of the encoder of 3D layers is one that it gave when asked for 3D
/// features, under the same name and extent and for the same columns.
pub proof fn law_spatial_errors_are_answers<
    E: Fn(&str, u32, &[(String, PropKind)], &[TileEntry]) -> Result<Vec<u8>, EncodeError>,
>(
    spatial: E,
    name: Seq<char>,
    extent: u32,
    columns: Seq<(Seq<char>, PropKind)>,
    error: EncodeError,
)
    requires
        spatial_error(spatial, name, extent, columns, error),
    ensures
        exists|n: &str, schema: &[(String, PropKind)], features: &[TileEntry]| #[trigger]
            spatial.ensures((n, extent, schema, features), Err(error)) && n@ == name && columns_of(
                schema@,
            ) == columns && rising(features@),
{
}

} // verus!
