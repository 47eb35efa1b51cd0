//! The slippy map's tile grid, as `martin_tile_utils` lays it out.

use vstd::arithmetic::power2::pow2;
use vstd::prelude::*;

use crate::geometry::{usable, LonLatBbox};
use crate::ordinate::{less, nan, rank};

verus! {

/// A rectangle of tiles, its bounds included.
#[derive(Clone, Copy, Debug, PartialEq, Eq, Structural)]
pub struct TileRange {
    pub min_col: u32,
    pub min_row: u32,
    pub max_col: u32,
    pub max_row: u32,
}

impl TileRange {
    /// Whether a tile lies in the rectangle.
    pub open spec fn covers(self, col: u32, row: u32) -> bool {
        self.min_col <= col <= self.max_col && self.min_row <= row <= self.max_row
    }

    /// Whether the rectangle lies on the grid of a zoom level.
    pub open spec fn on_grid(self, zoom: u8) -> bool {
        &&& self.min_col < pow2(zoom as nat)
        &&& self.min_row < pow2(zoom as nat)
        &&& self.max_col < pow2(zoom as nat)
        &&& self.max_row < pow2(zoom as nat)
    }
}

/// The bits of the longitude of the map's western edge, -180 degrees.
pub const WEST_EDGE: u64 = 0xc066_8000_0000_0000;

/// Whether a longitude is not west of the map.
pub open spec fn on_map(lon: u64) -> bool {
    !nan(lon) && rank(WEST_EDGE) <= rank(lon)
}

/// Whether the columns of the rectangle are as the longitudes of the box, given
/// as `(min_lon, min_lat, max_lon, max_lat)`: one column for equal longitudes,
/// and columns in order for longitudes in order that are not west of the map.
pub open spec fn columns_follow(corners: (u64, u64, u64, u64), range: TileRange) -> bool {
    &&& corners.0 == corners.2 ==> range.min_col == range.max_col
    &&& on_map(corners.0) && !nan(corners.2) && rank(corners.0) <= rank(corners.2)
        ==> range.min_col <= range.max_col
}

/// Whether the rectangle can come out for a bounding box, given as
/// `(min_lon, min_lat, max_lon, max_lat)`, at a zoom level. On the edge between
/// two tiles this rests on the precision of the machine's sine and logarithm.
pub uninterp spec fn spans(corners: (u64, u64, u64, u64), zoom: u8, range: TileRange) -> bool;

/// `martin_tile_utils::MAX_ZOOM`, the deepest zoom level.
#[verifier::external_body]
pub(crate) fn max_zoom() -> (r: u8)
    ensures
        r == 30,
{
    martin_tile_utils::MAX_ZOOM
}

/// `martin_tile_utils::bbox_to_xyz` gives the tiles of a zoom level from the
/// north-west to the south-east corner of a box. The column of a longitude takes
/// only multiplication, division and the distance to the western edge, cut to
/// the grid. So equal longitudes have one column, and from the western edge on
/// the columns come in the order of the longitudes; west of it the distance
/// grows the other way. The row of a latitude takes a sine and a logarithm,
/// which std allows to differ from one call to the next, so that equal latitudes
/// have one row, and that the rows come in order, is left unsaid.
#[verifier::external_body]
pub(crate) fn tile_range(bbox: &LonLatBbox<'_>, zoom: u8) -> (r: TileRange)
    requires
        usable(*bbox.west),
        usable(*bbox.south),
        usable(*bbox.east),
        usable(*bbox.north),
        zoom <= 30,
    ensures
        spans(bbox.corners(), zoom, r),
        columns_follow(bbox.corners(), r),
        r.on_grid(zoom),
{
    let (min_col, min_row, max_col, max_row) = martin_tile_utils::bbox_to_xyz(
        bbox.west[0],
        bbox.south[1],
        bbox.east[0],
        bbox.north[1],
        zoom,
    );
    TileRange { min_col, min_row, max_col, max_row }
}

/// A rectangle covers the tiles from its first to its last column and from its
/// first to its last row, and is on the grid if both columns and both rows are.
pub proof fn law_rectangles_hold_their_bounds(range: TileRange, col: u32, row: u32, zoom: u8)
    ensures
        range.covers(col, row) <==> {
            &&& !(col < range.min_col) && !(range.max_col < col)
            &&& !(row < range.min_row) && !(range.max_row < row)
        },
        range.on_grid(zoom) && range.covers(col, row) ==> col < pow2(zoom as nat) && row < pow2(
            zoom as nat,
        ),
        range.on_grid(zoom) ==> range.max_col < pow2(zoom as nat) && range.max_row < pow2(
            zoom as nat,
        ) && range.min_col < pow2(zoom as nat) && range.min_row < pow2(zoom as nat),
{
}

/// The map begins at a longitude of -180 degrees: a longitude that is less, or no
/// number, is not on it.
pub proof fn law_the_map_begins_in_the_west(lon: u64)
    ensures
        on_map(lon) <==> !nan(lon) && !less(lon, 0xc066_8000_0000_0000),
{
}

} // verus!
