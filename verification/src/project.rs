//! From longitude, latitude and altitude to the integer grid of a tile.
//!
//! What a longitude, a latitude and an altitude become is computed in floating
//! point by a [`Projection`] that the caller supplies. What each coordinate
//! rests on, and the rules for the third, are those of [`tile_local`].

use vstd::prelude::*;

use crate::wkt::Coord;

verus! {

/// A tile of the slippy map.
#[derive(Clone, Copy, Debug, PartialEq, Eq, Structural)]
pub struct Tile {
    pub zoom: u8,
    pub col: u32,
    pub row: u32,
}

/// How ordinates become grid coordinates. `east` takes a longitude, a zoom level,
/// a column and an extent to an X, which grows to the east; `south` takes a
/// latitude, a zoom level, a row and an extent to a Y, which grows to the south;
/// `height` takes an altitude to a Z. Ordinates are the bits of doubles.
pub struct Projection<X, Y, H> {
    pub east: X,
    pub south: Y,
    pub height: H,
}

impl<
    X: Fn(u64, u8, u32, u32) -> i32,
    Y: Fn(u64, u8, u32, u32) -> i32,
    H: Fn(u64) -> i32,
> Projection<X, Y, H> {
    /// Whether the projection is deterministic: each of its parts always takes the
    /// same arguments to the same coordinate.
    pub open spec fn deterministic(self) -> bool {
        &&& forall|args: (u64, u8, u32, u32), a: i32, b: i32| #[trigger]
            self.east.ensures(args, a) && #[trigger] self.east.ensures(args, b) ==> a == b
        &&& forall|args: (u64, u8, u32, u32), a: i32, b: i32| #[trigger]
            self.south.ensures(args, a) && #[trigger] self.south.ensures(args, b) ==> a == b
        &&& forall|args: (u64,), a: i32, b: i32| #[trigger]
            self.height.ensures(args, a) && #[trigger] self.height.ensures(args, b) ==> a == b
    }

    /// Whether the projection is deterministic and is defined for a tile of this
    /// extent.
    pub open spec fn serves(self, tile: Tile, extent: u32) -> bool {
        &&& self.deterministic()
        &&& forall|lon: u64| #[trigger] self.east.requires((lon, tile.zoom, tile.col, extent))
        &&& forall|lat: u64| #[trigger] self.south.requires((lat, tile.zoom, tile.row, extent))
        &&& forall|alt: u64| #[trigger] self.height.requires((alt,))
    }

    /// Whether the projection serves, at this extent, every tile of every zoom
    /// level up to the deepest.
    pub open spec fn serves_all(self, extent: u32) -> bool {
        forall|tile: Tile| tile.zoom <= 30 ==> #[trigger] self.serves(tile, extent)
    }

    /// Whether `z` is a Z for a position of this altitude: none in a flat layer,
    /// zero for a position without altitude, else the altitude's.
    pub open spec fn raises(self, alt: Option<u64>, dim_xyz: bool, z: Option<i32>) -> bool {
        match (dim_xyz, alt, z) {
            (false, _, z) => z is None,
            (true, None, z) => z == Some(0i32),
            (true, Some(alt), Some(z)) => self.height.ensures((alt,), z),
            (true, Some(_), None) => false,
        }
    }

    /// Whether `c` is an image of the position on the grid of the tile.
    pub open spec fn images(
        self,
        position: (u64, u64, Option<u64>),
        tile: Tile,
        extent: u32,
        dim_xyz: bool,
        c: Coord,
    ) -> bool {
        &&& self.east.ensures((position.0, tile.zoom, tile.col, extent), c.x)
        &&& self.south.ensures((position.1, tile.zoom, tile.row, extent), c.y)
        &&& self.raises(position.2, dim_xyz, c.z)
    }
}

/// The axes are independent. The X rests only on longitude, zoom level, column
/// and extent, the Y only on latitude, zoom level, row and extent, and the Z only
/// on the altitude and the dimension of the layer: it is the same in every tile.
pub proof fn law_axes_are_independent<
    X: Fn(u64, u8, u32, u32) -> i32,
    Y: Fn(u64, u8, u32, u32) -> i32,
    H: Fn(u64) -> i32,
>(
    projection: Projection<X, Y, H>,
    p: (u64, u64, Option<u64>),
    q: (u64, u64, Option<u64>),
    dim_xyz: bool,
    a: (Tile, u32, Coord),
    b: (Tile, u32, Coord),
)
    requires
        projection.images(p, a.0, a.1, dim_xyz, a.2),
        projection.images(q, b.0, b.1, dim_xyz, b.2),
        projection.serves(a.0, a.1),
    ensures
        a.2.z is Some <==> dim_xyz,
        b.2.z is Some <==> dim_xyz,
        p.0 == q.0 && a.0.zoom == b.0.zoom && a.0.col == b.0.col && a.1 == b.1 ==> a.2.x == b.2.x,
        p.1 == q.1 && a.0.zoom == b.0.zoom && a.0.row == b.0.row && a.1 == b.1 ==> a.2.y == b.2.y,
        p.2 == q.2 ==> a.2.z == b.2.z,
{
}

/// Projects a single position into the integer grid of a tile with the given
/// extent. In a 3D layer (`dim_xyz`) a position without altitude gets a Z of
/// zero; in a 2D layer the Z is dropped.
pub fn tile_local<
    X: Fn(u64, u8, u32, u32) -> i32,
    Y: Fn(u64, u8, u32, u32) -> i32,
    H: Fn(u64) -> i32,
>(
    lon: u64,
    lat: u64,
    alt: Option<u64>,
    tile: Tile,
    extent: u32,
    dim_xyz: bool,
    projection: &Projection<X, Y, H>,
) -> (c: Coord)
    requires
        projection.serves(tile, extent),
    ensures
        projection.images((lon, lat, alt), tile, extent, dim_xyz, c),
{
    let x: i32 = (projection.east)(lon, tile.zoom, tile.col, extent);
    let y: i32 = (projection.south)(lat, tile.zoom, tile.row, extent);
    let z: Option<i32> = if dim_xyz {
        match alt {
            Some(alt) => Some((projection.height)(alt)),
            None => Some(0),
        }
    } else {
        None
    };
    Coord { x, y, z }
}

/// The image of a position is what the projection gives, and nothing else: the X
/// for its longitude and the Y for its latitude, also far outside the tile, and
/// in a 3D layer the Z for its altitude, or zero where it has none.
pub proof fn law_images_are_what_the_projection_gives<
    X: Fn(u64, u8, u32, u32) -> i32,
    Y: Fn(u64, u8, u32, u32) -> i32,
    H: Fn(u64) -> i32,
>(
    projection: Projection<X, Y, H>,
    p: (u64, u64, Option<u64>),
    tile: Tile,
    extent: u32,
    dim_xyz: bool,
    c: Coord,
)
    requires
        projection.images(p, tile, extent, dim_xyz, c),
    ensures
        projection.east.ensures((p.0, tile.zoom, tile.col, extent), c.x),
        projection.south.ensures((p.1, tile.zoom, tile.row, extent), c.y),
        !dim_xyz ==> c.z is None,
        dim_xyz && p.2 is None ==> c.z == Some(0i32),
        dim_xyz && p.2 is Some ==> c.z is Some && projection.height.ensures((p.2->0,), c.z->0),
{
}

/// Positions that the projection takes to different coordinates have different
/// images: none is moved onto another.
pub proof fn law_images_tell_positions_apart<
    X: Fn(u64, u8, u32, u32) -> i32,
    Y: Fn(u64, u8, u32, u32) -> i32,
    H: Fn(u64) -> i32,
>(
    projection: Projection<X, Y, H>,
    p: (u64, u64, Option<u64>),
    q: (u64, u64, Option<u64>),
    tile: Tile,
    extent: u32,
    dim_xyz: bool,
    c: Coord,
    d: Coord,
)
    requires
        projection.serves(tile, extent),
        projection.images(p, tile, extent, dim_xyz, c),
        projection.images(q, tile, extent, dim_xyz, d),
    ensures
        forall|x: i32, y: i32|
            #[trigger] projection.east.ensures((p.0, tile.zoom, tile.col, extent), x)
                && #[trigger] projection.east.ensures((q.0, tile.zoom, tile.col, extent), y) && x
                != y ==> c.x != d.x,
        forall|x: i32, y: i32|
            #[trigger] projection.south.ensures((p.1, tile.zoom, tile.row, extent), x)
                && #[trigger] projection.south.ensures((q.1, tile.zoom, tile.row, extent), y) && x
                != y ==> c.y != d.y,
{
}

} // verus!
