//! The features of each tile.

use std::collections::HashMap;
use std::rc::Rc;

use mlt_core::PropValue;
use vstd::prelude::*;

use crate::project::Tile;
use crate::wkt::Wkt;

verus! {

broadcast use vstd::std_specs::hash::group_hash_axioms;

/// One feature projected into a single tile: its id, tile-local geometry and
/// property values, which the tiles that a feature lands in share.
pub struct TileEntry {
    pub id: Option<u64>,
    pub wkt: Wkt,
    pub values: Rc<Vec<PropValue>>,
}

/// A tile with its features, in order.
pub struct TileBucket {
    pub tile: Tile,
    pub entries: Vec<TileEntry>,
}

/// Accumulated per-tile features. The tiles stand in the order in which they
/// got their first feature.
pub struct TileMap {
    index: HashMap<u128, usize>,
    buckets: Vec<TileBucket>,
}

/// `Rc::clone` gives another pointer to the same value.
#[verifier::external_body]
pub(crate) fn share(values: &Rc<Vec<PropValue>>) -> (r: Rc<Vec<PropValue>>)
    ensures
        r == *values,
{
    Rc::clone(values)
}

/// A number that tells tiles apart.
spec fn packed(tile: Tile) -> u128 {
    (tile.zoom * 0x1_0000_0000_0000_0000 + tile.col * 0x1_0000_0000 + tile.row) as u128
}

/// A number that tells tiles apart.
fn pack(tile: Tile) -> (r: u128)
    ensures
        r == packed(tile),
{
    tile.zoom as u128 * 0x1_0000_0000_0000_0000 + tile.col as u128 * 0x1_0000_0000
        + tile.row as u128
}

proof fn lemma_packed_injective(a: Tile, b: Tile)
    ensures
        packed(a) == packed(b) ==> a == b,
{
}

/// The features that a map of tiles holds for a tile: none for a tile that it
/// lacks.
pub open spec fn entries_at(map: Map<Tile, Seq<TileEntry>>, tile: Tile) -> Seq<TileEntry> {
    if map.contains_key(tile) {
        map[tile]
    } else {
        seq![]
    }
}

impl View for TileMap {
    type V = Map<Tile, Seq<TileEntry>>;

    closed spec fn view(&self) -> Map<Tile, Seq<TileEntry>> {
        Map::new(
            |tile: Tile| self.index@.contains_key(packed(tile)),
            |tile: Tile| self.buckets[self.index@[packed(tile)] as int].entries@,
        )
    }
}

impl TileMap {
    /// Whether the index finds exactly the tiles that are there.
    pub closed spec fn wf(self) -> bool {
        &&& forall|i: int|
            0 <= i < self.buckets.len() ==> self.index@.contains_pair(
                packed((#[trigger] self.buckets[i]).tile),
                i as usize,
            )
        &&& forall|key: u128| #[trigger]
            self.index@.contains_key(key) ==> self.index@[key] < self.buckets.len() && packed(
                self.buckets[self.index@[key] as int].tile,
            ) == key
    }

    /// A map without tiles.
    pub fn new() -> (r: Self)
        ensures
            r.wf(),
            r@ == Map::<Tile, Seq<TileEntry>>::empty(),
    {
        let r = TileMap { index: HashMap::new(), buckets: Vec::new() };
        assert(r@ == Map::<Tile, Seq<TileEntry>>::empty());
        r
    }

    /// Appends a feature to a tile.
    pub fn push(&mut self, tile: Tile, entry: TileEntry)
        requires
            old(self).wf(),
        ensures
            final(self).wf(),
            final(self)@ == old(self)@.insert(tile, entries_at(old(self)@, tile).push(entry)),
    {
        let key: u128 = pack(tile);
        let found: Option<usize> = match self.index.get(&key) {
            Some(i) => Some(*i),
            None => None,
        };
        match found {
            Some(i) => {
                self.buckets[i].entries.push(entry);
            },
            None => {
                self.index.insert(key, self.buckets.len());
                let mut entries: Vec<TileEntry> = Vec::new();
                entries.push(entry);
                self.buckets.push(TileBucket { tile, entries });
            },
        }
        proof {
            assert forall|a: Tile, b: Tile| #[trigger] packed(a) == #[trigger] packed(
                b,
            ) implies a == b by {
                lemma_packed_injective(a, b);
            }
        }
        assert(self@ == old(self)@.insert(tile, entries_at(old(self)@, tile).push(entry)));
    }

    /// The tiles with their features. Each tile stands once.
    pub fn buckets(&self) -> (r: &Vec<TileBucket>)
        requires
            self.wf(),
        ensures
            forall|i: int|
                0 <= i < r.len() ==> self@.contains_pair(
                    (#[trigger] r[i]).tile,
                    r[i].entries@,
                ),
            forall|i: int, j: int|
                0 <= i < j < r.len() ==> (#[trigger] r[i]).tile != (#[trigger] r[j]).tile,
            forall|tile: Tile| #[trigger]
                self@.contains_key(tile) ==> exists|i: int|
                    0 <= i < r.len() && (#[trigger] r[i]).tile == tile,
    {
        proof {
            assert forall|tile: Tile| #[trigger] self@.contains_key(tile) implies exists|i: int|
                0 <= i < self.buckets.len() && (#[trigger] self.buckets[i]).tile == tile by {
                let i = self.index@[packed(tile)] as int;
                lemma_packed_injective(self.buckets[i].tile, tile);
            }
        }
        &self.buckets
    }
}

/// A map of tiles holds for a tile what stands there, and nothing for a tile that
/// it lacks.
pub proof fn law_absent_tiles_hold_nothing(map: Map<Tile, Seq<TileEntry>>, tile: Tile)
    ensures
        map.contains_key(tile) ==> entries_at(map, tile) == map[tile],
        !map.contains_key(tile) ==> entries_at(map, tile).len() == 0,
{
}

} // verus!
