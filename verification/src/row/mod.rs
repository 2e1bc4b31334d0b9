//! Maps whose tiles are stored row by row, and the two maps of this crate that own
//! their tiles.

use vstd::prelude::*;

use crate::TileMap;

mod dynamic_map;
mod static_map;

pub use dynamic_map::DynamicMap;
pub use static_map::StaticMap;

verus! {

/// Access to whole rows of a map, for reading.
///
/// For writing, see [`MapRowsMut`].
pub trait MapRows: TileMap {
    /// The tiles of row `row`, left to right, or `None` if the map has no such row.
    fn row(&self, row: usize) -> (tiles: Option<&[Self::Tile]>)
        requires
            self.inv(),
        ensures
            tiles.is_some() == (row < self@.height()),
            tiles matches Some(t) ==> t@ == self@.rows[row as int] && t@.len() == self@.width,
    ;

    /// All rows of the map, top to bottom.
    fn rows(&self) -> (rows: Vec<&[Self::Tile]>)
        requires
            self.inv(),
        ensures
            rows@.len() == self@.height(),
            forall|y: int|
                0 <= y < rows@.len() ==> (#[trigger] rows@[y])@ == self@.rows[y] && rows@[y]@.len()
                    == self@.width,
    ;
}

/// Access to whole rows of a map, for writing.
///
/// A slice cannot change its length, but nothing tells the verifier so. Where a contract
/// below speaks of the map after the call, it therefore names that fact as a condition; a
/// caller who writes into the slices element by element meets it.
pub trait MapRowsMut: MapRows {
    /// The tiles of row `row` for writing, or `None` if the map has no such row.
    ///
    /// Whatever the caller leaves in the slice is that row of the map afterwards; nothing
    /// else changes.
    fn row_mut(&mut self, row: usize) -> (tiles: Option<&mut [Self::Tile]>)
        requires
            old(self).inv(),
        ensures
            tiles.is_some() == (row < old(self)@.height()),
            tiles.is_none() ==> final(self).inv() && final(self)@.wf() && final(self)@ == old(self)@,
            tiles matches Some(t) ==> t@ == old(self)@.rows[row as int] && t@.len()
                == old(self)@.width,
            tiles matches Some(t) ==> (final(t)@.len() == t@.len()
                ==> final(self).inv() && final(self)@.wf()
                    && final(self)@ == old(self)@.with_row(row as int, final(t)@)),
    ;

    /// All rows of the map for writing, top to bottom.
    ///
    /// Whatever the caller leaves in the slices are the rows of the map afterwards.
    fn rows_mut(&mut self) -> (rows: Vec<&mut [Self::Tile]>)
        requires
            old(self).inv(),
        ensures
            rows@.len() == old(self)@.height(),
            forall|y: int|
                #![trigger rows@[y]@]
                #![trigger old(self)@.rows[y]]
                0 <= y < rows@.len() ==> rows@[y]@ == old(self)@.rows[y]
                    && rows@[y]@.len() == old(self)@.width,
            (forall|y: int|
                0 <= y < rows@.len() ==> final(rows@[y])@.len()
                    == (#[trigger] old(self)@.rows[y]).len())
                ==> final(self).inv() && final(self)@.wf()
                    && final(self)@ == old(self)@.with_rows(
                        Seq::new(rows@.len(), |y: int| final(rows@[y])@),
                    ),
    ;
}

} // verus!
