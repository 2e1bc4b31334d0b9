//! A borrowed, rectangular window of a map.
//!
//! [`MapRegion`] and [`MapRegionMut`] are maps themselves: both implement
//! [`TileMap`], and `MapRegionMut` also implements [`MapMut`](crate::MapMut). A region has
//! its own positions: `(0, 0)` is the top left corner of the window, not of the map it was
//! taken from. Every position is moved by the window's corner and handed on to that map,
//! the parent.
//!
//! A region of a region borrows the outer region, so its window is checked against the
//! outer region alone; that the outer region fits its own parent is the outer region's
//! own invariant.

use vstd::prelude::*;

use crate::TileMap;

mod region_mut;
mod region_ref;

pub use region_mut::MapRegionMut;
pub use region_ref::MapRegion;

verus! {

/// What [`MapRegion`] and [`MapRegionMut`] have in common.
pub trait Region: TileMap {
    /// The type of the map that the window was taken from.
    type Parent: TileMap<Tile = Self::Tile>;

    /// The parent map, as it is now.
    spec fn parent(&self) -> Self::Parent;

    /// The column of the parent at which the window starts.
    spec fn spec_left(&self) -> nat;

    /// The row of the parent at which the window starts.
    spec fn spec_top(&self) -> nat;

    /// What the invariant of a region says: the parent is valid, the window can be taken
    /// from it, and the region's view is that window.
    proof fn lemma_region(&self)
        requires
            self.inv(),
        ensures
            self.parent().inv(),
            self.parent()@.fits(
                self.spec_left() as int,
                self.spec_top() as int,
                self@.width as int,
                self@.height() as int,
            ),
            self@ == self.parent()@.region(
                self.spec_left() as int,
                self.spec_top() as int,
                self@.width,
                self@.height(),
            ),
    ;

    /// The parent map.
    ///
    /// [`TileMap::region`] is the usual way to get a region; this is the way back.
    fn map(&self) -> (map: &Self::Parent)
        ensures
            *map == self.parent(),
    ;

    /// The row of the parent at which the window starts.
    fn top(&self) -> (top: usize)
        ensures
            top == self.spec_top(),
    ;

    /// The column of the parent at which the window starts.
    fn left(&self) -> (left: usize)
        ensures
            left == self.spec_left(),
    ;

    /// The row of the parent just below the window: `top + height`.
    ///
    /// The sum has to fit in `usize`. It does for every region that holds a tile.
    fn bottom(&self) -> (bottom: usize)
        requires
            self.inv(),
            self.spec_top() + self@.height() <= usize::MAX,
        ensures
            bottom == self.spec_top() + self@.height(),
    {
        self.top() + self.height()
    }

    /// The column of the parent just right of the window: `left + width`.
    ///
    /// The sum has to fit in `usize`. It does for every region that holds a tile.
    fn right(&self) -> (right: usize)
        requires
            self.inv(),
            self.spec_left() + self@.width <= usize::MAX,
        ensures
            right == self.spec_left() + self@.width,
    {
        self.left() + self.width()
    }
}

} // verus!
