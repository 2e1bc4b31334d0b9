//! Two-dimensional maps of tiles.
//!
//! A map is anything that implements [`TileMap`]: it has a width, a height and one tile for
//! every position `(x, y)` with `x < width` and `y < height`. [`MapMut`] adds writing,
//! [`row::MapRows`] and [`row::MapRowsMut`] add access to whole rows.
//!
//! Two maps own their tiles: [`row::StaticMap`], whose size is part of its type, and
//! [`row::DynamicMap`], whose size is chosen when it is made. A [`MapRegion`] or a
//! [`MapRegionMut`] borrows a rectangular window of another map and is a map itself, with
//! `(0, 0)` at the window's top left corner.
//!
//! Every map has a [`GridView`] as its view, and every contract is stated over
//! that view. The laws that relate the operations are proved in [`grid`].

use vstd::prelude::*;

pub mod grid;
pub mod prelude;
pub mod region;
pub mod row;

pub use crate::grid::GridView;
pub use crate::region::{MapRegion, MapRegionMut};

use crate::grid::{is_clone_of, is_default};
use crate::region::Region;

verus! {

/// A two-dimensional array of tiles that can be read.
///
/// For writing, see [`MapMut`].
pub trait TileMap {
    /// The type of each tile.
    type Tile;

    /// The grid that this map stands for.
    spec fn view(&self) -> GridView<Self::Tile>;

    /// What holds of every map that was made by this crate's constructors and changed by
    /// its methods only. Every method asks for it and keeps it.
    spec fn inv(&self) -> bool;

    /// The view of a valid map is a well-formed grid whose sizes fit in `usize`.
    proof fn lemma_inv(&self)
        requires
            self.inv(),
        ensures
            self@.wf(),
            self@.width <= usize::MAX,
            self@.height() <= usize::MAX,
    ;

    /// A copy of the tile at `(x, y)`, or `None` if the position is out of bounds.
    fn get(&self, x: usize, y: usize) -> (tile: Option<Self::Tile>) where Self::Tile: Copy
        requires
            self.inv(),
        ensures
            tile == self@.get(x as int, y as int),
    ;

    /// The tile at `(x, y)`, or `None` if the position is out of bounds.
    fn get_ref(&self, x: usize, y: usize) -> (tile: Option<&Self::Tile>)
        requires
            self.inv(),
        ensures
            tile.is_some() == self@.in_bounds(x as int, y as int),
            tile matches Some(t) ==> *t == self@.tile(x as int, y as int),
    ;

    /// The width of the map, in tiles.
    fn width(&self) -> (width: usize)
        requires
            self.inv(),
        ensures
            width == self@.width,
    ;

    /// The height of the map, in tiles.
    fn height(&self) -> (height: usize)
        requires
            self.inv(),
        ensures
            height == self@.height(),
    ;

    /// The size of the map, as `(width, height)`.
    fn size(&self) -> (size: (usize, usize))
        requires
            self.inv(),
        ensures
            size.0 == self@.width,
            size.1 == self@.height(),
    {
        (self.width(), self.height())
    }

    /// Whether `(x, y)` is a position of this map: `x < width` and `y < height`.
    fn in_bounds(&self, x: usize, y: usize) -> (inside: bool)
        requires
            self.inv(),
        ensures
            inside == (x < self@.width && y < self@.height()),
            inside == self@.in_bounds(x as int, y as int),
    {
        x < self.width() && y < self.height()
    }
}

/// Taking a window of a map for reading.
///
/// Every map has this: the trait is implemented for all of them here, and its one method is
/// used as if it were a method of [`TileMap`]. It cannot be one, because a region is a
/// `TileMap` itself: the definition of the trait would then rest on an implementation of it.
pub trait MapRegions: TileMap + Sized {
    /// The window of `width` by `height` tiles whose top left corner is at `(x, y)`, borrowed
    /// for reading, or `None` if it cannot be taken: a window with at least one tile has to lie
    /// inside the map with all of its tiles. A window without tiles can be taken anywhere.
    ///
    /// The region is a map itself, with `(0, 0)` at the window's top left corner.
    fn region(&self, x: usize, y: usize, width: usize, height: usize) -> (region: Option<
        MapRegion<'_, Self::Tile, Self>,
    >)
        requires
            self.inv(),
        ensures
            region.is_some() == self@.fits(x as int, y as int, width as int, height as int),
            region matches Some(r) ==> r.inv() && r@.wf() && r.parent() == *self && r.spec_left() == x
                && r.spec_top() == y && r@ == self@.region(
                x as int,
                y as int,
                width as nat,
                height as nat,
            ),
    {
        MapRegion::new(self, x, y, width, height)
    }
}

impl<M: TileMap> MapRegions for M {
}

/// A two-dimensional array of tiles that can be written.
pub trait MapMut: TileMap {
    /// The tile at `(x, y)` for writing, or `None` if the position is out of bounds.
    ///
    /// Whatever the caller leaves in the tile is the tile of the map afterwards; nothing else
    /// changes.
    fn get_mut(&mut self, x: usize, y: usize) -> (tile: Option<&mut Self::Tile>)
        requires
            old(self).inv(),
        ensures
            final(self).inv(),
            final(self)@.wf(),
            tile.is_some() == old(self)@.in_bounds(x as int, y as int),
            tile.is_none() ==> final(self)@ == old(self)@,
            tile matches Some(t) ==> *t == old(self)@.tile(x as int, y as int) && final(self)@
                == old(self)@.set(x as int, y as int, *final(t)),
    ;

    /// Puts `new` at `(x, y)` and hands back the tile that was there. Out of bounds nothing
    /// changes and `new` itself comes back as the error.
    fn replace(&mut self, x: usize, y: usize, new: Self::Tile) -> (previous: Result<
        Self::Tile,
        Self::Tile,
    >)
        requires
            old(self).inv(),
        ensures
            final(self).inv(),
            final(self)@.wf(),
            final(self)@ == old(self)@.set(x as int, y as int, new),
            old(self)@.in_bounds(x as int, y as int) ==> previous == Ok::<Self::Tile, Self::Tile>(
                old(self)@.tile(x as int, y as int),
            ),
            !old(self)@.in_bounds(x as int, y as int) ==> previous == Err::<
                Self::Tile,
                Self::Tile,
            >(new) && final(self)@ == old(self)@,
    {
        if let Some(tile) = self.get_mut(x, y) {
            let mut held = new;
            core::mem::swap(tile, &mut held);
            Ok(held)
        } else {
            Err(new)
        }
    }

    /// Puts a default tile at `(x, y)` and hands back the tile that was there. Out of bounds
    /// nothing changes and the default tile comes back as the error.
    fn replace_default(&mut self, x: usize, y: usize) -> (previous: Result<
        Self::Tile,
        Self::Tile,
    >) where Self::Tile: Default
        requires
            old(self).inv(),
        ensures
            final(self).inv(),
            final(self)@.wf(),
            final(self)@ == old(self)@.set(
                x as int,
                y as int,
                final(self)@.tile(x as int, y as int),
            ),
            old(self)@.in_bounds(x as int, y as int) ==> previous == Ok::<Self::Tile, Self::Tile>(
                old(self)@.tile(x as int, y as int),
            ) && is_default::<Self::Tile>()(final(self)@.tile(x as int, y as int)),
            !old(self)@.in_bounds(x as int, y as int) ==> (previous matches Err(tile)
                && is_default::<Self::Tile>()(tile)) && final(self)@ == old(self)@,
    {
        let new = Self::Tile::default();
        proof {
            self.lemma_inv();
            if self@.in_bounds(x as int, y as int) {
                self@.lemma_set_tiles(x as int, y as int, new);
            }
        }
        self.replace(x, y, new)
    }

    /// Puts `new` at `(x, y)` and says whether it did: out of bounds nothing changes and the
    /// answer is `false`.
    fn set(&mut self, x: usize, y: usize, new: Self::Tile) -> (written: bool)
        requires
            old(self).inv(),
        ensures
            final(self).inv(),
            final(self)@.wf(),
            written == old(self)@.in_bounds(x as int, y as int),
            final(self)@ == old(self)@.set(x as int, y as int, new),
            !written ==> final(self)@ == old(self)@,
    {
        if let Some(tile) = self.get_mut(x, y) {
            *tile = new;
            true
        } else {
            false
        }
    }

    /// Puts a default tile at `(x, y)` and says whether it did.
    fn set_default(&mut self, x: usize, y: usize) -> (written: bool) where Self::Tile: Default
        requires
            old(self).inv(),
        ensures
            final(self).inv(),
            final(self)@.wf(),
            written == old(self)@.in_bounds(x as int, y as int),
            final(self)@ == old(self)@.set(
                x as int,
                y as int,
                final(self)@.tile(x as int, y as int),
            ),
            written ==> is_default::<Self::Tile>()(final(self)@.tile(x as int, y as int)),
            !written ==> final(self)@ == old(self)@,
    {
        let new = Self::Tile::default();
        proof {
            self.lemma_inv();
            if self@.in_bounds(x as int, y as int) {
                self@.lemma_set_tiles(x as int, y as int, new);
            }
        }
        self.set(x, y, new)
    }

    /// Overwrites every tile with a default tile.
    fn clear(&mut self) where Self::Tile: Default
        requires
            old(self).inv(),
        ensures
            final(self).inv(),
            final(self)@.wf(),
            final(self)@.width == old(self)@.width,
            final(self)@.height() == old(self)@.height(),
            final(self)@.all_tiles(is_default::<Self::Tile>()),
    {
        let width = self.width();
        let height = self.height();
        for y in 0..height
            invariant
                self.inv(),
                self@.width == width,
                self@.height() == height,
                forall|i: int, j: int|
                    0 <= i < width && 0 <= j < y ==> is_default::<Self::Tile>()(
                        #[trigger] self@.tile(i, j),
                    ),
        {
            for x in 0..width
                invariant
                    self.inv(),
                    self@.width == width,
                    self@.height() == height,
                    y < height,
                    forall|i: int, j: int|
                        0 <= i < width && 0 <= j < y ==> is_default::<Self::Tile>()(
                            #[trigger] self@.tile(i, j),
                        ),
                    forall|i: int|
                        0 <= i < x ==> is_default::<Self::Tile>()(#[trigger] self@.tile(i, y as int)),
            {
                let ghost before = self@;
                proof {
                    self.lemma_inv();
                }
                self.set_default(x, y);
                proof {
                    before.lemma_set_tiles(x as int, y as int, self@.tile(x as int, y as int));
                }
            }
        }
        proof {
            self.lemma_inv();
        }
    }

    /// Overwrites every tile with a clone of `new`.
    fn clear_to(&mut self, new: Self::Tile) where Self::Tile: Clone
        requires
            old(self).inv(),
        ensures
            final(self).inv(),
            final(self)@.wf(),
            final(self)@.width == old(self)@.width,
            final(self)@.height() == old(self)@.height(),
            final(self)@.all_tiles(is_clone_of(new)),
    {
        let width = self.width();
        let height = self.height();
        for y in 0..height
            invariant
                self.inv(),
                self@.width == width,
                self@.height() == height,
                forall|i: int, j: int|
                    0 <= i < width && 0 <= j < y ==> cloned(new, #[trigger] self@.tile(i, j)),
        {
            for x in 0..width
                invariant
                    self.inv(),
                    self@.width == width,
                    self@.height() == height,
                    y < height,
                    forall|i: int, j: int|
                        0 <= i < width && 0 <= j < y ==> cloned(new, #[trigger] self@.tile(i, j)),
                    forall|i: int| 0 <= i < x ==> cloned(new, #[trigger] self@.tile(i, y as int)),
            {
                let tile = new.clone();
                proof {
                    self.lemma_inv();
                    self@.lemma_set_tiles(x as int, y as int, tile);
                }
                self.set(x, y, tile);
            }
        }
        proof {
            self.lemma_inv();
        }
    }

    /// The window of `width` by `height` tiles whose top left corner is at `(x, y)`, borrowed
    /// for writing, or `None` if it cannot be taken: a window with at least one tile has to lie
    /// inside the map with all of its tiles. A window without tiles can be taken anywhere.
    ///
    /// The region is a map itself, with `(0, 0)` at the window's top left corner. While it
    /// lives, the map can be reached through the region only. When the region's borrow
    /// ends, the map is what the region's writes have made of it.
    fn region_mut(&mut self, x: usize, y: usize, width: usize, height: usize) -> (region: Option<
        MapRegionMut<'_, Self::Tile, Self>,
    >) where Self: Sized
        requires
            old(self).inv(),
        ensures
            region.is_some() == old(self)@.fits(x as int, y as int, width as int, height as int),
            region.is_none() ==> *final(self) == *old(self),
            region matches Some(r) ==> r.inv() && r@.wf() && r.parent() == *old(self)
                && *final(r.map) == *final(self),
            region matches Some(r) ==> r.left == x && r.top == y && r.width == width && r.height
                == height,
            region matches Some(r) ==> r@ == old(self)@.region(
                x as int,
                y as int,
                width as nat,
                height as nat,
            ),
    {
        MapRegionMut::new(self, x, y, width, height)
    }
}

} // verus!
