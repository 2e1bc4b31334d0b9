//! The window for reading.

use vstd::prelude::*;

use super::Region;
use crate::grid::GridView;
use crate::row::MapRows;
use crate::TileMap;

verus! {

/// A rectangular window of a map, borrowed for reading.
///
/// Any number of such regions of one map can be held at a time, whether their windows
/// overlap or not.
#[verifier::reject_recursive_types(T)]
#[verifier::reject_recursive_types(M)]
pub struct MapRegion<'a, T, M: TileMap<Tile = T>> {
    map: &'a M,
    top: usize,
    left: usize,
    width: usize,
    height: usize,
}

impl<'a, T, M: TileMap<Tile = T>> MapRegion<'a, T, M> {
    /// The window of `width` by `height` tiles of `map` whose top left corner is at `(x, y)`,
    /// or `None` if it cannot be taken: a window with at least one tile has to lie inside
    /// `map` with all of its tiles. A window without tiles can be taken anywhere.
    pub fn new(map: &'a M, x: usize, y: usize, width: usize, height: usize) -> (region: Option<Self>)
        requires
            map.inv(),
        ensures
            region.is_some() == map@.fits(x as int, y as int, width as int, height as int),
            region matches Some(r) ==> r.inv() && r@.wf() && r.parent() == *map && r.spec_left() == x
                && r.spec_top() == y && r@ == map@.region(
                x as int,
                y as int,
                width as nat,
                height as nat,
            ),
    {
        let fits = width == 0 || height == 0 || match (
            x.checked_add(width),
            y.checked_add(height),
        ) {
            (Some(right), Some(bottom)) => right <= map.width() && bottom <= map.height(),
            _ => false,
        };
        proof {
            map.lemma_inv();
        }
        if fits {
            Some(MapRegion { map, top: y, left: x, width, height })
        } else {
            None
        }
    }

    /// The parent map.
    pub fn map(&self) -> (map: &M)
        ensures
            *map == self.parent(),
    {
        self.map
    }

    /// The row of the parent at which the window starts.
    pub fn top(&self) -> (top: usize)
        ensures
            top == self.spec_top(),
    {
        self.top
    }

    /// The column of the parent at which the window starts.
    pub fn left(&self) -> (left: usize)
        ensures
            left == self.spec_left(),
    {
        self.left
    }

    /// The row of the parent just below the window: `top + height`.
    ///
    /// The sum has to fit in `usize`. It does for every region that holds a tile.
    pub fn bottom(&self) -> (bottom: usize)
        requires
            self.spec_top() + self@.height() <= usize::MAX,
        ensures
            bottom == self.spec_top() + self@.height(),
    {
        self.top + self.height
    }

    /// The column of the parent just right of the window: `left + width`.
    ///
    /// The sum has to fit in `usize`. It does for every region that holds a tile.
    pub fn right(&self) -> (right: usize)
        requires
            self.spec_left() + self@.width <= usize::MAX,
        ensures
            right == self.spec_left() + self@.width,
    {
        self.left + self.width
    }
}

impl<'a, T, M: TileMap<Tile = T>> Region for MapRegion<'a, T, M> {
    type Parent = M;

    closed spec fn parent(&self) -> M {
        *self.map
    }

    closed spec fn spec_left(&self) -> nat {
        self.left as nat
    }

    closed spec fn spec_top(&self) -> nat {
        self.top as nat
    }

    proof fn lemma_region(&self) {
    }

    fn map(&self) -> (map: &Self::Parent) {
        self.map
    }

    fn top(&self) -> (top: usize) {
        self.top
    }

    fn left(&self) -> (left: usize) {
        self.left
    }
}

impl<'a, T, M: TileMap<Tile = T>> TileMap for MapRegion<'a, T, M> {
    type Tile = T;

    closed spec fn view(&self) -> GridView<T> {
        self.map@.region(self.left as int, self.top as int, self.width as nat, self.height as nat)
    }

    /// The parent is valid and the window can be taken from it.
    closed spec fn inv(&self) -> bool {
        self.map.inv() && self.map@.fits(
            self.left as int,
            self.top as int,
            self.width as int,
            self.height as int,
        )
    }

    proof fn lemma_inv(&self) {
    }

    fn get(&self, x: usize, y: usize) -> (tile: Option<Self::Tile>) where Self::Tile: Copy {
        if self.in_bounds(x, y) {
            proof {
                self.map.lemma_inv();
            }
            self.map.get(self.left + x, self.top + y)
        } else {
            None
        }
    }

    fn get_ref(&self, x: usize, y: usize) -> (tile: Option<&Self::Tile>) {
        if self.in_bounds(x, y) {
            proof {
                self.map.lemma_inv();
            }
            self.map.get_ref(self.left + x, self.top + y)
        } else {
            None
        }
    }

    fn width(&self) -> (width: usize) {
        self.width
    }

    fn height(&self) -> (height: usize) {
        self.height
    }
}

impl<'a, T, M: MapRows<Tile = T>> MapRows for MapRegion<'a, T, M> {
    fn row(&self, row: usize) -> (tiles: Option<&[Self::Tile]>) {
        if row >= self.height {
            None
        } else if self.width == 0 {
            let tiles: &[T] = &[];
            proof {
                assert(tiles@ =~= self@.rows[row as int]);
            }
            Some(tiles)
        } else {
            proof {
                self.map.lemma_inv();
                self.map@.lemma_region_row(
                    self.left as int,
                    self.top as int,
                    self.width as nat,
                    self.height as nat,
                    row as int,
                );
            }
            match self.map.row(self.top + row) {
                Some(tiles) => Some(
                    vstd::slice::slice_subrange(tiles, self.left, self.left + self.width),
                ),
                None => None,
            }
        }
    }

    fn rows(&self) -> (rows: Vec<&[Self::Tile]>) {
        let mut rows: Vec<&[T]> = Vec::new();
        while rows.len() < self.height
            invariant
                self.inv(),
                rows@.len() <= self.height,
                forall|y: int|
                    0 <= y < rows@.len() ==> (#[trigger] rows@[y])@ == self@.rows[y] && rows@[y]@.len()
                        == self@.width,
            decreases self.height - rows@.len(),
        {
            match self.row(rows.len()) {
                Some(tiles) => rows.push(tiles),
                None => {},
            }
        }
        rows
    }
}

} // verus!
