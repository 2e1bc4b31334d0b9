//! The window for writing.

use vstd::prelude::*;

use super::Region;
use crate::grid::{is_clone_of, is_default, GridView};
use crate::row::{MapRows, MapRowsMut};
use crate::{MapMut, TileMap};

verus! {

/// A rectangular window of a map, borrowed for writing.
///
/// The region holds the one mutable borrow of its parent. While it lives, nothing else can
/// read or write the parent: not the parent's owner, not another region. Two windows that
/// overlap can therefore never be written at the same time.
///
/// Whatever is written through the region is written to the parent. The contracts say so
/// in terms of the borrow itself, which is why the fields are public: a contract can speak
/// of what the parent will be when the borrow ends only where it can name the field that
/// holds the borrow. A region made by hand is of use only if it satisfies
/// [`inv`](TileMap::inv), which every method asks for.
#[verifier::reject_recursive_types(T)]
#[verifier::reject_recursive_types(M)]
pub struct MapRegionMut<'a, T, M: TileMap<Tile = T>> {
    /// The parent map.
    pub map: &'a mut M,
    /// The row of the parent at which the window starts.
    pub top: usize,
    /// The column of the parent at which the window starts.
    pub left: usize,
    /// The width of the window.
    pub width: usize,
    /// The height of the window.
    pub height: usize,
}

impl<'a, T, M: TileMap<Tile = T>> MapRegionMut<'a, T, M> {
    /// The region has the window that `before` had.
    pub open spec fn same_window(&self, before: &Self) -> bool {
        &&& self.left == before.left
        &&& self.top == before.top
        &&& self.width == before.width
        &&& self.height == before.height
    }

    /// The region has the window that `before` had, and the parent is what it was for
    /// `before` but for the window, which holds what the region now shows.
    pub open spec fn wrote_through(&self, before: &Self) -> bool {
        &&& self.same_window(before)
        &&& self.map@ == before.map@.paste(before.left as int, before.top as int, self@)
    }

    /// The parent with `tile` at the place of the region's `(x, y)`; the parent itself
    /// where the region has no such position.
    pub open spec fn parent_with(&self, x: int, y: int, tile: T) -> GridView<T> {
        if self@.in_bounds(x, y) {
            self.map@.set(self.left + x, self.top + y, tile)
        } else {
            self.map@
        }
    }

    /// The window of `width` by `height` tiles of `map` whose top left corner is at `(x, y)`,
    /// or `None` if it cannot be taken: a window with at least one tile has to lie inside
    /// `map` with all of its tiles. A window without tiles can be taken anywhere.
    ///
    /// The parent is left as it is either way. When the region's borrow ends, the parent is
    /// what the region's writes have made of it.
    pub fn new(map: &'a mut M, x: usize, y: usize, width: usize, height: usize) -> (region: Option<
        Self,
    >)
        requires
            old(map).inv(),
        ensures
            region.is_some() == old(map)@.fits(x as int, y as int, width as int, height as int),
            region.is_none() ==> *final(map) == *old(map),
            region matches Some(r) ==> r.inv() && r@.wf() && r.parent() == *old(map)
                && *final(r.map) == *final(map),
            region matches Some(r) ==> r.left == x && r.top == y && r.width == width && r.height
                == height,
            region matches Some(r) ==> r@ == old(map)@.region(
                x as int,
                y as int,
                width as nat,
                height as nat,
            ),
    {
        let fits = width == 0 || height == 0 || match (
            x.checked_add(width),
            y.checked_add(height),
        ) {
            (Some(right), Some(bottom)) => right <= map.width() && bottom <= map.height(),
            _ => false,
        };
        proof {
            map.lemma_inv();
        }
        if fits {
            Some(MapRegionMut { map, top: y, left: x, width, height })
        } else {
            None
        }
    }

    /// The parent map, for reading.
    pub fn map(&self) -> (map: &M)
        ensures
            *map == self.parent(),
    {
        &*self.map
    }

    /// The parent map, for writing.
    ///
    /// Whatever the caller makes of the parent is the region's parent afterwards. The region
    /// stays valid if the parent stays valid and keeps its size.
    pub fn map_mut(&mut self) -> (map: &mut M)
        ensures
            *map == *old(self).map,
            *final(self).map == *final(map),
            *final(final(self).map) == *final(old(self).map),
            final(self).same_window(old(self)),
    {
        &mut *self.map
    }

    /// The row of the parent at which the window starts.
    pub fn top(&self) -> (top: usize)
        ensures
            top == self.top,
    {
        self.top
    }

    /// The column of the parent at which the window starts.
    pub fn left(&self) -> (left: usize)
        ensures
            left == self.left,
    {
        self.left
    }

    /// The row of the parent just below the window: `top + height`.
    ///
    /// The sum has to fit in `usize`. It does for every region that holds a tile.
    pub fn bottom(&self) -> (bottom: usize)
        requires
            self.top + self.height <= usize::MAX,
        ensures
            bottom == self.top + self.height,
    {
        self.top + self.height
    }

    /// The column of the parent just right of the window: `left + width`.
    ///
    /// The sum has to fit in `usize`. It does for every region that holds a tile.
    pub fn right(&self) -> (right: usize)
        requires
            self.left + self.width <= usize::MAX,
        ensures
            right == self.left + self.width,
    {
        self.left + self.width
    }
}

impl<'a, T, M: TileMap<Tile = T>> Region for MapRegionMut<'a, T, M> {
    type Parent = M;

    open spec fn parent(&self) -> M {
        *self.map
    }

    open spec fn spec_left(&self) -> nat {
        self.left as nat
    }

    open spec fn spec_top(&self) -> nat {
        self.top as nat
    }

    proof fn lemma_region(&self) {
    }

    fn map(&self) -> (map: &Self::Parent) {
        &*self.map
    }

    fn top(&self) -> (top: usize) {
        self.top
    }

    fn left(&self) -> (left: usize) {
        self.left
    }
}

impl<'a, T, M: TileMap<Tile = T>> TileMap for MapRegionMut<'a, T, M> {
    type Tile = T;

    open spec fn view(&self) -> GridView<T> {
        self.map@.region(self.left as int, self.top as int, self.width as nat, self.height as nat)
    }

    /// The parent is valid and the window can be taken from it.
    open spec fn inv(&self) -> bool {
        self.map.inv() && self.map@.fits(
            self.left as int,
            self.top as int,
            self.width as int,
            self.height as int,
        )
    }

    proof fn lemma_inv(&self) {
    }

    fn get(&self, x: usize, y: usize) -> (tile: Option<Self::Tile>) where Self::Tile: Copy {
        if self.in_bounds(x, y) {
            proof {
                self.map.lemma_inv();
            }
            self.map.get(self.left + x, self.top + y)
        } else {
            None
        }
    }

    fn get_ref(&self, x: usize, y: usize) -> (tile: Option<&Self::Tile>) {
        if self.in_bounds(x, y) {
            proof {
                self.map.lemma_inv();
            }
            self.map.get_ref(self.left + x, self.top + y)
        } else {
            None
        }
    }

    fn width(&self) -> (width: usize) {
        self.width
    }

    fn height(&self) -> (height: usize) {
        self.height
    }
}

impl<'a, T, M: MapMut<Tile = T>> MapMut for MapRegionMut<'a, T, M> {
    /// The tile at `(x, y)` of the window for writing; it is the tile at
    /// `(left + x, top + y)` of the parent.
    fn get_mut(&mut self, x: usize, y: usize) -> (tile: Option<&mut Self::Tile>)
        ensures
            *final(final(self).map) == *final(old(self).map),
            final(self).same_window(old(self)),
            tile.is_none() ==> final(self).map@ == old(self).map@,
            tile matches Some(t) ==> final(self).map@ == old(self).parent_with(
                x as int,
                y as int,
                *final(t),
            ),
    {
        if self.in_bounds(x, y) {
            proof {
                self.map.lemma_inv();
                assert forall|t: T| #[trigger]
                    self.map@.set(self.left + x, self.top + y, t).region(
                        self.left as int,
                        self.top as int,
                        self.width as nat,
                        self.height as nat,
                    ) == self@.set(x as int, y as int, t) by {
                    self.map@.lemma_region_set(
                        self.left as int,
                        self.top as int,
                        self.width as nat,
                        self.height as nat,
                        x as int,
                        y as int,
                        t,
                    );
                }
            }
            self.map.get_mut(self.left + x, self.top + y)
        } else {
            None
        }
    }

    /// Puts `new` at `(x, y)` of the window, which is `(left + x, top + y)` of the parent.
    fn set(&mut self, x: usize, y: usize, new: Self::Tile) -> (written: bool)
        ensures
            *final(final(self).map) == *final(old(self).map),
            final(self).same_window(old(self)),
            final(self).map@ == old(self).parent_with(x as int, y as int, new),
    {
        if let Some(tile) = self.get_mut(x, y) {
            *tile = new;
            true
        } else {
            false
        }
    }

    /// Puts `new` at `(x, y)` of the window, which is `(left + x, top + y)` of the parent, and
    /// hands back the tile that was there.
    fn replace(&mut self, x: usize, y: usize, new: Self::Tile) -> (previous: Result<
        Self::Tile,
        Self::Tile,
    >)
        ensures
            *final(final(self).map) == *final(old(self).map),
            final(self).same_window(old(self)),
            final(self).map@ == old(self).parent_with(x as int, y as int, new),
    {
        if let Some(tile) = self.get_mut(x, y) {
            let mut held = new;
            core::mem::swap(tile, &mut held);
            Ok(held)
        } else {
            Err(new)
        }
    }
    /// Puts a default tile at `(x, y)` of the window, which is `(left + x, top + y)` of the
    /// parent, and hands back the tile that was there.
    fn replace_default(&mut self, x: usize, y: usize) -> (previous: Result<
        Self::Tile,
        Self::Tile,
    >) where Self::Tile: Default
        ensures
            *final(final(self).map) == *final(old(self).map),
            final(self).same_window(old(self)),
            final(self).map@ == old(self).parent_with(
                x as int,
                y as int,
                final(self)@.tile(x as int, y as int),
            ),
    {
        let new = Self::Tile::default();
        proof {
            self.lemma_inv();
            if self@.in_bounds(x as int, y as int) {
                self@.lemma_set_tiles(x as int, y as int, new);
            }
        }
        self.replace(x, y, new)
    }

    /// Puts a default tile at `(x, y)` of the window, which is `(left + x, top + y)` of the
    /// parent.
    fn set_default(&mut self, x: usize, y: usize) -> (written: bool) where Self::Tile: Default
        ensures
            *final(final(self).map) == *final(old(self).map),
            final(self).same_window(old(self)),
            final(self).map@ == old(self).parent_with(
                x as int,
                y as int,
                final(self)@.tile(x as int, y as int),
            ),
    {
        let new = Self::Tile::default();
        proof {
            self.lemma_inv();
            if self@.in_bounds(x as int, y as int) {
                self@.lemma_set_tiles(x as int, y as int, new);
            }
        }
        self.set(x, y, new)
    }

    /// Overwrites every tile of the window with a default tile. The parent's other tiles
    /// stay as they are.
    fn clear(&mut self) where Self::Tile: Default
        ensures
            *final(final(self).map) == *final(old(self).map),
            final(self).wrote_through(old(self)),
    {
        let width = self.width;
        let height = self.height;
        proof {
            self.map.lemma_inv();
            self.map@.lemma_paste_region(
                self.left as int,
                self.top as int,
                width as nat,
                height as nat,
                self@,
            );
        }
        for y in 0..height
            invariant
                self.inv(),
                old(self).inv(),
                old(self).map@.wf(),
                self.same_window(old(self)),
                self.width == width,
                self.height == height,
                *final(self.map) == *final(old(self).map),
                self.map@ == old(self).map@.paste(self.left as int, self.top as int, self@),
                forall|i: int, j: int|
                    0 <= i < width && 0 <= j < y ==> is_default::<Self::Tile>()(
                        #[trigger] self@.rows[j][i],
                    ),
        {
            for x in 0..width
                invariant
                    self.inv(),
                    old(self).inv(),
                    old(self).map@.wf(),
                    self.same_window(old(self)),
                    self.width == width,
                    self.height == height,
                    y < height,
                    *final(self.map) == *final(old(self).map),
                    self.map@ == old(self).map@.paste(self.left as int, self.top as int, self@),
                    forall|i: int, j: int|
                        0 <= i < width && 0 <= j < y ==> is_default::<Self::Tile>()(
                            #[trigger] self@.rows[j][i],
                        ),
                    forall|i: int|
                        0 <= i < x ==> is_default::<Self::Tile>()(#[trigger] self@.rows[y as int][i]),
            {
                let ghost before = self@;
                self.set_default(x, y);
                proof {
                    let tile = self@.tile(x as int, y as int);
                    before.lemma_set_tiles(x as int, y as int, tile);
                    old(self).map@.lemma_paste_set(
                        self.left as int,
                        self.top as int,
                        before,
                        x as int,
                        y as int,
                        tile,
                    );
                }
            }
        }
    }

    /// Overwrites every tile of the window with a clone of `new`. The parent's other tiles
    /// stay as they are.
    fn clear_to(&mut self, new: Self::Tile) where Self::Tile: Clone
        ensures
            *final(final(self).map) == *final(old(self).map),
            final(self).wrote_through(old(self)),
    {
        let width = self.width;
        let height = self.height;
        proof {
            self.map.lemma_inv();
            self.map@.lemma_paste_region(
                self.left as int,
                self.top as int,
                width as nat,
                height as nat,
                self@,
            );
        }
        for y in 0..height
            invariant
                self.inv(),
                old(self).inv(),
                old(self).map@.wf(),
                self.same_window(old(self)),
                self.width == width,
                self.height == height,
                *final(self.map) == *final(old(self).map),
                self.map@ == old(self).map@.paste(self.left as int, self.top as int, self@),
                forall|i: int, j: int|
                    0 <= i < width && 0 <= j < y ==> cloned(new, #[trigger] self@.rows[j][i]),
        {
            for x in 0..width
                invariant
                    self.inv(),
                    old(self).inv(),
                    old(self).map@.wf(),
                    self.same_window(old(self)),
                    self.width == width,
                    self.height == height,
                    y < height,
                    *final(self.map) == *final(old(self).map),
                    self.map@ == old(self).map@.paste(self.left as int, self.top as int, self@),
                    forall|i: int, j: int|
                        0 <= i < width && 0 <= j < y ==> cloned(new, #[trigger] self@.rows[j][i]),
                    forall|i: int| 0 <= i < x ==> cloned(new, #[trigger] self@.rows[y as int][i]),
            {
                let ghost before = self@;
                let tile = new.clone();
                self.set(x, y, tile);
                proof {
                    before.lemma_set_tiles(x as int, y as int, tile);
                    old(self).map@.lemma_paste_set(
                        self.left as int,
                        self.top as int,
                        before,
                        x as int,
                        y as int,
                        tile,
                    );
                }
            }
        }
    }
}

impl<'a, T, M: MapRows<Tile = T>> MapRows for MapRegionMut<'a, T, M> {
    fn row(&self, row: usize) -> (tiles: Option<&[Self::Tile]>) {
        if row >= self.height {
            None
        } else if self.width == 0 {
            let tiles: &[T] = &[];
            proof {
                assert(tiles@ =~= self@.rows[row as int]);
            }
            Some(tiles)
        } else {
            proof {
                self.map.lemma_inv();
                self.map@.lemma_region_row(
                    self.left as int,
                    self.top as int,
                    self.width as nat,
                    self.height as nat,
                    row as int,
                );
            }
            match self.map.row(self.top + row) {
                Some(tiles) => Some(
                    vstd::slice::slice_subrange(tiles, self.left, self.left + self.width),
                ),
                None => None,
            }
        }
    }

    fn rows(&self) -> (rows: Vec<&[Self::Tile]>) {
        let mut rows: Vec<&[T]> = Vec::new();
        while rows.len() < self.height
            invariant
                self.inv(),
                rows@.len() <= self.height,
                forall|y: int|
                    0 <= y < rows@.len() ==> (#[trigger] rows@[y])@ == self@.rows[y] && rows@[y]@.len()
                        == self@.width,
            decreases self.height - rows@.len(),
        {
            match self.row(rows.len()) {
                Some(tiles) => rows.push(tiles),
                None => {},
            }
        }
        rows
    }
}

impl<'a, T, M: MapRowsMut<Tile = T>> MapRowsMut for MapRegionMut<'a, T, M> {
    /// The tiles of row `row` of the window for writing; they are the part of row
    /// `top + row` of the parent that the window spans.
    fn row_mut(&mut self, row: usize) -> (tiles: Option<&mut [Self::Tile]>)
        ensures
            *final(final(self).map) == *final(old(self).map),
            final(self).same_window(old(self)),
            tiles.is_none() ==> final(self).map@ == old(self).map@,
            tiles matches Some(t) ==> (final(t)@.len() == t@.len()
                ==> final(self).wrote_through(old(self))),
    {
        if row >= self.height {
            None
        } else if self.width == 0 {
            let tiles: &mut [T] = &mut [];
            proof {
                self.map.lemma_inv();
                assert(tiles@ =~= self@.rows[row as int]);
                assert forall|after: Seq<T>| after.len() == 0 implies #[trigger] self@.with_row(
                    row as int,
                    after,
                ) == self@ by {
                    assert(self@.with_row(row as int, after).rows =~~= self@.rows);
                }
                self.map@.lemma_paste_region(
                    self.left as int,
                    self.top as int,
                    self.width as nat,
                    self.height as nat,
                    self@,
                );
            }
            Some(tiles)
        } else {
            let left = self.left;
            let width = self.width;
            proof {
                self.map.lemma_inv();
                let parent = self.map@;
                let whole = parent.rows[self.top + row];
                let tail = whole.subrange(left as int, whole.len() as int);
                assert(whole.len() == parent.width);
                parent.lemma_region_row(
                    left as int,
                    self.top as int,
                    width as nat,
                    self.height as nat,
                    row as int,
                );
                assert(tail.subrange(0, width as int) =~= whole.subrange(
                    left as int,
                    left + width,
                ));
                assert forall|after: Seq<T>| after.len() == width implies {
                    &&& (#[trigger] parent.with_row(
                        self.top + row,
                        whole.subrange(0, left as int) + (after + tail.subrange(
                            width as int,
                            tail.len() as int,
                        )),
                    )).region(left as int, self.top as int, width as nat, self.height as nat)
                        == self@.with_row(row as int, after)
                    &&& parent.with_row(
                        self.top + row,
                        whole.subrange(0, left as int) + (after + tail.subrange(
                            width as int,
                            tail.len() as int,
                        )),
                    ) == parent.paste(
                        left as int,
                        self.top as int,
                        self@.with_row(row as int, after),
                    )
                } by {
                    assert(whole.subrange(0, left as int) + (after + tail.subrange(
                        width as int,
                        tail.len() as int,
                    )) =~= whole.subrange(0, left as int) + after + whole.subrange(
                        left + width,
                        parent.width as int,
                    ));
                    parent.lemma_region_with_row(
                        left as int,
                        self.top as int,
                        width as nat,
                        self.height as nat,
                        row as int,
                        after,
                    );
                }
            }
            match self.map.row_mut(self.top + row) {
                Some(whole) => {
                    let (_, tail) = whole.split_at_mut(left);
                    let (tiles, _) = tail.split_at_mut(width);
                    Some(tiles)
                },
                None => None,
            }
        }
    }

    /// The rows of the window for writing, top to bottom; each is the part of a row of the
    /// parent that the window spans. The parent's other tiles stay as they are.
    fn rows_mut(&mut self) -> (rows: Vec<&mut [Self::Tile]>)
        ensures
            *final(final(self).map) == *final(old(self).map),
            final(self).same_window(old(self)),
            (forall|y: int|
                0 <= y < rows@.len() ==> final(rows@[y])@.len()
                    == (#[trigger] old(self)@.rows[y]).len())
                ==> final(self).wrote_through(old(self)),
    {
        let left = self.left;
        let top = self.top;
        let width = self.width;
        let height = self.height;
        let ghost region = self@;
        let ghost parent = self.map@;
        proof {
            self.map.lemma_inv();
            parent.lemma_paste_region(left as int, top as int, width as nat, height as nat, region);
        }
        let mut rows: Vec<&mut [T]> = Vec::new();
        if width == 0 || height == 0 {
            // Nothing of the parent is handed out: a window without rows has none, and a
            // window without columns has rows without tiles.
            while width == 0 && rows.len() < height
                invariant
                    region.wf(),
                    region.width == width,
                    height == region.height(),
                    rows@.len() <= height,
                    forall|y: int|
                        0 <= y < rows@.len() ==> rows@[y]@ == #[trigger] region.rows[y]
                            && rows@[y]@.len() == width,
                decreases height - rows@.len(),
            {
                let tiles: &mut [T] = &mut [];
                proof {
                    assert(tiles@ =~= region.rows[rows@.len() as int]);
                }
                rows.push(tiles);
            }
            proof {
                let rows_after = Seq::new(rows@.len(), |y: int| final(rows@[y])@);
                assert forall|y: int|
                    (forall|k: int|
                        0 <= k < rows@.len() ==> final(rows@[k])@.len() == (
                        #[trigger] region.rows[k]).len()) && 0 <= y < rows_after.len() implies (
                #[trigger] rows_after[y]) == region.rows[y] by {
                    assert(region.rows[y].len() == 0);
                    assert(rows_after[y] =~= region.rows[y]);
                }
                assert((forall|k: int|
                    0 <= k < rows@.len() ==> final(rows@[k])@.len() == (
                    #[trigger] region.rows[k]).len()) ==> rows_after =~= region.rows);
            }
            return rows;
        }
        let bottom = top + height;
        let mut parent_rows = self.map.rows_mut();
        let ghost handed = parent_rows@;
        while parent_rows.len() > bottom
            invariant
                handed.len() == parent.height(),
                bottom <= parent_rows@.len() <= handed.len(),
                parent_rows@ == handed.subrange(0, parent_rows@.len() as int),
                forall|r: int| 0 <= r < handed.len() ==> handed[r]@ == #[trigger] parent.rows[r],
                forall|r: int|
                    parent_rows@.len() <= r < handed.len() ==> final(handed[r])@
                        == #[trigger] parent.rows[r],
            decreases parent_rows@.len(),
        {
            let ghost r = parent_rows@.len() - 1;
            match parent_rows.pop() {
                Some(below) => {
                    assert(below == handed[r]);
                    assert(final(below)@ == below@);
                },
                None => {},
            }
        }
        let mut reversed: Vec<&mut [T]> = Vec::new();
        while parent_rows.len() > top
            invariant
                parent.wf(),
                region == parent.region(left as int, top as int, width as nat, height as nat),
                0 < width,
                left + width <= parent.width,
                bottom == top + height,
                bottom <= handed.len(),
                handed.len() == parent.height(),
                top <= parent_rows@.len() <= bottom,
                parent_rows@ == handed.subrange(0, parent_rows@.len() as int),
                forall|r: int| 0 <= r < handed.len() ==> handed[r]@ == #[trigger] parent.rows[r],
                forall|r: int|
                    bottom <= r < handed.len() ==> final(handed[r])@ == #[trigger] parent.rows[r],
                reversed@.len() == bottom - parent_rows@.len(),
                forall|y: int|
                    parent_rows@.len() - top <= y < height ==> reversed@[height - 1 - y]@
                        == #[trigger] region.rows[y],
                forall|r: int|
                    parent_rows@.len() <= r < bottom ==> final(handed[r])@ == (
                    #[trigger] parent.rows[r]).subrange(0, left as int)
                        + final(reversed@[bottom - 1 - r])@
                        + parent.rows[r].subrange(left + width, parent.width as int),
            decreases parent_rows@.len(),
        {
            let ghost r = parent_rows@.len() - 1;
            proof {
                assert(parent.rows[r].len() == parent.width);
                parent.lemma_region_row(
                    left as int,
                    top as int,
                    width as nat,
                    height as nat,
                    r - top,
                );
            }
            match parent_rows.pop() {
                Some(whole) => {
                    let ghost whole_after = final(whole)@;
                    let (_, tail) = whole.split_at_mut(left);
                    let (tiles, _) = tail.split_at_mut(width);
                    proof {
                        assert(tiles@ =~= parent.rows[r].subrange(left as int, left + width));
                        assert(whole_after =~= parent.rows[r].subrange(0, left as int)
                            + final(tiles)@
                            + parent.rows[r].subrange(left + width, parent.width as int));
                    }
                    reversed.push(tiles);
                },
                None => {},
            }
        }
        while rows.len() < height
            invariant
                parent.wf(),
                region.height() == height,
                bottom == top + height,
                bottom <= parent.height(),
                rows@.len() + reversed@.len() == height,
                forall|y: int| 0 <= y < rows@.len() ==> rows@[y]@ == #[trigger] region.rows[y],
                forall|y: int|
                    rows@.len() <= y < height ==> reversed@[height - 1 - y]@
                        == #[trigger] region.rows[y],
                forall|r: int|
                    top <= r < top + rows@.len() ==> final(handed[r])@ == (
                    #[trigger] parent.rows[r]).subrange(0, left as int) + final(rows@[r - top])@
                        + parent.rows[r].subrange(left + width, parent.width as int),
                forall|r: int|
                    top + rows@.len() <= r < bottom ==> final(handed[r])@ == (
                    #[trigger] parent.rows[r]).subrange(0, left as int)
                        + final(reversed@[bottom - 1 - r])@
                        + parent.rows[r].subrange(left + width, parent.width as int),
            decreases height - rows@.len(),
        {
            let ghost next = rows@.len() as int;
            let ghost above = rows@;
            let ghost below = reversed@;
            proof {
                assert(parent.rows[top + next].len() == parent.width);
                assert(below[height - 1 - next]@ == region.rows[next]);
            }
            match reversed.pop() {
                Some(tiles) => {
                    let ghost tiles_after = final(tiles)@;
                    rows.push(tiles);
                    assert(final(rows@[next])@ == tiles_after);
                },
                None => {},
            }
            proof {
                assert forall|y: int| 0 <= y < rows@.len() implies rows@[y]@
                    == #[trigger] region.rows[y] by {
                    if y < next {
                        assert(rows@[y] == above[y]);
                    }
                }
                assert forall|y: int| rows@.len() <= y < height implies reversed@[height - 1 - y]@
                    == #[trigger] region.rows[y] by {
                    assert(reversed@[height - 1 - y] == below[height - 1 - y]);
                }
                assert forall|r: int| top <= r < top + rows@.len() implies final(handed[r])@ == (
                #[trigger] parent.rows[r]).subrange(0, left as int) + final(rows@[r - top])@
                    + parent.rows[r].subrange(left + width, parent.width as int) by {
                    if r < top + next {
                        assert(rows@[r - top] == above[r - top]);
                    }
                }
                assert forall|r: int| top + rows@.len() <= r < bottom implies final(handed[r])@ == (
                #[trigger] parent.rows[r]).subrange(0, left as int)
                    + final(reversed@[bottom - 1 - r])@
                    + parent.rows[r].subrange(left + width, parent.width as int) by {
                    assert(reversed@[bottom - 1 - r] == below[bottom - 1 - r]);
                }
            }
        }
        proof {
            assert forall|y: int| 0 <= y < rows@.len() implies #[trigger] rows@[y]@ == region.rows[y]
                && rows@[y]@.len() == width by {
                assert(region.rows[y].len() == width);
            }
            let rows_after = Seq::new(handed.len(), |r: int| final(handed[r])@);
            let window_after = Seq::new(rows@.len(), |y: int| final(rows@[y])@);
            assert forall|r: int| 0 <= r < top implies final(handed[r])@ == #[trigger] parent.rows[r] by {
                assert(handed[r] == parent_rows@[r]);
            }
            parent.lemma_region_with_rows(
                left as int,
                top as int,
                width as nat,
                height as nat,
                rows_after,
                window_after,
            );
            assert forall|y: int|
                (forall|k: int|
                    0 <= k < rows@.len() ==> final(rows@[k])@.len() == (
                    #[trigger] region.rows[k]).len()) && 0 <= y < height implies (
            #[trigger] window_after[y]).len() == width by {
                assert(region.rows[y].len() == width);
            }
        }
        rows
    }
}

} // verus!