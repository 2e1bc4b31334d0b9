//! A map that keeps its tiles on the heap.

use vstd::prelude::*;

use super::{MapRows, MapRowsMut};
use crate::grid::{flatten, is_clone_of, is_copy_of, is_default, GridView};
use crate::{MapMut, TileMap};

verus! {

/// A map whose size is chosen when it is made.
///
/// The tiles are stored in one buffer, row after row: row `r` takes the cells from
/// `r * width` up to `(r + 1) * width`. The height is not stored: it is the number of cells
/// divided by the width, and zero where the width is zero.
///
/// For very small maps of a fixed size, see [`StaticMap`](super::StaticMap).
pub struct DynamicMap<T> {
    tiles: Vec<T>,
    width: usize,
}

impl<T> DynamicMap<T> {
    /// A map of `width` by `height` tiles, each one a default tile.
    ///
    /// A map without columns has no tiles and therefore no rows either.
    pub fn new(width: usize, height: usize) -> (map: Self) where T: Default
        requires
            width * height <= usize::MAX,
        ensures
            map.inv(),
            map@.wf(),
            map@.width == width,
            map@.height() == (if width == 0 {
                0
            } else {
                height
            }),
            map@.all_tiles(is_default::<T>()),
    {
        let count = width * height;
        let mut tiles: Vec<T> = Vec::new();
        while tiles.len() < count
            invariant
                tiles@.len() <= count,
                forall|i: int| 0 <= i < tiles@.len() ==> is_default::<T>()(#[trigger] tiles@[i]),
            decreases count - tiles@.len(),
        {
            tiles.push(T::default());
        }
        let map = DynamicMap { tiles, width };
        proof {
            Self::lemma_filled(map.tiles@, width as nat, height as nat, is_default::<T>());
        }
        map
    }

    /// A map of `width` by `height` tiles, each one a copy of one default tile.
    ///
    /// A map without columns has no tiles and therefore no rows either.
    pub fn default_copy(width: usize, height: usize) -> (map: Self) where T: Copy + Default
        requires
            width * height <= usize::MAX,
        ensures
            map.inv(),
            map@.wf(),
            map@.width == width,
            map@.height() == (if width == 0 {
                0
            } else {
                height
            }),
            map@.all_tiles(is_default::<T>()),
            exists|tile: T| #[trigger] map@.all_tiles(is_copy_of(tile)),
    {
        let count = width * height;
        let tile = T::default();
        let mut tiles: Vec<T> = Vec::new();
        while tiles.len() < count
            invariant
                tiles@.len() <= count,
                is_default::<T>()(tile),
                forall|i: int| 0 <= i < tiles@.len() ==> #[trigger] tiles@[i] == tile,
            decreases count - tiles@.len(),
        {
            tiles.push(tile);
        }
        let map = DynamicMap { tiles, width };
        proof {
            Self::lemma_filled(map.tiles@, width as nat, height as nat, is_default::<T>());
            Self::lemma_filled(map.tiles@, width as nat, height as nat, is_copy_of(tile));
            assert(map@.all_tiles(is_copy_of(tile)));
        }
        map
    }

    /// A map of `width` by `height` tiles, each one a clone of `tile`.
    ///
    /// A map without columns has no tiles and therefore no rows either.
    pub fn filled(width: usize, height: usize, tile: T) -> (map: Self) where T: Clone
        requires
            width * height <= usize::MAX,
        ensures
            map.inv(),
            map@.wf(),
            map@.width == width,
            map@.height() == (if width == 0 {
                0
            } else {
                height
            }),
            map@.all_tiles(is_clone_of(tile)),
    {
        let count = width * height;
        let mut tiles: Vec<T> = Vec::new();
        while tiles.len() < count
            invariant
                tiles@.len() <= count,
                forall|i: int| 0 <= i < tiles@.len() ==> cloned(tile, #[trigger] tiles@[i]),
            decreases count - tiles@.len(),
        {
            tiles.push(tile.clone());
        }
        let map = DynamicMap { tiles, width };
        proof {
            Self::lemma_filled(map.tiles@, width as nat, height as nat, is_clone_of(tile));
        }
        map
    }

    /// A map of the given width without rows, with room for `rows` of them in its buffer.
    pub fn with_capacity(width: usize, rows: usize) -> (map: Self)
        requires
            width * rows <= usize::MAX,
        ensures
            map.inv(),
            map@.wf(),
            map@.width == width,
            map@.height() == 0,
    {
        proof {
            if width > 0 {
                assert(0nat % (width as nat) == 0) by (nonlinear_arith)
                    requires
                        width > 0,
                ;
            }
        }
        DynamicMap { tiles: Vec::with_capacity(width * rows), width }
    }

    /// The map of the given width whose tiles are stored in `tiles`, row after row, or
    /// `None` if `tiles` does not hold whole rows: its length has to be a multiple of
    /// `width`, and zero where `width` is zero.
    pub fn from_vec(tiles: Vec<T>, width: usize) -> (map: Option<Self>)
        ensures
            map.is_some() == (if width == 0 {
                tiles@.len() == 0
            } else {
                tiles@.len() % (width as nat) == 0
            }),
            map matches Some(m) ==> m.inv() && m@.wf() && m@ == GridView::row_major(
                tiles@,
                width as nat,
            ),
    {
        let whole_rows = if width == 0 {
            tiles.len() == 0
        } else {
            tiles.len() % width == 0
        };
        if whole_rows {
            Some(DynamicMap { tiles, width })
        } else {
            None
        }
    }

    /// A buffer of `width * height` cells that all satisfy `pred` is a valid map of that
    /// size whose tiles all satisfy `pred`.
    proof fn lemma_filled(cells: Seq<T>, width: nat, height: nat, pred: spec_fn(T) -> bool)
        requires
            cells.len() == width * height,
            forall|i: int| 0 <= i < cells.len() ==> pred(#[trigger] cells[i]),
        ensures
            width == 0 ==> cells.len() == 0,
            width > 0 ==> cells.len() % width == 0 && cells.len() / width == height,
            GridView::row_major(cells, width).all_tiles(pred),
    {
        if width > 0 {
            assert((width * height) % width == 0 && (width * height) / width == height)
                by (nonlinear_arith)
                requires
                    width > 0,
            ;
        } else {
            assert(width * height == 0) by (nonlinear_arith)
                requires
                    width == 0,
            ;
        }
        let grid = GridView::row_major(cells, width);
        assert forall|x: int, y: int| grid.in_bounds(x, y) implies pred(
            #[trigger] grid.tile(x, y),
        ) by {
            GridView::lemma_row_major_index(cells, width, x, y);
        }
    }

    /// Where the tile at `(x, y)` is stored, or `None` if the position is out of bounds.
    fn index_of(&self, x: usize, y: usize) -> (index: Option<usize>)
        requires
            self.inv(),
        ensures
            index.is_some() == self@.in_bounds(x as int, y as int),
            index matches Some(i) ==> i == y * self.width + x && i < self.tiles@.len()
                && self.tiles@[i as int] == self@.tile(x as int, y as int),
    {
        if x < self.width && y < self.tiles.len() / self.width {
            proof {
                GridView::lemma_row_major_index(self.tiles@, self.width as nat, x as int, y as int);
            }
            Some(y * self.width + x)
        } else {
            None
        }
    }

    /// Where row `row` is stored: the index of its first cell, or `None` if the map has no
    /// such row.
    fn row_start(&self, row: usize) -> (start: Option<usize>)
        requires
            self.inv(),
        ensures
            start.is_some() == (row < self@.height()),
            start matches Some(s) ==> s == row * self.width && s + self.width
                <= self.tiles@.len() && self.tiles@.subrange(s as int, s + self.width)
                == self@.rows[row as int],
    {
        if self.width > 0 && row < self.tiles.len() / self.width {
            proof {
                GridView::lemma_row_major_row(self.tiles@, self.width as nat, row as int);
            }
            Some(row * self.width)
        } else {
            None
        }
    }
}

impl<T: Clone> Clone for DynamicMap<T> {
    /// A map of the same size whose tiles are clones of the tiles of this one.
    fn clone(&self) -> (copy: Self)
        ensures
            self.inv() ==> copy.inv(),
            copy@.wf(),
            copy@.width == self@.width,
            copy@.height() == self@.height(),
            forall|x: int, y: int|
                self@.in_bounds(x, y) ==> cloned(self@.rows[y][x], #[trigger] copy@.rows[y][x]),
    {
        let copy = DynamicMap { tiles: self.tiles.clone(), width: self.width };
        proof {
            assert forall|x: int, y: int| self@.in_bounds(x, y) implies cloned(
                self@.rows[y][x],
                #[trigger] copy@.rows[y][x],
            ) by {
                GridView::lemma_row_major_index(self.tiles@, self.width as nat, x, y);
                GridView::lemma_row_major_index(copy.tiles@, copy.width as nat, x, y);
            }
        }
        copy
    }
}

impl<T> TileMap for DynamicMap<T> {
    type Tile = T;

    closed spec fn view(&self) -> GridView<T> {
        GridView::row_major(self.tiles@, self.width as nat)
    }

    /// The buffer holds whole rows only.
    closed spec fn inv(&self) -> bool {
        if self.width == 0 {
            self.tiles@.len() == 0
        } else {
            self.tiles@.len() % (self.width as nat) == 0
        }
    }

    proof fn lemma_inv(&self) {
        GridView::lemma_row_major_wf(self.tiles@, self.width as nat);
        assert(self.tiles.len() == self.tiles@.len());
    }

    fn get(&self, x: usize, y: usize) -> (tile: Option<Self::Tile>) where Self::Tile: Copy {
        match self.index_of(x, y) {
            Some(i) => Some(self.tiles[i]),
            None => None,
        }
    }

    fn get_ref(&self, x: usize, y: usize) -> (tile: Option<&Self::Tile>) {
        match self.index_of(x, y) {
            Some(i) => Some(&self.tiles[i]),
            None => None,
        }
    }

    fn width(&self) -> (width: usize) {
        self.width
    }

    fn height(&self) -> (height: usize) {
        if self.width == 0 {
            0
        } else {
            self.tiles.len() / self.width
        }
    }
}

impl<T> MapMut for DynamicMap<T> {
    fn get_mut(&mut self, x: usize, y: usize) -> (tile: Option<&mut Self::Tile>) {
        match self.index_of(x, y) {
            Some(i) => {
                proof {
                    assert forall|t: T| #[trigger]
                        GridView::row_major(self.tiles@.update(i as int, t), self.width as nat)
                            == self@.set(x as int, y as int, t) by {
                        GridView::lemma_row_major_set(
                            self.tiles@,
                            self.width as nat,
                            x as int,
                            y as int,
                            t,
                        );
                    }
                }
                Some(&mut self.tiles[i])
            },
            None => None,
        }
    }

    fn clear(&mut self) where Self::Tile: Default {
        let count = self.tiles.len();
        for i in 0..count
            invariant
                self.tiles@.len() == count,
                self.width == old(self).width,
                forall|k: int| 0 <= k < i ==> is_default::<T>()(#[trigger] self.tiles@[k]),
        {
            self.tiles[i] = T::default();
        }
        proof {
            Self::lemma_cleared(old(self).tiles@, self.tiles@, self.width as nat, is_default::<T>());
        }
    }

    fn clear_to(&mut self, new: Self::Tile) where Self::Tile: Clone {
        let count = self.tiles.len();
        for i in 0..count
            invariant
                self.tiles@.len() == count,
                self.width == old(self).width,
                forall|k: int| 0 <= k < i ==> cloned(new, #[trigger] self.tiles@[k]),
        {
            self.tiles[i] = new.clone();
        }
        proof {
            Self::lemma_cleared(old(self).tiles@, self.tiles@, self.width as nat, is_clone_of(new));
        }
    }
}

impl<T> DynamicMap<T> {
    /// A buffer of the same length whose cells all satisfy `pred` is a grid of the same
    /// size whose tiles all satisfy `pred`.
    proof fn lemma_cleared(before: Seq<T>, after: Seq<T>, width: nat, pred: spec_fn(T) -> bool)
        requires
            after.len() == before.len(),
            forall|i: int| 0 <= i < after.len() ==> pred(#[trigger] after[i]),
        ensures
            GridView::row_major(after, width).height() == GridView::row_major(
                before,
                width,
            ).height(),
            GridView::row_major(after, width).all_tiles(pred),
    {
        let grid = GridView::row_major(after, width);
        assert forall|x: int, y: int| grid.in_bounds(x, y) implies pred(
            #[trigger] grid.tile(x, y),
        ) by {
            GridView::lemma_row_major_index(after, width, x, y);
        }
    }
}

impl<T> DynamicMap<T> {
    /// A buffer made of rows of the map's width is a valid buffer, and stores those rows.
    proof fn lemma_rows_written(rows: Seq<Seq<T>>, width: nat)
        requires
            width > 0 || rows.len() == 0,
        ensures
            (forall|y: int| 0 <= y < rows.len() ==> (#[trigger] rows[y]).len() == width) ==> {
                &&& GridView::row_major(flatten(rows), width) == (GridView { width, rows })
                &&& width > 0 ==> flatten(rows).len() % width == 0
                &&& width == 0 ==> flatten(rows).len() == 0
            },
    {
        if forall|y: int| 0 <= y < rows.len() ==> (#[trigger] rows[y]).len() == width {
            GridView::lemma_row_major_flatten(rows, width);
            if width > 0 {
                assert((rows.len() * width) % width == 0) by (nonlinear_arith)
                    requires
                        width > 0,
                ;
            }
        }
    }
}

impl<T> MapRows for DynamicMap<T> {
    fn row(&self, row: usize) -> (tiles: Option<&[Self::Tile]>) {
        match self.row_start(row) {
            Some(start) => {
                let count = self.tiles.len();
                Some(vstd::slice::slice_subrange(self.tiles.as_slice(), start, start + self.width))
            },
            None => None,
        }
    }

    fn rows(&self) -> (rows: Vec<&[Self::Tile]>) {
        let height = self.height();
        let mut rows: Vec<&[T]> = Vec::new();
        while rows.len() < height
            invariant
                self.inv(),
                height == self@.height(),
                rows@.len() <= height,
                forall|y: int|
                    0 <= y < rows@.len() ==> (#[trigger] rows@[y])@ == self@.rows[y] && rows@[y]@.len()
                        == self@.width,
            decreases height - rows@.len(),
        {
            match self.row(rows.len()) {
                Some(tiles) => rows.push(tiles),
                None => {},
            }
        }
        rows
    }
}

impl<T> MapRowsMut for DynamicMap<T> {
    fn row_mut(&mut self, row: usize) -> (tiles: Option<&mut [Self::Tile]>) {
        match self.row_start(row) {
            Some(start) => {
                let width = self.width;
                let count = self.tiles.len();
                proof {
                    let cells = self.tiles@;
                    let tail = cells.subrange(start as int, count as int);
                    assert(tail.subrange(0, width as int) =~= cells.subrange(
                        start as int,
                        start + width,
                    ));
                    assert forall|row_after: Seq<T>| row_after.len() == width implies #[trigger]
                        GridView::row_major(
                            cells.subrange(0, start as int) + (row_after + tail.subrange(
                                width as int,
                                tail.len() as int,
                            )),
                            width as nat,
                        ) == self@.with_row(row as int, row_after) by {
                        assert(cells.subrange(0, start as int) + (row_after + tail.subrange(
                            width as int,
                            tail.len() as int,
                        )) =~= cells.subrange(0, start as int) + row_after + cells.subrange(
                            start + width,
                            count as int,
                        ));
                        GridView::lemma_row_major_with_row(cells, width as nat, row as int, row_after);
                    }
                }
                let (_, tail) = self.tiles.as_mut_slice().split_at_mut(start);
                let (tiles, _) = tail.split_at_mut(width);
                Some(tiles)
            },
            None => None,
        }
    }

    fn rows_mut(&mut self) -> (rows: Vec<&mut [Self::Tile]>) {
        let width = self.width;
        let height = self.height();
        let ghost cells = self.tiles@;
        let ghost grid = self@;
        let ghost cells_after = final(self).tiles@;
        proof {
            self.lemma_inv();
        }
        let mut rows: Vec<&mut [T]> = Vec::new();
        let mut rest: &mut [T] = self.tiles.as_mut_slice();
        let mut y: usize = 0;
        proof {
            assert(Seq::new(0nat, |k: int| final(rows@[k])@) =~= Seq::<Seq<T>>::empty());
            assert(rest@ =~= cells.subrange(0, cells.len() as int));
        }
        while y < height
            invariant
                grid.wf(),
                grid == GridView::row_major(cells, width as nat),
                height == grid.height(),
                y <= height,
                rows@.len() == y,
                0 <= y * width <= cells.len(),
                rest@ == cells.subrange(y * width, cells.len() as int),
                forall|k: int|
                    0 <= k < y ==> rows@[k]@ == #[trigger] grid.rows[k] && rows@[k]@.len() == width,
                cells_after == flatten(Seq::new(y as nat, |k: int| final(rows@[k])@))
                    + final(rest)@,
            decreases height - y,
        {
            proof {
                GridView::lemma_row_major_row(cells, width as nat, y as int);
                assert(rest@.subrange(0, width as int) =~= cells.subrange(
                    y * width,
                    y * width + width,
                ));
                assert(rest@.subrange(width as int, rest@.len() as int) =~= cells.subrange(
                    (y + 1) * width,
                    cells.len() as int,
                ));
            }
            let ghost taken = Seq::new(y as nat, |k: int| final(rows@[k])@);
            let ghost rest_after = final(rest)@;
            let (tiles, tail) = rest.split_at_mut(width);
            let ghost tiles_after = final(tiles)@;
            assert(tiles@ == grid.rows[y as int] && tiles@.len() == width);
            rows.push(tiles);
            rest = tail;
            y += 1;
            proof {
                let taken_now = Seq::new(y as nat, |k: int| final(rows@[k])@);
                assert(taken_now =~= taken.push(tiles_after));
                assert(taken_now.drop_last() =~= taken);
                assert(flatten(taken_now) == flatten(taken) + tiles_after);
                assert(flatten(taken) + rest_after =~= flatten(taken_now) + final(rest)@);
            }
        }
        proof {
            let rows_after = Seq::new(rows@.len(), |k: int| final(rows@[k])@);
            assert(Seq::new(y as nat, |k: int| final(rows@[k])@) =~= rows_after);
            GridView::lemma_row_major_wf(cells, width as nat);
            assert(rest@.len() == 0);
            assert(cells_after =~= flatten(rows_after));
            Self::lemma_rows_written(rows_after, width as nat);
            assert forall|k: int|
                (forall|j: int|
                    0 <= j < rows@.len() ==> final(rows@[j])@.len() == (#[trigger] grid.rows[j]).len())
                    && 0 <= k < rows_after.len() implies (#[trigger] rows_after[k]).len() == width by {
                assert(grid.rows[k].len() == width);
            }
        }
        rows
    }
}

} // verus!
