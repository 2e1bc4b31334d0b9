//! The mathematical model that every contract of this crate is stated over.
//!
//! A [`GridView`] is a width together with the rows of a grid, top to bottom. Maps and regions
//! have a `GridView` as their view; the operations on them are described by the spec functions
//! below, and the laws that relate those operations are proved here once, for every grid.

use vstd::prelude::*;

verus! {

/// A grid of tiles: `rows[y][x]` is the tile in column `x` of row `y`.
///
/// The width is kept beside the rows because a grid without rows still has one.
pub struct GridView<T> {
    pub width: nat,
    pub rows: Seq<Seq<T>>,
}

/// The rows of a grid laid end to end, top row first.
pub open spec fn flatten<T>(rows: Seq<Seq<T>>) -> Seq<T>
    decreases rows.len(),
{
    if rows.len() == 0 {
        Seq::empty()
    } else {
        flatten(rows.drop_last()) + rows.last()
    }
}

/// The tiles that a call of `T::default()` may return.
pub open spec fn is_default<T: Default>() -> spec_fn(T) -> bool {
    |tile: T| call_ensures(T::default, (), tile)
}

/// The tiles that a call of `source.clone()` may return.
pub open spec fn is_clone_of<T: Clone>(source: T) -> spec_fn(T) -> bool {
    |tile: T| cloned(source, tile)
}

/// The tiles equal to `source`.
pub open spec fn is_copy_of<T>(source: T) -> spec_fn(T) -> bool {
    |tile: T| tile == source
}

impl<T> GridView<T> {
    /// The number of rows.
    pub open spec fn height(self) -> nat {
        self.rows.len()
    }

    /// Every row holds exactly `width` tiles.
    pub open spec fn wf(self) -> bool {
        forall|y: int| 0 <= y < self.rows.len() ==> (#[trigger] self.rows[y]).len() == self.width
    }

    /// The one notion of "in bounds": `x < width` and `y < height`.
    pub open spec fn in_bounds(self, x: int, y: int) -> bool {
        0 <= x < self.width && 0 <= y < self.height()
    }

    /// The tile at `(x, y)`; meaningful only in bounds.
    #[verifier::inline]
    pub open spec fn tile(self, x: int, y: int) -> T {
        self.rows[y][x]
    }

    /// The tile at `(x, y)`, or `None` out of bounds.
    pub open spec fn get(self, x: int, y: int) -> Option<T> {
        if self.in_bounds(x, y) {
            Some(self.tile(x, y))
        } else {
            None
        }
    }

    /// The grid with the tile at `(x, y)` replaced; the same grid out of bounds.
    pub open spec fn set(self, x: int, y: int, tile: T) -> Self {
        if self.in_bounds(x, y) {
            GridView { width: self.width, rows: self.rows.update(y, self.rows[y].update(x, tile)) }
        } else {
            self
        }
    }

    /// The grid with row `y` replaced.
    pub open spec fn with_row(self, y: int, row: Seq<T>) -> Self {
        GridView { width: self.width, rows: self.rows.update(y, row) }
    }

    /// The grid of the same width made of the given rows.
    pub open spec fn with_rows(self, rows: Seq<Seq<T>>) -> Self {
        GridView { width: self.width, rows }
    }

    /// Every tile satisfies `pred`.
    pub open spec fn all_tiles(self, pred: spec_fn(T) -> bool) -> bool {
        forall|x: int, y: int| self.in_bounds(x, y) ==> pred(#[trigger] self.tile(x, y))
    }

    /// Whether the window of `w` by `h` tiles at `(x, y)` can be taken from this grid.
    ///
    /// A window without tiles can be taken anywhere. Any other window has to lie inside the
    /// grid with all of its tiles.
    pub open spec fn fits(self, x: int, y: int, w: int, h: int) -> bool {
        w == 0 || h == 0 || (x + w <= self.width && y + h <= self.height())
    }

    /// The window of `w` by `h` tiles at `(x, y)`, as a grid of its own with origin `(0, 0)`.
    pub open spec fn region(self, x: int, y: int, w: nat, h: nat) -> Self {
        GridView {
            width: w,
            rows: Seq::new(h, |r: int| Seq::new(w, |c: int| self.tile(x + c, y + r))),
        }
    }

    /// This grid with the tiles of `window` laid over it, the window's origin at `(x, y)`.
    pub open spec fn paste(self, x: int, y: int, window: Self) -> Self {
        GridView {
            width: self.width,
            rows: Seq::new(
                self.height(),
                |r: int|
                    Seq::new(
                        self.width,
                        |c: int|
                            if window.in_bounds(c - x, r - y) {
                                window.tile(c - x, r - y)
                            } else {
                                self.tile(c, r)
                            },
                    ),
            ),
        }
    }

    /// The grid stored row after row in `cells`: row `y` is `cells[y * width .. (y + 1) * width]`.
    ///
    /// The height is the number of whole rows that `cells` holds; with a width of zero there
    /// are none.
    pub open spec fn row_major(cells: Seq<T>, width: nat) -> Self {
        GridView {
            width,
            rows: Seq::new(
                if width == 0 {
                    0nat
                } else {
                    cells.len() / width
                },
                |y: int| Seq::new(width, |x: int| cells[y * width + x]),
            ),
        }
    }

    /// Writing a tile in bounds and reading it back gives that tile, and the grid keeps its
    /// shape.
    pub proof fn lemma_set_get(self, x: int, y: int, tile: T)
        requires
            self.wf(),
            self.in_bounds(x, y),
        ensures
            self.set(x, y, tile).get(x, y) == Some(tile),
            self.set(x, y, tile).wf(),
            self.set(x, y, tile).width == self.width,
            self.set(x, y, tile).height() == self.height(),
    {
        let after = self.set(x, y, tile);
        assert forall|r: int| 0 <= r < after.rows.len() implies (#[trigger] after.rows[r]).len()
            == after.width by {
            assert(self.rows[r].len() == self.width);
        }
    }

    /// Writing a tile leaves every other tile as it was.
    pub proof fn lemma_set_other(self, x: int, y: int, tile: T, x2: int, y2: int)
        requires
            self.wf(),
            x2 != x || y2 != y,
        ensures
            self.set(x, y, tile).get(x2, y2) == self.get(x2, y2),
    {
        if self.in_bounds(x, y) && self.in_bounds(x2, y2) {
            assert(self.rows[y].len() == self.width);
            assert(self.rows[y2].len() == self.width);
        }
    }

    /// What a write does, tile by tile: the new tile at `(x, y)`, the old one everywhere else.
    pub proof fn lemma_set_tiles(self, x: int, y: int, tile: T)
        requires
            self.wf(),
            self.in_bounds(x, y),
        ensures
            self.set(x, y, tile).tile(x, y) == tile,
            forall|x2: int, y2: int|
                self.in_bounds(x2, y2) && (x2 != x || y2 != y) ==> #[trigger] self.set(
                    x,
                    y,
                    tile,
                ).tile(x2, y2) == self.tile(x2, y2),
    {
        assert(self.rows[y].len() == self.width);
    }

    /// Out of bounds there is nothing to read, and a write changes nothing.
    pub proof fn lemma_out_of_bounds(self, x: int, y: int, tile: T)
        requires
            !self.in_bounds(x, y),
        ensures
            self.get(x, y).is_none(),
            self.set(x, y, tile) == self,
    {
    }

    /// In a grid whose tiles all satisfy `pred`, every read in bounds gives such a tile.
    pub proof fn lemma_all_tiles_get(self, pred: spec_fn(T) -> bool, x: int, y: int)
        requires
            self.all_tiles(pred),
            self.in_bounds(x, y),
        ensures
            self.get(x, y) matches Some(tile) && pred(tile),
    {
    }

    /// In a grid whose tiles are all clones of `tile`, every read in bounds gives `tile`
    /// itself, for a tile whose clones are equal to it.
    pub proof fn lemma_clones_get(self, tile: T, x: int, y: int) where T: Clone
        requires
            self.all_tiles(is_clone_of(tile)),
            forall|clone: T| #[trigger] cloned(tile, clone) ==> clone == tile,
            self.in_bounds(x, y),
        ensures
            self.get(x, y) == Some(tile),
    {
        assert(is_clone_of(tile)(self.tile(x, y)));
    }

    /// For a window with at least one tile, fitting is the same as having its far corner,
    /// the tile at `(x + w - 1, y + h - 1)`, in bounds.
    pub proof fn lemma_fits_corner(self, x: int, y: int, w: int, h: int)
        requires
            0 <= x,
            0 <= y,
            0 < w,
            0 < h,
        ensures
            self.fits(x, y, w, h) <==> self.in_bounds(x + w - 1, y + h - 1),
    {
    }

    /// A window is a well-formed grid of the size asked for.
    pub proof fn lemma_region_wf(self, x: int, y: int, w: nat, h: nat)
        ensures
            self.region(x, y, w, h).wf(),
            self.region(x, y, w, h).width == w,
            self.region(x, y, w, h).height() == h,
    {
    }

    /// Reading a window at `(lx, ly)` is reading the grid at `(x + lx, y + ly)`; outside of
    /// its own bounds the window has nothing to read.
    pub proof fn lemma_region_get(self, x: int, y: int, w: nat, h: nat, lx: int, ly: int)
        requires
            0 <= x,
            0 <= y,
            self.fits(x, y, w as int, h as int),
        ensures
            self.region(x, y, w, h).in_bounds(lx, ly) ==> self.region(x, y, w, h).get(lx, ly)
                == self.get(x + lx, y + ly),
            !self.region(x, y, w, h).in_bounds(lx, ly) ==> self.region(x, y, w, h).get(lx, ly)
                .is_none(),
    {
    }

    /// Row `r` of a window is the part of row `y + r` of the grid that the window spans.
    pub proof fn lemma_region_row(self, x: int, y: int, w: nat, h: nat, r: int)
        requires
            self.wf(),
            0 <= x,
            0 <= y,
            0 < w,
            self.fits(x, y, w as int, h as int),
            0 <= r < h,
        ensures
            self.region(x, y, w, h).rows[r] == self.rows[y + r].subrange(x, x + w),
    {
        assert(self.rows[y + r].len() == self.width);
        assert(self.region(x, y, w, h).rows[r] =~= self.rows[y + r].subrange(x, x + w));
    }

    /// Writing through a window writes the grid: a write at `(lx, ly)` of the window is a
    /// write at `(x + lx, y + ly)` of the grid, seen from either side.
    pub proof fn lemma_region_set(self, x: int, y: int, w: nat, h: nat, lx: int, ly: int, tile: T)
        requires
            self.wf(),
            0 <= x,
            0 <= y,
            self.fits(x, y, w as int, h as int),
            self.region(x, y, w, h).in_bounds(lx, ly),
        ensures
            self.set(x + lx, y + ly, tile).region(x, y, w, h) == self.region(x, y, w, h).set(
                lx,
                ly,
                tile,
            ),
            self.set(x + lx, y + ly, tile) == self.paste(
                x,
                y,
                self.region(x, y, w, h).set(lx, ly, tile),
            ),
            self.set(x + lx, y + ly, tile).get(x + lx, y + ly) == Some(tile),
    {
        let written = self.set(x + lx, y + ly, tile);
        let window = self.region(x, y, w, h).set(lx, ly, tile);
        assert(written.region(x, y, w, h).rows =~~= window.rows) by {
            assert forall|r: int| 0 <= r < h implies #[trigger] written.region(x, y, w, h).rows[r]
                =~= window.rows[r] by {
                assert(self.rows[y + r].len() == self.width);
            }
        }
        let pasted = self.paste(x, y, window);
        assert(written.rows =~~= pasted.rows) by {
            assert forall|r: int| 0 <= r < self.height() implies #[trigger] written.rows[r]
                =~= pasted.rows[r] by {
                assert(self.rows[r].len() == self.width);
            }
        }
        self.lemma_set_get(x + lx, y + ly, tile);
    }

    /// What a paste does, tile by tile: inside the window's place the window's tile, elsewhere
    /// the grid's own. The grid keeps its shape.
    pub proof fn lemma_paste_get(self, x: int, y: int, window: Self, gx: int, gy: int)
        ensures
            self.paste(x, y, window).wf(),
            self.paste(x, y, window).width == self.width,
            self.paste(x, y, window).height() == self.height(),
            self.in_bounds(gx, gy) ==> self.paste(x, y, window).get(gx, gy) == (if window.in_bounds(
                gx - x,
                gy - y,
            ) {
                window.get(gx - x, gy - y)
            } else {
                self.get(gx, gy)
            }),
            !self.in_bounds(gx, gy) ==> self.paste(x, y, window).get(gx, gy).is_none(),
    {
    }

    /// Taking a window and pasting it back where it came from gives the grid again, and the
    /// window of a paste is what was pasted.
    pub proof fn lemma_paste_region(self, x: int, y: int, w: nat, h: nat, window: Self)
        requires
            self.wf(),
            0 <= x,
            0 <= y,
            self.fits(x, y, w as int, h as int),
            window.wf(),
            window.width == w,
            window.height() == h,
        ensures
            self.paste(x, y, self.region(x, y, w, h)) == self,
            self.paste(x, y, window).region(x, y, w, h) == window,
    {
        let same = self.paste(x, y, self.region(x, y, w, h));
        assert(same.rows =~~= self.rows) by {
            assert forall|r: int| 0 <= r < self.height() implies #[trigger] same.rows[r]
                =~= self.rows[r] by {
                assert(self.rows[r].len() == self.width);
            }
        }
        let back = self.paste(x, y, window).region(x, y, w, h);
        assert(back.rows =~~= window.rows) by {
            assert forall|r: int| 0 <= r < h implies #[trigger] back.rows[r] =~= window.rows[r] by {
                assert(window.rows[r].len() == w);
            }
        }
    }

    /// Writing a tile of a pasted window is pasting the window with that tile written.
    pub proof fn lemma_paste_set(self, x: int, y: int, window: Self, lx: int, ly: int, tile: T)
        requires
            0 <= x,
            0 <= y,
            window.wf(),
            self.fits(x, y, window.width as int, window.height() as int),
            window.in_bounds(lx, ly),
        ensures
            self.paste(x, y, window).set(x + lx, y + ly, tile) == self.paste(
                x,
                y,
                window.set(lx, ly, tile),
            ),
    {
        let written = self.paste(x, y, window).set(x + lx, y + ly, tile);
        let pasted = self.paste(x, y, window.set(lx, ly, tile));
        window.lemma_set_tiles(lx, ly, tile);
        window.lemma_set_get(lx, ly, tile);
        assert(written.rows =~~= pasted.rows) by {
            assert forall|r: int| 0 <= r < self.height() implies #[trigger] written.rows[r]
                =~= pasted.rows[r] by {
                assert forall|c: int| 0 <= c < self.width implies written.rows[r][c]
                    == pasted.rows[r][c] by {
                    if window.in_bounds(c - x, r - y) && (c - x != lx || r - y != ly) {
                        assert(window.set(lx, ly, tile).tile(c - x, r - y) == window.tile(
                            c - x,
                            r - y,
                        ));
                    }
                }
            }
        }
    }

    /// Writing the part of one row that a window spans is replacing that row of the window,
    /// seen from either side.
    pub proof fn lemma_region_with_row(self, x: int, y: int, w: nat, h: nat, r: int, row: Seq<T>)
        requires
            self.wf(),
            0 <= x,
            0 <= y,
            0 < w,
            self.fits(x, y, w as int, h as int),
            0 <= r < h,
            row.len() == w,
        ensures
            ({
                let whole = self.rows[y + r].subrange(0, x) + row + self.rows[y + r].subrange(
                    x + w,
                    self.width as int,
                );
                &&& whole.len() == self.width
                &&& self.with_row(y + r, whole).region(x, y, w, h) == self.region(
                    x,
                    y,
                    w,
                    h,
                ).with_row(r, row)
                &&& self.with_row(y + r, whole) == self.paste(
                    x,
                    y,
                    self.region(x, y, w, h).with_row(r, row),
                )
            }),
    {
        let whole = self.rows[y + r].subrange(0, x) + row + self.rows[y + r].subrange(
            x + w,
            self.width as int,
        );
        assert(self.rows[y + r].len() == self.width);
        let written = self.with_row(y + r, whole);
        let window = self.region(x, y, w, h).with_row(r, row);
        assert(written.region(x, y, w, h).rows =~~= window.rows) by {
            assert forall|k: int| 0 <= k < h implies #[trigger] written.region(x, y, w, h).rows[k]
                =~= window.rows[k] by {
                assert(self.rows[y + k].len() == self.width);
            }
        }
        let pasted = self.paste(x, y, window);
        assert(written.rows =~~= pasted.rows) by {
            assert forall|k: int| 0 <= k < self.height() implies #[trigger] written.rows[k]
                =~= pasted.rows[k] by {
                assert(self.rows[k].len() == self.width);
            }
        }
    }

    /// Writing, in every row that a window spans, the part that it spans is replacing the
    /// rows of the window, seen from either side.
    ///
    /// `rows` are the rows of the grid afterwards and `window_rows` those of the window. The
    /// rows keep their lengths if the rows of the window do.
    pub proof fn lemma_region_with_rows(
        self,
        x: int,
        y: int,
        w: nat,
        h: nat,
        rows: Seq<Seq<T>>,
        window_rows: Seq<Seq<T>>,
    )
        requires
            self.wf(),
            0 <= x,
            0 <= y,
            0 < w,
            0 < h,
            self.fits(x, y, w as int, h as int),
            rows.len() == self.height(),
            window_rows.len() == h,
            forall|r: int|
                0 <= r < self.height() && !(y <= r < y + h) ==> rows[r] == #[trigger] self.rows[r],
            forall|r: int|
                y <= r < y + h ==> rows[r] == (#[trigger] self.rows[r]).subrange(0, x)
                    + window_rows[r - y] + self.rows[r].subrange(x + w, self.width as int),
        ensures
            (forall|r: int| 0 <= r < h ==> (#[trigger] window_rows[r]).len() == w) ==> {
                &&& forall|r: int|
                    0 <= r < self.height() ==> rows[r].len() == (#[trigger] self.rows[r]).len()
                &&& self.with_rows(rows).region(x, y, w, h) == self.region(x, y, w, h).with_rows(
                    window_rows,
                )
                &&& self.with_rows(rows) == self.paste(
                    x,
                    y,
                    self.region(x, y, w, h).with_rows(window_rows),
                )
            },
    {
        if forall|r: int| 0 <= r < h ==> (#[trigger] window_rows[r]).len() == w {
            assert forall|r: int| 0 <= r < self.height() implies rows[r].len() == (
            #[trigger] self.rows[r]).len() by {
                if y <= r < y + h {
                    assert(window_rows[r - y].len() == w);
                }
            }
            let written = self.with_rows(rows);
            let window = self.region(x, y, w, h).with_rows(window_rows);
            assert(written.region(x, y, w, h).rows =~~= window.rows) by {
                assert forall|r: int| 0 <= r < h implies #[trigger] written.region(
                    x,
                    y,
                    w,
                    h,
                ).rows[r] =~= window.rows[r] by {
                    assert(self.rows[y + r].len() == self.width);
                    assert(window_rows[r].len() == w);
                }
            }
            let pasted = self.paste(x, y, window);
            assert(written.rows =~~= pasted.rows) by {
                assert forall|r: int| 0 <= r < self.height() implies #[trigger] written.rows[r]
                    =~= pasted.rows[r] by {
                    assert(self.rows[r].len() == self.width);
                    if y <= r < y + h {
                        assert(window_rows[r - y].len() == w);
                    }
                }
            }
        }
    }

    /// Where tile `(x, y)` of a row-major grid is stored.
    pub proof fn lemma_row_major_index(cells: Seq<T>, width: nat, x: int, y: int)
        requires
            Self::row_major(cells, width).in_bounds(x, y),
        ensures
            0 <= y * width <= y * width + x < cells.len(),
            Self::row_major(cells, width).tile(x, y) == cells[y * width + x],
    {
        let height = cells.len() / width;
        assert(y * width + x < cells.len()) by (nonlinear_arith)
            requires
                0 <= x < width,
                0 <= y < height,
                height == cells.len() / width,
        ;
        assert(0 <= y * width) by (nonlinear_arith)
            requires
                0 <= y,
        ;
    }

    /// Where row `y` of a row-major grid is stored.
    pub proof fn lemma_row_major_row(cells: Seq<T>, width: nat, y: int)
        requires
            0 <= y < Self::row_major(cells, width).height(),
        ensures
            0 <= y * width <= y * width + width <= cells.len(),
            (y + 1) * width == y * width + width,
            cells.subrange(y * width, y * width + width) == Self::row_major(cells, width).rows[y],
    {
        let height = cells.len() / width;
        assert(0 <= y * width) by (nonlinear_arith)
            requires
                0 <= y,
        ;
        assert(y * width + width <= cells.len()) by (nonlinear_arith)
            requires
                0 <= y < height,
                height == cells.len() / width,
                width > 0,
        ;
        assert((y + 1) * width == y * width + width) by (nonlinear_arith);
        assert(cells.subrange(y * width, y * width + width) =~= Self::row_major(
            cells,
            width,
        ).rows[y]);
    }

    /// A row-major grid is well formed, and as high as `cells` has whole rows.
    pub proof fn lemma_row_major_wf(cells: Seq<T>, width: nat)
        ensures
            Self::row_major(cells, width).wf(),
            Self::row_major(cells, width).height() <= cells.len(),
            width > 0 && cells.len() % width == 0 ==> Self::row_major(cells, width).height()
                * width == cells.len(),
    {
        if width > 0 {
            assert(cells.len() / width <= cells.len() && (cells.len() % width == 0 ==> (cells.len()
                / width) * width == cells.len())) by (nonlinear_arith)
                requires
                    width > 0,
            ;
        }
    }

    /// Overwriting one stored cell is writing one tile.
    pub proof fn lemma_row_major_set(cells: Seq<T>, width: nat, x: int, y: int, tile: T)
        requires
            Self::row_major(cells, width).in_bounds(x, y),
        ensures
            Self::row_major(cells.update(y * width + x, tile), width) == Self::row_major(
                cells,
                width,
            ).set(x, y, tile),
    {
        Self::lemma_row_major_index(cells, width, x, y);
        let stored = Self::row_major(cells.update(y * width + x, tile), width);
        let written = Self::row_major(cells, width).set(x, y, tile);
        assert forall|r: int| 0 <= r < stored.rows.len() implies #[trigger] stored.rows[r]
            =~= written.rows[r] by {
            assert forall|c: int| 0 <= c < width implies stored.rows[r][c] == written.rows[r][c] by {
                Self::lemma_row_major_index(cells, width, c, r);
                assert((r * width + c == y * width + x) <==> (r == y && c == x))
                    by (nonlinear_arith)
                    requires
                        0 <= c < width,
                        0 <= x < width,
                ;
            }
        }
        assert(stored.rows =~= written.rows);
    }

    /// Overwriting the stored cells of one row is replacing that row.
    pub proof fn lemma_row_major_with_row(cells: Seq<T>, width: nat, y: int, row: Seq<T>)
        requires
            0 <= y < Self::row_major(cells, width).height(),
            row.len() == width,
        ensures
            Self::row_major(
                cells.subrange(0, y * width) + row + cells.subrange(
                    y * width + width,
                    cells.len() as int,
                ),
                width,
            ) == Self::row_major(cells, width).with_row(y, row),
    {
        Self::lemma_row_major_row(cells, width, y);
        let spliced = cells.subrange(0, y * width) + row + cells.subrange(
            y * width + width,
            cells.len() as int,
        );
        let stored = Self::row_major(spliced, width);
        let replaced = Self::row_major(cells, width).with_row(y, row);
        assert(spliced.len() == cells.len());
        assert forall|r: int| 0 <= r < stored.rows.len() implies #[trigger] stored.rows[r]
            =~= replaced.rows[r] by {
            assert forall|c: int| 0 <= c < width implies stored.rows[r][c] == replaced.rows[r][c] by {
                Self::lemma_row_major_index(cells, width, c, r);
                if r < y {
                    assert(r * width + c < y * width) by (nonlinear_arith)
                        requires
                            0 <= c < width,
                            0 <= r < y,
                    ;
                } else if r > y {
                    assert(r * width + c >= y * width + width) by (nonlinear_arith)
                        requires
                            0 <= c < width,
                            r > y,
                    ;
                }
            }
        }
        assert(stored.rows =~= replaced.rows);
    }

    /// Rows of one width, laid end to end and read back row-major, are those rows.
    pub proof fn lemma_row_major_flatten(rows: Seq<Seq<T>>, width: nat)
        requires
            forall|y: int| 0 <= y < rows.len() ==> (#[trigger] rows[y]).len() == width,
            width > 0 || rows.len() == 0,
        ensures
            flatten(rows).len() == rows.len() * width,
            Self::row_major(flatten(rows), width) == (GridView { width, rows }),
    {
        let cells = flatten(rows);
        lemma_flatten_len(rows, width);
        if width > 0 {
            assert((rows.len() * width) / width == rows.len()) by (nonlinear_arith)
                requires
                    width > 0,
            ;
        }
        let stored = Self::row_major(cells, width);
        assert(stored.rows.len() == rows.len());
        assert forall|y: int| 0 <= y < rows.len() implies #[trigger] stored.rows[y] =~= rows[y] by {
            assert forall|x: int| 0 <= x < width implies stored.rows[y][x] == rows[y][x] by {
                lemma_flatten_index(rows, width, x, y);
            }
        }
        assert(stored.rows =~= rows);
    }
}

/// Rows of one width, laid end to end, take `rows.len() * width` cells.
pub proof fn lemma_flatten_len<T>(rows: Seq<Seq<T>>, width: nat)
    requires
        forall|y: int| 0 <= y < rows.len() ==> (#[trigger] rows[y]).len() == width,
    ensures
        flatten(rows).len() == rows.len() * width,
    decreases rows.len(),
{
    if rows.len() > 0 {
        lemma_flatten_len(rows.drop_last(), width);
        assert(rows.last().len() == width);
        assert((rows.len() - 1) * width + width == rows.len() * width) by (nonlinear_arith);
    }
}

/// Among rows of one width laid end to end, tile `x` of row `y` is cell `y * width + x`.
pub proof fn lemma_flatten_index<T>(rows: Seq<Seq<T>>, width: nat, x: int, y: int)
    requires
        forall|r: int| 0 <= r < rows.len() ==> (#[trigger] rows[r]).len() == width,
        0 <= y < rows.len(),
        0 <= x < width,
    ensures
        0 <= y * width + x < flatten(rows).len(),
        flatten(rows)[y * width + x] == rows[y][x],
    decreases rows.len(),
{
    lemma_flatten_len(rows, width);
    lemma_flatten_len(rows.drop_last(), width);
    assert(0 <= y * width && y * width + x < rows.len() * width) by (nonlinear_arith)
        requires
            0 <= y < rows.len(),
            0 <= x < width,
    ;
    if y < rows.len() - 1 {
        lemma_flatten_index(rows.drop_last(), width, x, y);
    } else {
        assert(rows.last().len() == width);
    }
}

} // verus!
