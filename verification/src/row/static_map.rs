//! A map that keeps its tiles inline.

use vstd::prelude::*;

use super::{MapRows, MapRowsMut};
use crate::grid::{is_clone_of, is_copy_of, is_default, GridView};
use crate::{MapMut, TileMap};

verus! {

/// A map whose size is part of its type.
///
/// The tiles are stored inline, as `HEIGHT` rows of `WIDTH` tiles each, so a bare `StaticMap`
/// lives on the stack. For large maps, box it or use a [`DynamicMap`](super::DynamicMap).
pub struct StaticMap<T, const WIDTH: usize, const HEIGHT: usize> {
    tiles: [[T; WIDTH]; HEIGHT],
}

/// `core::array::from_fn`: an array whose element `i` is what `make(i)` returned.
///
/// The verifier does not read this body. The contract claims of `core::array::from_fn`
/// that it calls `make` with indices below `N` only, which is why `make` has to accept
/// those, and that every element of the array is the result of the call for its own index.
#[verifier::external_body]
fn array_from_fn<T, const N: usize, F: Fn(usize) -> T>(make: F) -> (array: [T; N])
    requires
        forall|i: usize| i < N ==> call_requires(make, (i,)),
    ensures
        forall|i: int| 0 <= i < N ==> call_ensures(make, (i as usize,), #[trigger] array@[i]),
{
    core::array::from_fn(make)
}

impl<T, const WIDTH: usize, const HEIGHT: usize> StaticMap<T, WIDTH, HEIGHT> {
    /// The grid that `tiles` stores.
    spec fn grid_of(tiles: [[T; WIDTH]; HEIGHT]) -> GridView<T> {
        GridView { width: WIDTH as nat, rows: Seq::new(HEIGHT as nat, |y: int| tiles@[y]@) }
    }

    /// A map whose tiles are all default tiles.
    pub fn new() -> (map: Self) where T: Default
        ensures
            map.inv(),
            map@.wf(),
            map@.width == WIDTH,
            map@.height() == HEIGHT,
            map@.all_tiles(is_default::<T>()),
    {
        Self::default()
    }

    /// A map whose tiles are all copies of `tile`.
    pub fn filled(tile: T) -> (map: Self) where T: Copy
        ensures
            map.inv(),
            map@.wf(),
            map@.width == WIDTH,
            map@.height() == HEIGHT,
            map@.all_tiles(is_copy_of(tile)),
    {
        StaticMap { tiles: [[tile; WIDTH]; HEIGHT] }
    }

    /// A map whose tiles are all copies of one default tile.
    pub fn default_copy() -> (map: Self) where T: Copy + Default
        ensures
            map.inv(),
            map@.wf(),
            map@.width == WIDTH,
            map@.height() == HEIGHT,
            map@.all_tiles(is_default::<T>()),
            exists|tile: T| #[trigger] map@.all_tiles(is_copy_of(tile)),
    {
        let tile = T::default();
        let map = StaticMap { tiles: [[tile; WIDTH]; HEIGHT] };
        proof {
            assert(map@.all_tiles(is_copy_of(tile)));
        }
        map
    }
}

impl<T: Default, const WIDTH: usize, const HEIGHT: usize> Default for StaticMap<T, WIDTH, HEIGHT> {
    /// A map whose tiles are all default tiles.
    fn default() -> (map: Self)
        ensures
            map.inv(),
            map@.wf(),
            map@.width == WIDTH,
            map@.height() == HEIGHT,
            map@.all_tiles(is_default::<T>()),
    {
        let make_tile = |_x: usize| -> (tile: T)
            ensures
                is_default::<T>()(tile),
            { T::default() };
        let make_row = |_y: usize| -> (row: [T; WIDTH])
            ensures
                forall|x: int| 0 <= x < WIDTH ==> is_default::<T>()(#[trigger] row@[x]),
            { array_from_fn(&make_tile) };
        let tiles: [[T; WIDTH]; HEIGHT] = array_from_fn(make_row);
        StaticMap { tiles }
    }
}

impl<T: Clone, const WIDTH: usize, const HEIGHT: usize> Clone for StaticMap<T, WIDTH, HEIGHT> {
    /// A map whose tiles are clones of the tiles of this one.
    fn clone(&self) -> (copy: Self)
        ensures
            copy.inv(),
            copy@.wf(),
            copy@.width == self@.width,
            copy@.height() == self@.height(),
            forall|x: int, y: int|
                self@.in_bounds(x, y) ==> cloned(self@.rows[y][x], #[trigger] copy@.rows[y][x]),
    {
        StaticMap { tiles: self.tiles.clone() }
    }
}

impl<T, const WIDTH: usize, const HEIGHT: usize> TileMap for StaticMap<T, WIDTH, HEIGHT> {
    type Tile = T;

    closed spec fn view(&self) -> GridView<T> {
        Self::grid_of(self.tiles)
    }

    /// The type keeps the shape, so every value is valid.
    open spec fn inv(&self) -> bool {
        true
    }

    proof fn lemma_inv(&self) {
    }

    fn get(&self, x: usize, y: usize) -> (tile: Option<Self::Tile>) where Self::Tile: Copy {
        if x < WIDTH && y < HEIGHT {
            Some(self.tiles[y][x])
        } else {
            None
        }
    }

    fn get_ref(&self, x: usize, y: usize) -> (tile: Option<&Self::Tile>) {
        if x < WIDTH && y < HEIGHT {
            Some(&self.tiles[y][x])
        } else {
            None
        }
    }

    fn width(&self) -> (width: usize) {
        WIDTH
    }

    fn height(&self) -> (height: usize) {
        HEIGHT
    }
}

impl<T, const WIDTH: usize, const HEIGHT: usize> StaticMap<T, WIDTH, HEIGHT> {
    /// Storing one tile, and nothing else, is writing that tile.
    proof fn lemma_grid_of_set(
        before: [[T; WIDTH]; HEIGHT],
        after: [[T; WIDTH]; HEIGHT],
        x: int,
        y: int,
    )
        requires
            0 <= x < WIDTH,
            0 <= y < HEIGHT,
            after@ == before@.update(y, after@[y]),
            after@[y]@ == before@[y]@.update(x, after@[y]@[x]),
        ensures
            Self::grid_of(after) == Self::grid_of(before).set(x, y, after@[y]@[x]),
    {
        assert(Self::grid_of(after).rows =~= Self::grid_of(before).set(x, y, after@[y]@[x]).rows);
    }

    /// Storing one row, and nothing else, is replacing that row.
    proof fn lemma_grid_of_with_row(before: [[T; WIDTH]; HEIGHT], after: [[T; WIDTH]; HEIGHT], y: int)
        requires
            0 <= y < HEIGHT,
            after@ == before@.update(y, after@[y]),
        ensures
            Self::grid_of(after) == Self::grid_of(before).with_row(y, after@[y]@),
    {
        assert(Self::grid_of(after).rows =~= Self::grid_of(before).with_row(y, after@[y]@).rows);
    }
}

impl<T, const WIDTH: usize, const HEIGHT: usize> MapMut for StaticMap<T, WIDTH, HEIGHT> {
    fn get_mut(&mut self, x: usize, y: usize) -> (tile: Option<&mut Self::Tile>) {
        if x < WIDTH && y < HEIGHT {
            proof {
                let before = self.tiles;
                assert forall|after: [[T; WIDTH]; HEIGHT]|
                    after@ == before@.update(y as int, after@[y as int]) && after@[y as int]@
                        == before@[y as int]@.update(
                        x as int,
                        after@[y as int]@[x as int],
                    ) implies #[trigger] Self::grid_of(after) == Self::grid_of(before).set(
                    x as int,
                    y as int,
                    after@[y as int]@[x as int],
                ) by {
                    Self::lemma_grid_of_set(before, after, x as int, y as int);
                }
            }
            Some(&mut self.tiles[y][x])
        } else {
            None
        }
    }

    fn clear(&mut self) where Self::Tile: Default {
        for y in 0..HEIGHT
            invariant
                forall|i: int, j: int|
                    0 <= i < WIDTH && 0 <= j < y ==> is_default::<T>()(#[trigger] self.tiles@[j]@[i]),
        {
            for x in 0..WIDTH
                invariant
                    y < HEIGHT,
                    forall|i: int, j: int|
                        0 <= i < WIDTH && 0 <= j < y ==> is_default::<T>()(
                            #[trigger] self.tiles@[j]@[i],
                        ),
                    forall|i: int|
                        0 <= i < x ==> is_default::<T>()(#[trigger] self.tiles@[y as int]@[i]),
            {
                self.tiles[y][x] = T::default();
            }
        }
    }

    fn clear_to(&mut self, new: Self::Tile) where Self::Tile: Clone {
        for y in 0..HEIGHT
            invariant
                forall|i: int, j: int|
                    0 <= i < WIDTH && 0 <= j < y ==> cloned(new, #[trigger] self.tiles@[j]@[i]),
        {
            for x in 0..WIDTH
                invariant
                    y < HEIGHT,
                    forall|i: int, j: int|
                        0 <= i < WIDTH && 0 <= j < y ==> cloned(new, #[trigger] self.tiles@[j]@[i]),
                    forall|i: int| 0 <= i < x ==> cloned(new, #[trigger] self.tiles@[y as int]@[i]),
            {
                self.tiles[y][x] = new.clone();
            }
        }
    }
}

impl<T, const WIDTH: usize, const HEIGHT: usize> MapRows for StaticMap<T, WIDTH, HEIGHT> {
    fn row(&self, row: usize) -> (tiles: Option<&[Self::Tile]>) {
        if row < HEIGHT {
            Some(self.tiles[row].as_slice())
        } else {
            None
        }
    }

    fn rows(&self) -> (rows: Vec<&[Self::Tile]>) {
        let mut rows: Vec<&[T]> = Vec::new();
        for y in 0..HEIGHT
            invariant
                rows@.len() == y,
                forall|k: int|
                    0 <= k < y ==> (#[trigger] rows@[k])@ == self@.rows[k] && rows@[k]@.len() == WIDTH,
        {
            rows.push(self.tiles[y].as_slice());
        }
        rows
    }
}

impl<T, const WIDTH: usize, const HEIGHT: usize> MapRowsMut for StaticMap<T, WIDTH, HEIGHT> {
    /// The row keeps its length whatever is written to it, so the map after the call is
    /// known without condition.
    fn row_mut(&mut self, row: usize) -> (tiles: Option<&mut [Self::Tile]>)
        ensures
            tiles matches Some(t) ==> final(t)@.len() == WIDTH,
    {
        if row < HEIGHT {
            proof {
                let before = self.tiles;
                assert forall|after: [[T; WIDTH]; HEIGHT]|
                    after@ == before@.update(row as int, after@[row as int]) implies #[trigger]
                    Self::grid_of(after) == Self::grid_of(before).with_row(
                    row as int,
                    after@[row as int]@,
                ) by {
                    Self::lemma_grid_of_with_row(before, after, row as int);
                }
            }
            let tiles: &mut [T; WIDTH] = &mut self.tiles[row];
            Some(tiles)
        } else {
            None
        }
    }

    /// The rows keep their lengths whatever is written to them, so the map after the call
    /// is known without condition.
    fn rows_mut(&mut self) -> (rows: Vec<&mut [Self::Tile]>)
        ensures
            forall|y: int| 0 <= y < rows@.len() ==> (#[trigger] final(rows@[y])@).len() == WIDTH,
    {
        let ghost tiles_after = final(self).tiles@;
        let ghost grid_after = final(self)@;
        let ghost grid = self@;
        let mut rows: Vec<&mut [T]> = Vec::new();
        let mut rest: &mut [[T; WIDTH]] = &mut self.tiles;
        let mut y: usize = 0;
        proof {
            assert(Seq::new(0nat, |k: int| final(rows@[k])@) =~= Seq::<Seq<T>>::empty());
        }
        while y < HEIGHT
            invariant
                y <= HEIGHT,
                rows@.len() == y,
                rest@.len() == HEIGHT - y,
                forall|k: int| 0 <= k < rest@.len() ==> (#[trigger] rest@[k])@ == grid.rows[y + k],
                forall|k: int|
                    0 <= k < y ==> rows@[k]@ == #[trigger] grid.rows[k] && rows@[k]@.len() == WIDTH,
                forall|k: int| 0 <= k < y ==> (#[trigger] final(rows@[k])@).len() == WIDTH,
                tiles_after.map_values(|row: [T; WIDTH]| row@) == Seq::new(
                    y as nat,
                    |k: int| final(rows@[k])@,
                ) + final(rest)@.map_values(|row: [T; WIDTH]| row@),
            decreases HEIGHT - y,
        {
            let ghost taken = Seq::new(y as nat, |k: int| final(rows@[k])@);
            let ghost rest_after = final(rest)@;
            let (head, tail) = rest.split_at_mut(1);
            let ghost head_after = final(head)@;
            match head.first_mut() {
                Some(row) => {
                    let tiles: &mut [T] = row;
                    let ghost row_after = final(tiles)@;
                    rows.push(tiles);
                    proof {
                        assert(row_after.len() == WIDTH);
                        assert(final(rows@[y as int])@ == row_after);
                        assert(head_after.map_values(|row: [T; WIDTH]| row@) =~= seq![row_after]);
                    }
                },
                None => {},
            }
            rest = tail;
            y += 1;
            proof {
                let taken_now = Seq::new(y as nat, |k: int| final(rows@[k])@);
                assert(taken_now =~= taken + head_after.map_values(|row: [T; WIDTH]| row@));
                assert(rest_after.map_values(|row: [T; WIDTH]| row@) =~= head_after.map_values(
                    |row: [T; WIDTH]| row@,
                ) + final(rest)@.map_values(|row: [T; WIDTH]| row@));
            }
        }
        proof {
            let rows_after = Seq::new(rows@.len(), |k: int| final(rows@[k])@);
            assert(tiles_after.map_values(|row: [T; WIDTH]| row@) =~= rows_after);
            assert(grid_after.rows =~= rows_after);
        }
        rows
    }
}

} // verus!
