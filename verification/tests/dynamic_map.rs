use tile_maps::prelude::{MapMut, MapRows, MapRowsMut, TileMap};
use tile_maps::row::DynamicMap;

fn numbered(width: usize, height: usize) -> DynamicMap<u32> {
    let tiles: Vec<u32> = (0..(width * height) as u32).collect();
    DynamicMap::from_vec(tiles, width).expect("whole rows")
}

#[test]
fn new_has_the_size_asked_for() {
    let map = DynamicMap::<i32>::new(5, 4);
    assert_eq!(map.width(), 5);
    assert_eq!(map.height(), 4);
    assert_eq!(map.size(), (5, 4));
}

#[test]
fn new_fills_with_default_tiles() {
    let map = DynamicMap::<String>::new(2, 3);
    for y in 0..3 {
        for x in 0..2 {
            assert_eq!(map.get_ref(x, y), Some(&String::new()));
        }
    }
}

#[test]
fn new_without_columns_has_no_rows() {
    let map = DynamicMap::<u8>::new(0, 7);
    assert_eq!(map.size(), (0, 0));
    assert_eq!(map.get(0, 0), None);
    assert_eq!(map.row(0), None);
    assert!(map.rows().is_empty());
}

#[test]
fn new_without_rows_keeps_its_width() {
    let mut map = DynamicMap::<u8>::new(7, 0);
    assert_eq!(map.size(), (7, 0));
    assert_eq!(map.get(0, 0), None);
    assert!(!map.set(0, 0, 1));
    assert!(map.rows_mut().is_empty());
}

#[test]
fn default_copy_fills_with_one_default_tile() {
    let map = DynamicMap::<(u8, bool)>::default_copy(3, 2);
    assert_eq!(map.size(), (3, 2));
    for y in 0..2 {
        for x in 0..3 {
            assert_eq!(map.get(x, y), Some((0, false)));
        }
    }
}

#[test]
fn filled_holds_clones_of_the_tile() {
    let map = DynamicMap::filled(2, 2, String::from("grass"));
    assert_eq!(map.size(), (2, 2));
    for y in 0..2 {
        for x in 0..2 {
            assert_eq!(map.get_ref(x, y).map(String::as_str), Some("grass"));
        }
    }
}

#[test]
fn from_vec_is_row_major() {
    let map = numbered(3, 2);
    assert_eq!(map.size(), (3, 2));
    assert_eq!(map.get(0, 0), Some(0));
    assert_eq!(map.get(2, 0), Some(2));
    assert_eq!(map.get(0, 1), Some(3));
    assert_eq!(map.get(2, 1), Some(5));
}

#[test]
fn from_vec_refuses_a_broken_row() {
    assert!(DynamicMap::from_vec(vec![1, 2, 3, 4, 5], 3).is_none());
    assert!(DynamicMap::from_vec(vec![1], 0).is_none());
    assert!(DynamicMap::from_vec(Vec::<u8>::new(), 0).is_some());
    assert!(DynamicMap::from_vec(Vec::<u8>::new(), 4).is_some());
}

#[test]
fn in_bounds_is_x_below_width_and_y_below_height() {
    let map = DynamicMap::<u8>::new(3, 2);
    for y in 0..5 {
        for x in 0..5 {
            assert_eq!(map.in_bounds(x, y), x < map.width() && y < map.height());
        }
    }
    assert!(!map.in_bounds(usize::MAX, 0));
    assert!(!map.in_bounds(0, usize::MAX));
    assert!(!map.in_bounds(usize::MAX, usize::MAX));
}

#[test]
fn a_column_past_the_width_is_not_the_next_row() {
    let map = numbered(3, 2);
    assert_eq!(map.get(3, 0), None);
    assert_eq!(map.get_ref(3, 0), None);
    assert_eq!(map.get(4, 0), None);
    assert_eq!(map.get(usize::MAX, 1), None);
    assert_eq!(map.get(1, usize::MAX), None);
}

#[test]
fn out_of_bounds_reads_give_nothing() {
    let mut map = numbered(3, 2);
    assert_eq!(map.get(0, 2), None);
    assert_eq!(map.get_ref(0, 2), None);
    assert!(map.get_mut(0, 2).is_none());
    assert!(map.get_mut(3, 1).is_none());
}

#[test]
fn out_of_bounds_writes_change_nothing() {
    let mut map = numbered(3, 2);
    assert!(!map.set(3, 0, 99));
    assert!(!map.set(0, 2, 99));
    assert_eq!(map.replace(3, 1, 77), Err(77));
    assert_eq!(map.replace_default(0, 2), Err(0));
    assert!(!map.set_default(9, 9));
    assert_eq!(map.rows(), vec![&[0, 1, 2][..], &[3, 4, 5][..]]);
}

#[test]
fn set_then_get_gives_the_tile_back() {
    let mut map = numbered(3, 2);
    for y in 0..2 {
        for x in 0..3 {
            assert!(map.set(x, y, 100 + (x + 10 * y) as u32));
            assert_eq!(map.get(x, y), Some(100 + (x + 10 * y) as u32));
        }
    }
    assert_eq!(map.rows(), vec![&[100, 101, 102][..], &[110, 111, 112][..]]);
}

#[test]
fn set_changes_one_tile_only() {
    let mut map = numbered(3, 2);
    assert!(map.set(1, 1, 40));
    assert_eq!(map.rows(), vec![&[0, 1, 2][..], &[3, 40, 5][..]]);
}

#[test]
fn get_mut_writes_the_tile() {
    let mut map = numbered(3, 2);
    {
        let tile = map.get_mut(2, 0).expect("in bounds");
        assert_eq!(*tile, 2);
        *tile = 20;
    }
    assert_eq!(map.rows(), vec![&[0, 1, 20][..], &[3, 4, 5][..]]);
}

#[test]
fn replace_hands_back_the_old_tile() {
    let mut map = numbered(3, 2);
    assert_eq!(map.replace(1, 0, 11), Ok(1));
    assert_eq!(map.get(1, 0), Some(11));
    assert_eq!(map.replace_default(1, 0), Ok(11));
    assert_eq!(map.get(1, 0), Some(0));
}

#[test]
fn set_default_puts_a_default_tile() {
    let mut map = numbered(3, 2);
    assert!(map.set_default(2, 1));
    assert_eq!(map.rows(), vec![&[0, 1, 2][..], &[3, 4, 0][..]]);
}

#[test]
fn clear_puts_default_tiles_everywhere() {
    let mut map = numbered(3, 2);
    map.clear();
    assert_eq!(map.size(), (3, 2));
    for y in 0..2 {
        for x in 0..3 {
            assert_eq!(map.get(x, y), Some(0));
        }
    }
}

#[test]
fn clear_to_puts_the_tile_everywhere() {
    let mut map = numbered(3, 2);
    map.clear_to(8);
    assert_eq!(map.size(), (3, 2));
    for y in 0..2 {
        for x in 0..3 {
            assert_eq!(map.get(x, y), Some(8));
        }
    }
}

#[test]
fn row_is_as_long_as_the_map_is_wide() {
    let map = numbered(4, 3);
    for r in 0..3 {
        let row = map.row(r).expect("the map has this row");
        assert_eq!(row.len(), map.width());
        for x in 0..4 {
            assert_eq!(Some(row[x]), map.get(x, r));
        }
    }
    assert_eq!(map.row(3), None);
    assert_eq!(map.row(usize::MAX), None);
}

#[test]
fn rows_are_the_rows_top_to_bottom() {
    let map = numbered(4, 3);
    let rows = map.rows();
    assert_eq!(rows.len(), map.height());
    for (r, row) in rows.iter().enumerate() {
        assert_eq!(Some(*row), map.row(r));
    }
    assert_eq!(rows, vec![&[0, 1, 2, 3][..], &[4, 5, 6, 7][..], &[8, 9, 10, 11][..]]);
}

#[test]
fn row_mut_writes_one_row() {
    let mut map = numbered(3, 3);
    {
        let row = map.row_mut(1).expect("the map has this row");
        assert_eq!(row, &mut [3, 4, 5][..]);
        row[0] = 30;
        row[2] = 50;
    }
    assert!(map.row_mut(3).is_none());
    assert_eq!(map.rows(), vec![&[0, 1, 2][..], &[30, 4, 50][..], &[6, 7, 8][..]]);
}

#[test]
fn rows_mut_writes_through() {
    let mut map = DynamicMap::<i32>::new(3, 2);
    {
        let mut rows = map.rows_mut();
        assert_eq!(rows.len(), 2);
        assert_eq!(rows[0].len(), 3);
        rows[1][2] = 5;
        rows[0][0] = 4;
    }
    assert_eq!(map.get(2, 1), Some(5));
    assert_eq!(map.get(0, 0), Some(4));
    assert_eq!(map.rows(), vec![&[4, 0, 0][..], &[0, 0, 5][..]]);
}

#[test]
fn a_clone_is_a_map_of_its_own() {
    let mut map = numbered(2, 2);
    let copy = map.clone();
    assert!(map.set(0, 0, 9));
    assert_eq!(copy.get(0, 0), Some(0));
    assert_eq!(map.get(0, 0), Some(9));
}

#[test]
fn with_capacity_has_a_width_and_no_rows() {
    let mut map = DynamicMap::<u64>::with_capacity(4, 10);
    assert_eq!(map.size(), (4, 0));
    assert_eq!(map.get(0, 0), None);
    assert!(!map.set(0, 0, 1));
    assert_eq!(map.row(0), None);
    assert!(map.rows().is_empty());
    assert!(map.rows_mut().is_empty());
    let none = DynamicMap::<u64>::with_capacity(0, 10);
    assert_eq!(none.size(), (0, 0));
}

#[test]
fn a_clone_has_the_same_tiles() {
    let map = DynamicMap::filled(3, 2, String::from("water"));
    let copy = map.clone();
    assert_eq!(copy.size(), map.size());
    assert_eq!(copy.rows(), map.rows());
}
