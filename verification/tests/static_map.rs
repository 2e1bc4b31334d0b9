use tile_maps::prelude::{MapMut, MapRows, MapRowsMut, TileMap};
use tile_maps::row::StaticMap;

fn numbered() -> StaticMap<u32, 3, 2> {
    let mut map = StaticMap::<u32, 3, 2>::new();
    for y in 0..2 {
        for x in 0..3 {
            assert!(map.set(x, y, (x + 3 * y) as u32));
        }
    }
    map
}

#[test]
fn static_new_has_the_size_of_its_type() {
    let map = StaticMap::<i32, 5, 4>::new();
    assert_eq!(map.width(), 5);
    assert_eq!(map.height(), 4);
    assert_eq!(map.size(), (5, 4));
}

#[test]
fn static_new_fills_with_default_tiles_that_need_not_be_copy() {
    let map = StaticMap::<String, 2, 3>::new();
    assert_eq!(map.size(), (2, 3));
    for y in 0..3 {
        for x in 0..2 {
            assert_eq!(map.get_ref(x, y), Some(&String::new()));
        }
    }
    assert_eq!(map.rows().len(), 3);
    assert_eq!(map.row(2).map(|row| row.len()), Some(2));
}

#[test]
fn static_default_is_new() {
    let map: StaticMap<Vec<u8>, 2, 2> = Default::default();
    for y in 0..2 {
        for x in 0..2 {
            assert_eq!(map.get_ref(x, y), Some(&Vec::new()));
        }
    }
}

#[test]
fn static_default_copy_fills_with_one_default_tile() {
    let map = StaticMap::<(i8, char), 4, 1>::default_copy();
    for x in 0..4 {
        assert_eq!(map.get(x, 0), Some((0, '\0')));
    }
    assert_eq!(map.get(0, 1), None);
}

#[test]
fn static_filled_holds_copies_of_the_tile() {
    let map = StaticMap::<u16, 2, 3>::filled(513);
    for y in 0..3 {
        for x in 0..2 {
            assert_eq!(map.get(x, y), Some(513));
        }
    }
}

#[test]
fn static_map_without_tiles() {
    let mut map = StaticMap::<u8, 0, 3>::new();
    assert_eq!(map.size(), (0, 3));
    assert_eq!(map.get(0, 0), None);
    assert!(!map.set(0, 0, 1));
    assert_eq!(map.row(1), Some(&[][..]));
    assert_eq!(map.rows().len(), 3);
    let mut none = StaticMap::<u8, 3, 0>::new();
    assert_eq!(none.size(), (3, 0));
    assert_eq!(none.row(0), None);
    assert!(none.rows_mut().is_empty());
}

#[test]
fn static_in_bounds_is_x_below_width_and_y_below_height() {
    let map = numbered();
    for y in 0..4 {
        for x in 0..5 {
            assert_eq!(map.in_bounds(x, y), x < 3 && y < 2);
        }
    }
    assert!(!map.in_bounds(usize::MAX, usize::MAX));
}

#[test]
fn static_out_of_bounds_gives_nothing_and_changes_nothing() {
    let mut map = numbered();
    assert_eq!(map.get(3, 0), None);
    assert_eq!(map.get_ref(0, 2), None);
    assert!(map.get_mut(3, 2).is_none());
    assert!(!map.set(3, 0, 9));
    assert_eq!(map.replace(0, 2, 9), Err(9));
    assert_eq!(map.replace_default(usize::MAX, 0), Err(0));
    assert!(!map.set_default(0, usize::MAX));
    assert_eq!(map.rows(), vec![&[0, 1, 2][..], &[3, 4, 5][..]]);
}

#[test]
fn static_set_get_replace() {
    let mut map = numbered();
    assert!(map.set(1, 1, 44));
    assert_eq!(map.get(1, 1), Some(44));
    assert_eq!(map.replace(1, 1, 45), Ok(44));
    assert_eq!(map.replace_default(1, 1), Ok(45));
    assert!(map.set_default(0, 0));
    if let Some(tile) = map.get_mut(2, 0) {
        *tile += 10;
    }
    assert_eq!(map.rows(), vec![&[0, 1, 12][..], &[3, 0, 5][..]]);
}

#[test]
fn static_clear_and_clear_to() {
    let mut map = numbered();
    map.clear_to(6);
    assert_eq!(map.rows(), vec![&[6, 6, 6][..], &[6, 6, 6][..]]);
    map.clear();
    assert_eq!(map.rows(), vec![&[0, 0, 0][..], &[0, 0, 0][..]]);
}

#[test]
fn static_rows_match_row() {
    let map = numbered();
    let rows = map.rows();
    assert_eq!(rows.len(), map.height());
    for (r, row) in rows.iter().enumerate() {
        assert_eq!(row.len(), map.width());
        assert_eq!(Some(*row), map.row(r));
    }
    assert_eq!(map.row(2), None);
}

#[test]
fn static_row_mut_and_rows_mut_write_through() {
    let mut map = numbered();
    {
        let row = map.row_mut(0).expect("the map has this row");
        row[1] = 10;
    }
    assert!(map.row_mut(2).is_none());
    {
        let mut rows = map.rows_mut();
        assert_eq!(rows.len(), 2);
        rows[1][0] = 30;
        rows[0][2] = 20;
    }
    assert_eq!(map.rows(), vec![&[0, 10, 20][..], &[30, 4, 5][..]]);
}

#[test]
fn static_clone_is_a_map_of_its_own() {
    let mut map = numbered();
    let copy = map.clone();
    assert!(map.set(0, 0, 9));
    assert_eq!(copy.rows(), vec![&[0, 1, 2][..], &[3, 4, 5][..]]);
    assert_eq!(map.get(0, 0), Some(9));
}
