use tile_maps::prelude::{MapMut, MapRegions, MapRows, MapRowsMut, TileMap};
use tile_maps::row::{DynamicMap, StaticMap};

fn snapshot<M: TileMap<Tile = u32>>(map: &M) -> Vec<Vec<Option<u32>>> {
    (0..map.height() + 2)
        .map(|y| (0..map.width() + 2).map(|x| map.get(x, y)).collect())
        .collect()
}

fn number<M: MapMut<Tile = u32>>(map: &mut M) {
    for y in 0..map.height() {
        for x in 0..map.width() {
            assert!(map.set(x, y, (1000 * y + x) as u32));
        }
    }
}

fn law_in_bounds<M: TileMap<Tile = u32>>(map: &M) {
    for y in 0..map.height() + 3 {
        for x in 0..map.width() + 3 {
            assert_eq!(map.in_bounds(x, y), x < map.width() && y < map.height());
            assert_eq!(map.in_bounds(x, y), map.get(x, y).is_some());
        }
    }
    assert_eq!(map.size(), (map.width(), map.height()));
}

fn law_set_then_get<M: MapMut<Tile = u32>>(map: &mut M) {
    for y in 0..map.height() {
        for x in 0..map.width() {
            let before = snapshot(map);
            assert!(map.set(x, y, 7_000_000));
            assert_eq!(map.get(x, y), Some(7_000_000));
            assert_eq!(map.get_ref(x, y), Some(&7_000_000));
            let after = snapshot(map);
            for (row, (b, a)) in before.iter().zip(&after).enumerate() {
                for (column, (b, a)) in b.iter().zip(a).enumerate() {
                    if (column, row) != (x, y) {
                        assert_eq!(a, b);
                    }
                }
            }
            assert_eq!(map.replace(x, y, before[y][x].unwrap()), Ok(7_000_000));
            assert_eq!(snapshot(map), before);
        }
    }
}

fn law_out_of_bounds<M: MapMut<Tile = u32>>(map: &mut M) {
    let (width, height) = map.size();
    let outside = [
        (width, 0),
        (0, height),
        (width, height),
        (width + 1, 0),
        (usize::MAX, 0),
        (0, usize::MAX),
        (usize::MAX, usize::MAX),
    ];
    for (x, y) in outside {
        let before = snapshot(map);
        assert_eq!(map.get(x, y), None);
        assert_eq!(map.get_ref(x, y), None);
        assert!(map.get_mut(x, y).is_none());
        assert!(!map.set(x, y, 5));
        assert_eq!(map.replace(x, y, 6), Err(6));
        assert!(!map.set_default(x, y));
        assert_eq!(map.replace_default(x, y), Err(0));
        assert_eq!(snapshot(map), before);
    }
}

fn law_clear<M: MapMut<Tile = u32>>(map: &mut M) {
    let size = map.size();
    map.clear();
    assert_eq!(map.size(), size);
    for y in 0..size.1 {
        for x in 0..size.0 {
            assert_eq!(map.get(x, y), Some(0));
        }
    }
}

fn law_clear_to<M: MapMut<Tile = u32>>(map: &mut M) {
    let size = map.size();
    map.clear_to(31);
    assert_eq!(map.size(), size);
    for y in 0..size.1 {
        for x in 0..size.0 {
            assert_eq!(map.get(x, y), Some(31));
        }
    }
}

fn law_region<M: TileMap<Tile = u32>>(map: &M) {
    for y in 0..map.height() + 2 {
        for x in 0..map.width() + 2 {
            for h in 1..map.height() + 2 {
                for w in 1..map.width() + 2 {
                    let region = map.region(x, y, w, h);
                    assert_eq!(region.is_some(), map.in_bounds(x + w - 1, y + h - 1));
                    if let Some(region) = region {
                        assert_eq!(region.size(), (w, h));
                        for ly in 0..h {
                            for lx in 0..w {
                                assert_eq!(region.get(lx, ly), map.get(x + lx, y + ly));
                            }
                        }
                        assert_eq!(region.get(w, 0), None);
                        assert_eq!(region.get(0, h), None);
                    }
                }
            }
        }
    }
}

fn law_region_write_through<M: MapMut<Tile = u32>>(map: &mut M) {
    let (width, height) = map.size();
    if width < 2 || height < 2 {
        return;
    }
    let (x, y, w, h) = (1, 1, width - 1, height - 1);
    for ly in 0..h {
        for lx in 0..w {
            let before = snapshot(map);
            {
                let mut region = map.region_mut(x, y, w, h).expect("the window lies inside the map");
                assert!(region.set(lx, ly, 4_000_000));
            }
            assert_eq!(map.get(x + lx, y + ly), Some(4_000_000));
            let after = snapshot(map);
            for (row, (b, a)) in before.iter().zip(&after).enumerate() {
                for (column, (b, a)) in b.iter().zip(a).enumerate() {
                    if (column, row) != (x + lx, y + ly) {
                        assert_eq!(a, b);
                    }
                }
            }
        }
    }
}

fn law_rows<M: MapRows<Tile = u32>>(map: &M) {
    let rows = map.rows();
    assert_eq!(rows.len(), map.height());
    for r in 0..map.height() {
        let row = map.row(r).expect("the map has this row");
        assert_eq!(row.len(), map.width());
        assert_eq!(rows[r], row);
        for x in 0..map.width() {
            assert_eq!(Some(row[x]), map.get(x, r));
        }
    }
    assert_eq!(map.row(map.height()), None);
}

fn law_rows_mut<M: MapRowsMut<Tile = u32>>(map: &mut M) {
    let (width, height) = map.size();
    let mut expected = snapshot(map);
    for r in 0..height {
        let row = map.row_mut(r).expect("the map has this row");
        assert_eq!(row.len(), width);
        for x in 0..width {
            assert_eq!(Some(row[x]), expected[r][x]);
            row[x] += 1;
            expected[r][x] = Some(row[x]);
        }
    }
    assert!(map.row_mut(height).is_none());
    assert_eq!(snapshot(map), expected);
    {
        let mut rows = map.rows_mut();
        assert_eq!(rows.len(), height);
        for r in 0..height {
            assert_eq!(rows[r].len(), width);
            for x in 0..width {
                assert_eq!(Some(rows[r][x]), expected[r][x]);
                rows[r][x] += 2;
                expected[r][x] = Some(rows[r][x]);
            }
        }
    }
    assert_eq!(snapshot(map), expected);
}

fn all_laws<M: MapRowsMut<Tile = u32> + MapMut>(map: &mut M) {
    number(map);
    law_in_bounds(map);
    law_set_then_get(map);
    law_out_of_bounds(map);
    law_region(map);
    law_region_write_through(map);
    law_rows(map);
    law_rows_mut(map);
    law_clear_to(map);
    law_clear(map);
}

#[test]
fn laws_hold_of_a_dynamic_map() {
    all_laws(&mut DynamicMap::<u32>::new(4, 3));
    all_laws(&mut DynamicMap::<u32>::new(1, 1));
    all_laws(&mut DynamicMap::<u32>::new(1, 5));
    all_laws(&mut DynamicMap::<u32>::new(5, 1));
    all_laws(&mut DynamicMap::<u32>::new(0, 0));
    all_laws(&mut DynamicMap::<u32>::new(3, 0));
    all_laws(&mut DynamicMap::<u32>::new(0, 3));
}

#[test]
fn laws_hold_of_a_static_map() {
    all_laws(&mut StaticMap::<u32, 4, 3>::new());
    all_laws(&mut StaticMap::<u32, 1, 1>::new());
    all_laws(&mut StaticMap::<u32, 0, 0>::new());
    all_laws(&mut StaticMap::<u32, 3, 0>::new());
    all_laws(&mut StaticMap::<u32, 0, 3>::new());
}

#[test]
fn laws_hold_of_a_mutable_region() {
    let mut map = DynamicMap::<u32>::new(7, 6);
    number(&mut map);
    let mut expected = snapshot(&map);
    {
        let mut region = map.region_mut(2, 1, 4, 3).expect("the window lies inside the map");
        all_laws(&mut region);
        // The laws end with a clear.
        for y in 1..4 {
            for x in 2..6 {
                expected[y][x] = Some(0);
            }
        }
    }
    assert_eq!(snapshot(&map), expected);
    {
        let mut empty = map.region_mut(50, 50, 0, 3).expect("a window without tiles");
        all_laws(&mut empty);
    }
    assert_eq!(snapshot(&map), expected);
}

#[test]
fn laws_hold_of_a_region_of_a_region() {
    let mut map = StaticMap::<u32, 6, 6>::new();
    number(&mut map);
    let mut outer = map.region_mut(1, 1, 5, 5).expect("the window lies inside the map");
    {
        let mut inner = outer.region_mut(1, 2, 3, 2).expect("the window lies inside the outer region");
        all_laws(&mut inner);
    }
    let inner = outer.region(0, 0, 5, 5).expect("the window lies inside the outer region");
    law_in_bounds(&inner);
    law_region(&inner);
    law_rows(&inner);
}

#[test]
fn reads_of_a_region_obey_the_laws() {
    let mut map = DynamicMap::<u32>::new(5, 4);
    number(&mut map);
    let region = map.region(1, 1, 3, 2).expect("the window lies inside the map");
    law_in_bounds(&region);
    law_region(&region);
    law_rows(&region);
}
