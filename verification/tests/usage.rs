use tile_maps::prelude::{MapMut, MapRegions, MapRows, TileMap};
use tile_maps::region::{MapRegion, MapRegionMut};
use tile_maps::row::{DynamicMap, StaticMap};

#[test]
fn growable_map_set_get_and_row() {
    let mut map = DynamicMap::<i32>::new(5, 4);
    assert_eq!(map.width(), 5);
    assert_eq!(map.height(), 4);
    for y in 0..4 {
        for x in 0..5 {
            assert_eq!(map.get(x, y), Some(0));
        }
    }
    assert!(map.set(2, 1, 9));
    assert_eq!(map.get(2, 1), Some(9));
    assert_eq!(map.row(1), Some(&[0, 0, 9, 0, 0][..]));
}

#[test]
fn fixed_map_clear_to_seven() {
    let mut map = StaticMap::<i32, 3, 3>::new();
    map.clear_to(7);
    for y in 0..3 {
        for x in 0..3 {
            assert_eq!(map.get(x, y), Some(7));
        }
    }
}

#[test]
fn region_of_ten_by_ten_reports_its_corners() {
    let map = DynamicMap::<i32>::new(10, 10);
    let region = map.region(1, 2, 4, 3).expect("the window lies inside the map");
    assert_eq!(region.left(), 1);
    assert_eq!(region.top(), 2);
    assert_eq!(region.right(), 5);
    assert_eq!(region.bottom(), 5);
    assert!(map.region(10, 10, 3, 3).is_none());
}

#[test]
fn region_new_of_ten_by_ten_reports_its_corners() {
    let map = DynamicMap::<i32>::new(10, 10);
    let region = MapRegion::new(&map, 1, 2, 4, 3).expect("the window lies inside the map");
    assert_eq!(region.left(), 1);
    assert_eq!(region.top(), 2);
    assert_eq!(region.right(), 1 + 4);
    assert_eq!(region.bottom(), 2 + 3);
    assert!(MapRegion::new(&map, 10, 10, 3, 3).is_none());
}

#[test]
fn region_mut_new_of_ten_by_ten_reports_its_corners() {
    let mut map = DynamicMap::<i32>::new(10, 10);
    {
        let region = MapRegionMut::new(&mut map, 1, 2, 4, 3).expect("the window lies inside the map");
        assert_eq!(region.left(), 1);
        assert_eq!(region.top(), 2);
        assert_eq!(region.right(), 1 + 4);
        assert_eq!(region.bottom(), 2 + 3);
    }
    assert!(MapRegionMut::new(&mut map, 10, 10, 3, 3).is_none());
}

#[test]
fn mutable_region_writes_through_to_its_parent() {
    let mut map = DynamicMap::<i32>::new(5, 5);
    {
        let mut region = map.region_mut(1, 1, 2, 2).expect("the window lies inside the map");
        assert!(region.set(0, 0, 42));
    }
    assert_eq!(map.get(1, 1), Some(42));
    for y in 0..5 {
        for x in 0..5 {
            if (x, y) != (1, 1) {
                assert_eq!(map.get(x, y), Some(0));
            }
        }
    }
}
