use worldgen::roads::{Rect, RoadGenerator};

#[test]
fn rect_dimensions_and_splits() {
    let r = Rect::new(2, 3, 12, 9);
    assert_eq!(r.width(), 10);
    assert_eq!(r.height(), 6);
    let (left, right) = r.split_vertical(4);
    assert_eq!((left.x1, left.y1, left.x2, left.y2), (2, 3, 6, 9));
    assert_eq!((right.x1, right.y1, right.x2, right.y2), (7, 3, 12, 9));
    let (top, bottom) = r.split_horizontal(2);
    assert_eq!((top.x1, top.y1, top.x2, top.y2), (2, 3, 12, 5));
    assert_eq!((bottom.x1, bottom.y1, bottom.x2, bottom.y2), (2, 6, 12, 9));
}

#[test]
fn generation_terminates_within_bounds() {
    let mut g = RoadGenerator::new(&[1, 2, 3, 4], 10, 10, 3);
    g.generate();
    let roads = g.roads();
    assert!(roads.len() > 0);
    for road in roads {
        let vertical = road.x1 == road.x2;
        if vertical {
            assert!(road.x1 < 10);
            assert!(road.y1 <= road.y2);
            assert!(road.y2 <= 10);
        } else {
            assert_eq!(road.y1, road.y2);
            assert!(road.y1 < 10);
            assert!(road.x1 <= road.x2);
            assert!(road.x2 <= 10);
        }
    }
}

#[test]
fn split_coordinates_respect_margins() {
    // On a 10 by 10 map only full-extent rectangles are large enough to
    // split, so every split line's fixed coordinate is the drawn offset
    // itself: at least four and at most ten minus five.
    let mut g = RoadGenerator::new(&[1, 2, 3, 4], 10, 10, 3);
    g.generate();
    let roads = g.roads();
    assert!(roads.len() > 0);
    for road in roads {
        let fixed = if road.x1 == road.x2 { road.x1 } else { road.y1 };
        assert!(fixed >= 4);
        assert!(fixed <= 5);
    }
}

#[test]
fn generation_is_deterministic() {
    let mut a = RoadGenerator::new(&[6, 6, 6], 64, 48, 12);
    let mut b = RoadGenerator::new(&[6, 6, 6], 64, 48, 12);
    a.generate();
    b.generate();
    assert_eq!(a.roads().len(), b.roads().len());
    for i in 0..a.roads().len() {
        assert_eq!(a.roads()[i], b.roads()[i]);
    }
    assert!(a.roads().len() > 0);
}

#[test]
fn too_small_map_yields_no_roads() {
    let mut g = RoadGenerator::new(&[1, 2, 3, 4], 10, 10, 11);
    g.generate();
    assert_eq!(g.roads().len(), 0);
    let mut tiny = RoadGenerator::new(&[1, 2, 3, 4], 8, 8, 1);
    tiny.generate();
    assert_eq!(tiny.roads().len(), 0);
}

#[test]
fn larger_map_roads_stay_inside() {
    let mut g = RoadGenerator::new(&[2, 7, 1, 8], 128, 128, 12);
    g.generate();
    let roads = g.roads();
    assert!(roads.len() > 0);
    for road in roads {
        assert!(road.x1 <= road.x2);
        assert!(road.y1 <= road.y2);
        if road.x1 == road.x2 {
            assert!(road.x1 < 128);
            assert!(road.y2 <= 128);
        } else {
            assert!(road.y1 < 128);
            assert!(road.x2 <= 128);
        }
    }
}
