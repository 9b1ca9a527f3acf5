use worldgen::building::Building;
use worldgen::collision::CollisionLayer;
use worldgen::grid::{ctoi, itoc, Vec2D};
use worldgen::terrain::TileId;

#[test]
fn itoc_and_ctoi_round_trip() {
    assert_eq!(itoc(0, 4), (0, 0));
    assert_eq!(itoc(5, 4), (1, 1));
    assert_eq!(itoc(11, 4), (3, 2));
    assert_eq!(ctoi(3, 2, 4), 11);
    assert_eq!(ctoi(0, 0, 4), 0);
    for i in 0..24 {
        let (x, y) = itoc(i, 6);
        assert_eq!(ctoi(x, y, 6), i);
    }
}

#[test]
fn vec2d_push_and_get() {
    let mut g: Vec2D<u64> = Vec2D::new(3, 2);
    assert_eq!(g.width(), 3);
    assert_eq!(g.height(), 2);
    assert_eq!(g.len(), 0);
    for v in 0..6u64 {
        g.push(v * 10);
    }
    assert_eq!(g.len(), 6);
    assert_eq!(g.get(0, 0), Some(&0));
    assert_eq!(g.get(2, 1), Some(&50));
    assert_eq!(g.get(1, 1), Some(&40));
    assert_eq!(g.get(3, 0), None);
    assert_eq!(g.get(0, 2), None);
}

#[test]
fn vec2d_set_and_read() {
    let mut g: Vec2D<u64> = Vec2D::from_vec(2, 2, vec![1, 2, 3, 4]);
    assert_eq!(g.read(1, 0), 2);
    g.set(1, 0, 9);
    assert_eq!(g.read(1, 0), 9);
    assert_eq!(g.read(0, 0), 1);
    assert_eq!(g.read(0, 1), 3);
    assert_eq!(g.read(1, 1), 4);
}

#[test]
fn vec2d_partial_grid_get_is_none() {
    let mut g: Vec2D<bool> = Vec2D::new(2, 2);
    g.push(true);
    assert_eq!(g.get(0, 0), Some(&true));
    assert_eq!(g.get(1, 0), None);
    assert_eq!(g.get(0, 1), None);
}

#[test]
fn collision_layer_round_trip() {
    let mut c = CollisionLayer::new(3, 2);
    assert_eq!(c.width(), 3);
    assert_eq!(c.height(), 2);
    assert!(!c.can_walk_right(1, 1));
    assert!(!c.can_walk_left(1, 1));
    assert!(!c.can_walk_up(1, 1));
    assert!(!c.can_walk_down(1, 1));
    c.set_collision_right(1, 1);
    assert!(c.can_walk_right(1, 1));
    assert!(c.can_walk_left(2, 1));
    assert!(!c.can_walk_left(1, 1));
    c.set_collision_top(0, 0);
    assert!(c.can_walk_up(0, 0));
    assert!(!c.can_walk_down(0, 0));
    c.set_collision_bottom(2, 0);
    assert!(c.can_walk_down(2, 0));
    assert!(c.can_walk_up(2, 1));
}

#[test]
fn building_tiles_and_border() {
    let b = Building::new(2, 3, 4, 3);
    assert_eq!(b.position(), (2, 3));
    let tiles = b.tiles();
    assert_eq!(tiles.width(), 4);
    assert_eq!(tiles.height(), 3);
    for y in 0..3 {
        for x in 0..4 {
            assert_eq!(tiles.read(x, y), TileId::Building);
        }
    }
    let c = b.collision();
    for x in 0..4 {
        assert!(c.can_walk_up(x, 0));
        assert!(c.can_walk_down(x, 2));
        assert!(!c.can_walk_down(x, 0));
        assert!(!c.can_walk_up(x, 2));
    }
    for y in 0..3 {
        assert!(c.can_walk_left(0, y));
        assert!(c.can_walk_right(3, y));
        assert!(!c.can_walk_right(0, y));
        assert!(!c.can_walk_left(3, y));
    }
}
