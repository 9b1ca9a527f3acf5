use worldgen::grid::Vec2D;
use worldgen::noise::Noise;
use worldgen::rng::fold_seed;
use worldgen::roads::{Rect, RoadGenerator};
use worldgen::terrain::{TerrainGenerator, TileId, MAP_ROAD_PARTITION, ROAD_STREAM_SALT};

#[test]
fn classification_thresholds_exact() {
    assert_eq!(TerrainGenerator::classify_tile(0), TileId::Snow);
    assert_eq!(TerrainGenerator::classify_tile(499), TileId::Snow);
    assert_eq!(TerrainGenerator::classify_tile(500), TileId::Road);
    assert_eq!(TerrainGenerator::classify_tile(1499), TileId::Road);
    assert_eq!(TerrainGenerator::classify_tile(1500), TileId::Grass);
    assert_eq!(TerrainGenerator::classify_tile(4999), TileId::Grass);
    assert_eq!(TerrainGenerator::classify_tile(5000), TileId::Forest);
    assert_eq!(TerrainGenerator::classify_tile(6499), TileId::Forest);
    assert_eq!(TerrainGenerator::classify_tile(6500), TileId::DeepWater);
    assert_eq!(TerrainGenerator::classify_tile(9999), TileId::DeepWater);
}

#[test]
fn classification_is_elementwise() {
    let noise = Noise::new_white_from_seed(&[3, 1, 4], 6, 4);
    let tiles = TerrainGenerator::classify(&noise);
    assert_eq!(tiles.width(), 6);
    assert_eq!(tiles.height(), 4);
    for y in 0..4 {
        for x in 0..6 {
            assert_eq!(tiles.read(x, y), TerrainGenerator::classify_tile(noise.read(x, y)));
        }
    }
}

#[test]
fn smooth_tile_three_neighbor_majority() {
    let r = TerrainGenerator::smooth_tile(
        TileId::Grass,
        TileId::Forest,
        TileId::Forest,
        TileId::Forest,
        TileId::Grass,
    );
    assert_eq!(r, TileId::Forest);
}

#[test]
fn smooth_tile_keeps_current_without_majority() {
    let r = TerrainGenerator::smooth_tile(
        TileId::Grass,
        TileId::Forest,
        TileId::Snow,
        TileId::Forest,
        TileId::DeepWater,
    );
    assert_eq!(r, TileId::Grass);
    let uniform = TerrainGenerator::smooth_tile(
        TileId::Snow,
        TileId::Snow,
        TileId::Snow,
        TileId::Snow,
        TileId::Snow,
    );
    assert_eq!(uniform, TileId::Snow);
}

#[test]
fn smoothing_uniform_grid_is_identity() {
    let mut g: Vec2D<TileId> = Vec2D::new(5, 5);
    for _ in 0..25 {
        g.push(TileId::Grass);
    }
    let s = TerrainGenerator::smooth_terrain(&g);
    for y in 0..5 {
        for x in 0..5 {
            assert_eq!(s.read(x, y), TileId::Grass);
        }
    }
}

#[test]
fn smoothing_preserves_borders() {
    let pattern = [
        TileId::Snow,
        TileId::Grass,
        TileId::Forest,
        TileId::DeepWater,
        TileId::Road,
    ];
    let mut g: Vec2D<TileId> = Vec2D::new(5, 4);
    for i in 0..20usize {
        g.push(pattern[(i * 3 + i / 5) % 5]);
    }
    let s = TerrainGenerator::smooth_terrain(&g);
    for x in 0..5 {
        assert_eq!(s.read(x, 0), g.read(x, 0));
        assert_eq!(s.read(x, 3), g.read(x, 3));
    }
    for y in 0..4 {
        assert_eq!(s.read(0, y), g.read(0, y));
        assert_eq!(s.read(4, y), g.read(4, y));
    }
}

#[test]
fn smoothing_removes_isolated_tile() {
    let mut g: Vec2D<TileId> = Vec2D::new(3, 3);
    for i in 0..9 {
        g.push(if i == 4 { TileId::Snow } else { TileId::Grass });
    }
    let s = TerrainGenerator::smooth_terrain(&g);
    assert_eq!(s.read(1, 1), TileId::Grass);
}

#[test]
fn road_overlay_has_priority() {
    let mut g: Vec2D<TileId> = Vec2D::new(6, 6);
    for _ in 0..36 {
        g.push(TileId::Grass);
    }
    let roads = vec![
        Rect::new(2, 1, 2, 5),
        Rect::new(0, 3, 6, 3),
    ];
    TerrainGenerator::add_roads(&mut g, &roads);
    for y in 0..6 {
        for x in 0..6 {
            let on_vertical = x == 2 && (1..5).contains(&y);
            let on_horizontal = y == 3;
            if on_vertical || on_horizontal {
                assert_eq!(g.read(x, y), TileId::Road);
            } else {
                assert_eq!(g.read(x, y), TileId::Grass);
            }
        }
    }
}

#[test]
fn generated_map_is_deterministic() {
    let a = TerrainGenerator::new_from_seed(&[1, 2, 3, 4], 32, 24);
    let b = TerrainGenerator::new_from_seed(&[1, 2, 3, 4], 32, 24);
    assert_eq!(a.width(), 32);
    assert_eq!(a.height(), 24);
    for y in 0..24 {
        for x in 0..32 {
            assert_eq!(a.read(x, y), b.read(x, y));
        }
    }
}

#[test]
fn generated_map_covers_roads_with_road_tiles() {
    let seed: &[usize] = &[1, 2, 3, 4];
    let width = 40;
    let height = 40;
    let map = TerrainGenerator::new_from_seed(seed, width, height);
    let mut rg = RoadGenerator::new_u64(
        fold_seed(seed) ^ ROAD_STREAM_SALT,
        width,
        height,
        MAP_ROAD_PARTITION,
    );
    rg.generate();
    let roads = rg.roads();
    assert!(roads.len() > 0);
    let mut covered = 0;
    for road in roads {
        if road.x1 == road.x2 {
            for y in road.y1..road.y2 {
                assert_eq!(map.read(road.x1, y), TileId::Road);
                covered += 1;
            }
        } else {
            for x in road.x1..road.x2 {
                assert_eq!(map.read(x, road.y1), TileId::Road);
                covered += 1;
            }
        }
    }
    assert!(covered > 0);
}

#[test]
fn generate_with_roads_reports_the_stamped_segments() {
    let (map, roads) =
        TerrainGenerator::generate_map_with_roads(&[9, 9, 9], 48, 32, 6, 6000, 12, 1);
    assert!(roads.len() > 0);
    for road in &roads {
        if road.x1 == road.x2 {
            for y in road.y1..road.y2 {
                assert_eq!(map.read(road.x1, y), TileId::Road);
            }
        } else {
            for x in road.x1..road.x2 {
                assert_eq!(map.read(x, road.y1), TileId::Road);
            }
        }
    }
}

#[test]
fn smoothing_pass_count_is_respected() {
    let one = TerrainGenerator::generate_map(&[5, 5, 5], 24, 24, 6, 6000, 12, 1);
    let noise = Noise::new_perlin_from_seed(&[5, 5, 5], 24, 24, 6, 6000);
    let classified = TerrainGenerator::classify(&noise);
    let mut expected = TerrainGenerator::smooth_terrain(&classified);
    let mut rg = RoadGenerator::new_u64(
        fold_seed(&[5, 5, 5]) ^ ROAD_STREAM_SALT,
        24,
        24,
        MAP_ROAD_PARTITION,
    );
    rg.generate();
    TerrainGenerator::add_roads(&mut expected, rg.roads());
    for y in 0..24 {
        for x in 0..24 {
            assert_eq!(one.read(x, y), expected.read(x, y));
        }
    }
}
