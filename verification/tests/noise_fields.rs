use worldgen::noise::{Noise, NOISE_ONE};
use worldgen::rng::MapGenerator;

#[test]
fn white_noise_reproduces_exactly() {
    let a = Noise::new_white_from_seed(&[1, 2, 3, 4], 4, 1);
    let b = Noise::new_white_from_seed(&[1, 2, 3, 4], 4, 1);
    assert_eq!(a.len(), 4);
    for x in 0..4 {
        assert_eq!(a.read(x, 0), b.read(x, 0));
        assert!(a.read(x, 0) < NOISE_ONE);
    }
}

#[test]
fn white_noise_varies_with_cell_and_seed() {
    let a = Noise::new_white_from_seed(&[1, 2, 3, 4], 8, 8);
    let first = a.read(0, 0);
    let mut all_same = true;
    for y in 0..8 {
        for x in 0..8 {
            if a.read(x, y) != first {
                all_same = false;
            }
        }
    }
    assert!(!all_same);
    let b = Noise::new_white_from_seed(&[4, 3, 2, 1], 8, 8);
    let mut any_diff = false;
    for y in 0..8 {
        for x in 0..8 {
            if a.read(x, y) != b.read(x, y) {
                any_diff = true;
            }
        }
    }
    assert!(any_diff);
}

#[test]
fn interpolate_exact_values() {
    assert_eq!(Noise::interpolate(0, 10000, 1, 2), 5000);
    assert_eq!(Noise::interpolate(2000, 6000, 1, 4), 3000);
    assert_eq!(Noise::interpolate(1234, 8765, 0, 8), 1234);
    assert_eq!(Noise::interpolate(1234, 8765, 8, 8), 8765);
    assert_eq!(Noise::interpolate(10, 20, 1, 3), 13);
}

#[test]
fn smoothing_at_unit_period_is_identity() {
    let base = Noise::new_white_from_seed(&[7, 7, 7], 6, 5);
    let smooth = Noise::new_smooth_from_white(&base, 0);
    for y in 0..5 {
        for x in 0..6 {
            assert_eq!(smooth.read(x, y), base.read(x, y));
        }
    }
}

#[test]
fn smooth_from_seed_matches_two_steps() {
    let direct = Noise::new_smooth_from_seed(&[9, 8, 7], 8, 8, 2);
    let base = Noise::new_white_from_seed(&[9, 8, 7], 8, 8);
    let smooth = Noise::new_smooth_from_white(&base, 2);
    for y in 0..8 {
        for x in 0..8 {
            assert_eq!(direct.read(x, y), smooth.read(x, y));
            assert!(direct.read(x, y) < NOISE_ONE);
        }
    }
}

#[test]
fn perlin_is_deterministic() {
    let a = Noise::new_perlin_from_seed(&[1, 2, 3, 4], 12, 9, 4, 6000);
    let b = Noise::new_perlin_from_seed(&[1, 2, 3, 4], 12, 9, 4, 6000);
    assert_eq!(a.width(), 12);
    assert_eq!(a.height(), 9);
    for y in 0..9 {
        for x in 0..12 {
            assert_eq!(a.read(x, y), b.read(x, y));
        }
    }
}

#[test]
fn perlin_cells_stay_in_unit_interval() {
    let a = Noise::new_perlin_from_seed(&[5, 6, 7, 8], 16, 16, 6, 6000);
    for y in 0..16 {
        for x in 0..16 {
            assert!(a.read(x, y) < NOISE_ONE);
        }
    }
    let b = Noise::new_perlin_from_seed(&[5, 6, 7, 8], 7, 3, 1, 9999);
    for y in 0..3 {
        for x in 0..7 {
            assert!(b.read(x, y) < NOISE_ONE);
        }
    }
}

#[test]
fn perlin_without_octaves_is_zero() {
    let a = Noise::new_perlin_from_seed(&[1, 2, 3], 5, 4, 0, 6000);
    for y in 0..4 {
        for x in 0..5 {
            assert_eq!(a.read(x, y), 0);
        }
    }
    let b = Noise::new_perlin_from_seed(&[1, 2, 3], 5, 4, 3, 0);
    for y in 0..4 {
        for x in 0..5 {
            assert_eq!(b.read(x, y), 0);
        }
    }
}

#[test]
fn accumulation_and_normalization_arithmetic() {
    let mut acc = Noise::new_white_from_seed(&[2, 4, 6], 3, 3);
    let layer = Noise::new_white_from_seed(&[2, 4, 6], 3, 3);
    let mut expected = [[0u64; 3]; 3];
    for y in 0..3 {
        for x in 0..3 {
            expected[y][x] = acc.read(x, y) + layer.read(x, y) * 3;
        }
    }
    acc.add_amp(&layer, 3);
    for y in 0..3 {
        for x in 0..3 {
            assert_eq!(acc.read(x, y), expected[y][x]);
        }
    }
    acc.add(&layer);
    for y in 0..3 {
        for x in 0..3 {
            assert_eq!(acc.read(x, y), expected[y][x] + layer.read(x, y));
        }
    }
    acc.normalize_amp(5);
    for y in 0..3 {
        for x in 0..3 {
            assert_eq!(acc.read(x, y), (expected[y][x] + layer.read(x, y)) / 5);
        }
    }
}

#[test]
fn seeded_stream_is_reproducible() {
    let mut a = MapGenerator::new_seed(&[1, 2, 3, 4]);
    let mut b = MapGenerator::new_seed(&[1, 2, 3, 4]);
    for _ in 0..16 {
        assert_eq!(a.next_usize(), b.next_usize());
    }
    let mut c = MapGenerator::new_seed(&[4, 3, 2, 1]);
    let mut d = MapGenerator::new_seed(&[1, 2, 3, 4]);
    let mut any_diff = false;
    for _ in 0..16 {
        if c.next_u64() != d.next_u64() {
            any_diff = true;
        }
    }
    assert!(any_diff);
}
