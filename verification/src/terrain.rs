//! Terrain tiles: threshold classification of a noise field into tile
//! categories, and majority-neighbor smoothing that removes isolated
//! single-tile artifacts.

use vstd::prelude::*;

verus! {

use crate::grid::Vec2D;
use crate::noise::{perlin_cells, Noise, NOISE_ONE};
use crate::rng::seed_of_words;
use crate::roads::{
    covered_by_roads, initial_roads, road_covers, road_in_map, Rect, RoadGenerator,
};

/// Terrain category of one map tile.
#[derive(Clone, Copy, Debug, PartialEq, Eq, Structural)]
pub enum TileId {
    Grass,
    ShallowWater,
    Road,
    Snow,
    DeepWater,
    Forest,
    Dirt,
    Sand,
    Swamp,
    Building,
}

/// Noise values below this classify as snow.
pub const SNOW_BELOW: u64 = 500;

/// Noise values below this (and not lower) classify as road seed.
pub const ROAD_BELOW: u64 = 1500;

/// Noise values below this (and not lower) classify as grass.
pub const GRASS_BELOW: u64 = 5000;

/// Noise values below this (and not lower) classify as forest; anything
/// higher is deep water.
pub const FOREST_BELOW: u64 = 6500;

/// The tile that a noise value classifies as: the ordered thresholds are
/// checked from the lowest up, and the first bound that exceeds the value
/// wins.
pub open spec fn classify_spec(c: u64) -> TileId {
    if c < SNOW_BELOW {
        TileId::Snow
    } else if c < ROAD_BELOW {
        TileId::Road
    } else if c < GRASS_BELOW {
        TileId::Grass
    } else if c < FOREST_BELOW {
        TileId::Forest
    } else {
        TileId::DeepWater
    }
}

/// Elementwise classification of a whole noise field.
pub open spec fn classify_cells(noise: Seq<u64>) -> Seq<TileId> {
    noise.map_values(|c: u64| classify_spec(c))
}

/// How many of the four cardinal neighbors vote for candidate `c`.
pub open spec fn neighbor_votes(
    c: TileId,
    top: TileId,
    right: TileId,
    bottom: TileId,
    left: TileId,
) -> int {
    (if top == c {
        1int
    } else {
        0int
    }) + (if right == c {
        1int
    } else {
        0int
    }) + (if bottom == c {
        1int
    } else {
        0int
    }) + (if left == c {
        1int
    } else {
        0int
    })
}

/// The smoothed identifier of a cell, from its current value and its four
/// cardinal neighbors: candidates are taken in a fixed priority order
/// (current first, then the neighbors) and the first one that at least
/// three of the four neighbors agree on wins; with no such three-way
/// majority the current identifier is kept.
pub open spec fn smooth_tile_spec(
    curr: TileId,
    top: TileId,
    right: TileId,
    bottom: TileId,
    left: TileId,
) -> TileId {
    if neighbor_votes(curr, top, right, bottom, left) >= 3 {
        curr
    } else if neighbor_votes(top, top, right, bottom, left) >= 3 {
        top
    } else if neighbor_votes(right, top, right, bottom, left) >= 3 {
        right
    } else if neighbor_votes(bottom, top, right, bottom, left) >= 3 {
        bottom
    } else if neighbor_votes(left, top, right, bottom, left) >= 3 {
        left
    } else {
        curr
    }
}

/// The smoothed identifier at `(x, y)` of a `w` by `h` row-major tile
/// sequence: interior cells go through the majority filter over their four
/// cardinal neighbors, border cells are copied unchanged.
pub open spec fn smoothed_at(tiles: Seq<TileId>, w: int, h: int, x: int, y: int) -> TileId {
    if 0 < x && x < w - 1 && 0 < y && y < h - 1 {
        smooth_tile_spec(
            tiles[y * w + x],
            tiles[(y + 1) * w + x],
            tiles[y * w + x + 1],
            tiles[(y - 1) * w + x],
            tiles[y * w + x - 1],
        )
    } else {
        tiles[y * w + x]
    }
}

/// One full smoothing pass over a tile grid, producing a new grid.
pub open spec fn smooth_grid_spec(tiles: Seq<TileId>, w: int, h: int) -> Seq<TileId> {
    Seq::new(tiles.len(), |i: int| smoothed_at(tiles, w, h, i % w, i / w))
}

/// The grid with one road segment stamped onto it: every cell on the
/// segment's path becomes `Road`, all others keep their value.
pub open spec fn stamp_road(tiles: Seq<TileId>, w: int, r: Rect) -> Seq<TileId> {
    Seq::new(
        tiles.len(),
        |i: int|
            if road_covers(r, i % w, i / w) {
                TileId::Road
            } else {
                tiles[i]
            },
    )
}

/// The grid with every segment of `roads` stamped onto it, in order.
pub open spec fn stamp_roads(tiles: Seq<TileId>, w: int, roads: Seq<Rect>) -> Seq<TileId>
    decreases roads.len(),
{
    if roads.len() == 0 {
        tiles
    } else {
        stamp_road(stamp_roads(tiles, w, roads.drop_last()), w, roads.last())
    }
}

/// `n` majority-neighbor smoothing passes, applied in sequence.
pub open spec fn smooth_iter(tiles: Seq<TileId>, w: int, h: int, n: nat) -> Seq<TileId>
    decreases n,
{
    if n == 0 {
        tiles
    } else {
        smooth_grid_spec(smooth_iter(tiles, w, h, (n - 1) as nat), w, h)
    }
}

/// Road overlay priority: stamping sets a cell to `Road` exactly when some
/// segment covers it, and leaves it untouched otherwise — so roads override
/// any prior classification or smoothing result, and order of stamping does
/// not matter.
pub proof fn lemma_stamp_roads_at(tiles: Seq<TileId>, w: int, roads: Seq<Rect>, x: int, y: int)
    requires
        0 <= x < w,
        0 <= y,
        y * w + x < tiles.len(),
    ensures
        stamp_roads(tiles, w, roads)[y * w + x] == if covered_by_roads(roads, x, y) {
            TileId::Road
        } else {
            tiles[y * w + x]
        },
    decreases roads.len(),
{
    vstd::arithmetic::div_mod::lemma_fundamental_div_mod_converse(y * w + x, w, y, x);
    if roads.len() == 0 {
        assert(!covered_by_roads(roads, x, y));
    } else {
        let last = roads.last();
        let front = roads.drop_last();
        lemma_stamp_roads_at(tiles, w, front, x, y);
        assert(stamp_roads(tiles, w, front).len() == tiles.len()) by {
            lemma_stamp_roads_len(tiles, w, front);
        }
        if road_covers(last, x, y) {
            assert(covered_by_roads(roads, x, y)) by {
                assert(road_covers(roads[roads.len() - 1], x, y));
            }
        } else {
            if covered_by_roads(front, x, y) {
                let i = choose|i: int|
                    0 <= i < front.len() && road_covers(#[trigger] front[i], x, y);
                assert(road_covers(roads[i], x, y));
            }
            if covered_by_roads(roads, x, y) {
                let i = choose|i: int|
                    0 <= i < roads.len() && road_covers(#[trigger] roads[i], x, y);
                assert(i < roads.len() - 1);
                assert(road_covers(front[i], x, y));
            }
        }
    }
}

/// Stamping never changes the grid's size.
pub proof fn lemma_stamp_roads_len(tiles: Seq<TileId>, w: int, roads: Seq<Rect>)
    ensures
        stamp_roads(tiles, w, roads).len() == tiles.len(),
    decreases roads.len(),
{
    if roads.len() > 0 {
        lemma_stamp_roads_len(tiles, w, roads.drop_last());
    }
}

/// Number of octaves the default map pipeline blends.
pub const MAP_OCTAVES: usize = 6;

/// Persistence of the default map pipeline, in the fixed-point scale of
/// `NOISE_ONE`: six tenths.
pub const MAP_PERSISTENCE: u64 = 6000;

/// Minimum partition size of the default road network.
pub const MAP_ROAD_PARTITION: usize = 12;

/// Smoothing passes of the default map pipeline.
pub const MAP_SMOOTHING_PASSES: usize = 1;

/// Distinguishes the road stream from the noise stream drawn from the same
/// configured seed; an arbitrary odd 64-bit constant.
pub const ROAD_STREAM_SALT: u64 = 0x9e3779b97f4a7c15;

/// The seed of the road stream that belongs to a noise seed: the two
/// streams are drawn from the same configuration but must not coincide.
pub open spec fn road_stream_seed(seed: u64) -> u64 {
    seed ^ ROAD_STREAM_SALT
}

/// The finished tile grid of the whole generation pipeline: perlin noise
/// from the seed, elementwise classification, the configured number of
/// smoothing passes, and the road network of the second stream stamped on
/// top.
pub open spec fn generated_map(
    seed: Seq<usize>,
    width: usize,
    height: usize,
    octave_count: usize,
    persistence: u64,
    min_partition_size: usize,
    smoothing_passes: usize,
) -> Seq<TileId> {
    let sd = seed_of_words(seed);
    let noise = perlin_cells(sd, width as int, height as int, octave_count as nat, persistence);
    let tiles = classify_cells(noise);
    let smoothed = smooth_iter(tiles, width as int, height as int, smoothing_passes as nat);
    let roads = initial_roads(road_stream_seed(sd), min_partition_size as int, width, height);
    stamp_roads(smoothed, width as int, roads)
}

/// The road layout that the whole generation pipeline stamps onto the map.
pub open spec fn generated_roads(
    seed: Seq<usize>,
    width: usize,
    height: usize,
    min_partition_size: usize,
) -> Seq<Rect> {
    initial_roads(road_stream_seed(seed_of_words(seed)), min_partition_size as int, width, height)
}

/// Builds the terrain layers of the map; every step is a pure function of
/// the seed and the dimensions.
pub struct TerrainGenerator {}

impl TerrainGenerator {
    /// The tile that one noise value classifies as.
    pub fn classify_tile(c: u64) -> (r: TileId)
        ensures
            r == classify_spec(c),
    {
        if c < SNOW_BELOW {
            TileId::Snow
        } else if c < ROAD_BELOW {
            TileId::Road
        } else if c < GRASS_BELOW {
            TileId::Grass
        } else if c < FOREST_BELOW {
            TileId::Forest
        } else {
            TileId::DeepWater
        }
    }

    /// Classifies a whole noise field into a tile grid, elementwise; no
    /// cell's decision consults its neighbors.
    pub fn classify(noise: &Noise) -> (r: Vec2D<TileId>)
        requires
            noise.is_full(),
        ensures
            r.spec_width() == noise.spec_width(),
            r.spec_height() == noise.spec_height(),
            r.is_full(),
            r.cells() == classify_cells(noise.cells()),
    {
        let width = noise.width();
        let height = noise.height();
        let n = noise.len();
        let mut tiles: Vec2D<TileId> = Vec2D::new(width, height);
        let mut i: usize = 0;
        while i < n
            invariant
                noise.is_full(),
                noise.spec_width() == width,
                noise.spec_height() == height,
                n == noise.cells().len(),
                i <= n,
                tiles.spec_width() == width,
                tiles.spec_height() == height,
                tiles.cells().len() == i,
                forall|j: int| 0 <= j < i ==> tiles.cells()[j] == classify_spec(noise.cells()[j]),
            decreases n - i,
        {
            let c = noise.read_flat(i);
            tiles.push(Self::classify_tile(c));
            i = i + 1;
        }
        proof {
            assert(tiles.cells() =~= classify_cells(noise.cells()));
        }
        tiles
    }

    /// The smoothed identifier of a cell from its current value and its
    /// four cardinal neighbors: the first candidate, in priority order
    /// current, top, right, bottom, left, that at least three of the four
    /// neighbors agree on; the current identifier when none reaches that
    /// majority.
    pub fn smooth_tile(
        curr: TileId,
        top: TileId,
        right: TileId,
        bottom: TileId,
        left: TileId,
    ) -> (r: TileId)
        ensures
            r == smooth_tile_spec(curr, top, right, bottom, left),
    {
        if Self::votes(curr, top, right, bottom, left) >= 3 {
            curr
        } else if Self::votes(top, top, right, bottom, left) >= 3 {
            top
        } else if Self::votes(right, top, right, bottom, left) >= 3 {
            right
        } else if Self::votes(bottom, top, right, bottom, left) >= 3 {
            bottom
        } else if Self::votes(left, top, right, bottom, left) >= 3 {
            left
        } else {
            curr
        }
    }

    /// Counts the cardinal neighbors that equal the candidate.
    fn votes(c: TileId, top: TileId, right: TileId, bottom: TileId, left: TileId) -> (r: u8)
        ensures
            r == neighbor_votes(c, top, right, bottom, left),
    {
        let mut t: u8 = 0;
        if top == c {
            t = t + 1;
        }
        if right == c {
            t = t + 1;
        }
        if bottom == c {
            t = t + 1;
        }
        if left == c {
            t = t + 1;
        }
        t
    }

    /// One full majority-neighbor smoothing pass, producing a new grid:
    /// interior cells are filtered over their four cardinal neighbors,
    /// border cells are copied unchanged.
    pub fn smooth_terrain(tiles: &Vec2D<TileId>) -> (r: Vec2D<TileId>)
        requires
            tiles.is_full(),
        ensures
            r.spec_width() == tiles.spec_width(),
            r.spec_height() == tiles.spec_height(),
            r.is_full(),
            r.cells() == smooth_grid_spec(tiles.cells(), tiles.spec_width(), tiles.spec_height()),
    {
        let width = tiles.width();
        let height = tiles.height();
        let ghost w = tiles.spec_width();
        let ghost h = tiles.spec_height();
        let n = tiles.len();
        let mut out: Vec2D<TileId> = Vec2D::new(width, height);
        let mut y: usize = 0;
        while y < height
            invariant
                tiles.is_full(),
                w == tiles.spec_width(),
                h == tiles.spec_height(),
                width == w,
                height == h,
                y <= height,
                out.spec_width() == w,
                out.spec_height() == h,
                out.cells().len() == y * w,
                forall|j: int| 0 <= j < out.cells().len()
                    ==> out.cells()[j] == smoothed_at(tiles.cells(), w, h, j % w, j / w),
            decreases height - y,
        {
            let mut x: usize = 0;
            while x < width
                invariant
                    tiles.is_full(),
                    w == tiles.spec_width(),
                    h == tiles.spec_height(),
                    width == w,
                    height == h,
                    y < height,
                    x <= width,
                    out.spec_width() == w,
                    out.spec_height() == h,
                    out.cells().len() == y * w + x,
                    forall|j: int| 0 <= j < out.cells().len()
                        ==> out.cells()[j] == smoothed_at(tiles.cells(), w, h, j % w, j / w),
                decreases width - x,
            {
                proof {
                    crate::grid::lemma_row_major_index_bound(x as int, y as int, w, h);
                }
                let v = if x > 0 && x + 1 < width && y > 0 && y + 1 < height {
                    proof {
                        crate::grid::lemma_row_major_index_bound(x as int, (y + 1) as int, w, h);
                        crate::grid::lemma_row_major_index_bound(x as int, (y - 1) as int, w, h);
                    }
                    Self::smooth_tile(
                        tiles.read(x, y),
                        tiles.read(x, y + 1),
                        tiles.read(x + 1, y),
                        tiles.read(x, y - 1),
                        tiles.read(x - 1, y),
                    )
                } else {
                    tiles.read(x, y)
                };
                out.push(v);
                proof {
                    let j = y * w + x;
                    vstd::arithmetic::div_mod::lemma_fundamental_div_mod_converse(
                        j,
                        w,
                        y as int,
                        x as int,
                    );
                    assert(v == smoothed_at(tiles.cells(), w, h, x as int, y as int));
                }
                x = x + 1;
            }
            proof {
                assert(y * w + w == (y + 1) * w) by (nonlinear_arith);
            }
            y = y + 1;
        }
        proof {
            assert(out.cells().len() == tiles.cells().len()) by (nonlinear_arith)
                requires
                    out.cells().len() == h * w,
                    tiles.cells().len() == w * h,
            ;
            assert(out.cells() =~= smooth_grid_spec(tiles.cells(), w, h));
        }
        out
    }
}

impl TerrainGenerator {
    /// Stamps every road segment onto the tile grid: each cell on a
    /// segment's path is set to `Road`, overriding whatever classification
    /// or smoothing put there; cells off every segment are untouched.
    pub fn add_roads(tiles: &mut Vec2D<TileId>, roads: &Vec<Rect>)
        requires
            old(tiles).is_full(),
            forall|i: int| 0 <= i < roads@.len()
                ==> road_in_map(
                    #[trigger] roads@[i],
                    old(tiles).spec_width(),
                    old(tiles).spec_height(),
                ),
        ensures
            final(tiles).spec_width() == old(tiles).spec_width(),
            final(tiles).spec_height() == old(tiles).spec_height(),
            final(tiles).is_full(),
            final(tiles).cells() == stamp_roads(
                old(tiles).cells(),
                old(tiles).spec_width(),
                roads@,
            ),
    {
        let ghost orig = *old(tiles);
        let ghost w = orig.spec_width();
        let ghost h = orig.spec_height();
        let nroads = roads.len();
        let mut r: usize = 0;
        while r < nroads
            invariant
                r <= nroads,
                nroads == roads@.len(),
                forall|i: int| 0 <= i < roads@.len()
                    ==> road_in_map(#[trigger] roads@[i], w, h),
                w == orig.spec_width(),
                h == orig.spec_height(),
                orig.is_full(),
                tiles.spec_width() == w,
                tiles.spec_height() == h,
                tiles.is_full(),
                tiles.cells() == stamp_roads(orig.cells(), w, roads@.take(r as int)),
            decreases nroads - r,
        {
            let road = roads[r];
            let ghost pre = tiles.cells();
            proof {
                lemma_stamp_roads_len(orig.cells(), w, roads@.take(r as int));
            }
            if road.x1 == road.x2 {
                let mut yy = road.y1;
                while yy < road.y2
                    invariant
                        road == roads@[r as int],
                        r < roads@.len(),
                        road_in_map(road, w, h),
                        road.x1 == road.x2,
                        road.y1 <= yy <= road.y2,
                        tiles.spec_width() == w,
                        tiles.spec_height() == h,
                        tiles.is_full(),
                        tiles.cells().len() == pre.len(),
                        pre.len() == w * h,
                        forall|j: int| 0 <= j < pre.len()
                            ==> tiles.cells()[j] == (if j % w == road.x1 && road.y1 <= j / w < yy {
                                TileId::Road
                            } else {
                                pre[j]
                            }),
                    decreases road.y2 - yy,
                {
                    proof {
                        crate::grid::lemma_row_major_index_bound(road.x1 as int, yy as int, w, h);
                        vstd::arithmetic::div_mod::lemma_fundamental_div_mod_converse(
                            yy * w + road.x1,
                            w,
                            yy as int,
                            road.x1 as int,
                        );
                    }
                    tiles.set(road.x1, yy, TileId::Road);
                    proof {
                        assert forall|j: int| 0 <= j < pre.len() implies tiles.cells()[j] == (
                        if j % w == road.x1 && road.y1 <= j / w < yy + 1 {
                            TileId::Road
                        } else {
                            pre[j]
                        }) by {
                            vstd::arithmetic::div_mod::lemma_fundamental_div_mod(j, w);
                            assert(w * (j / w) == (j / w) * w) by (nonlinear_arith);
                        }
                    }
                    yy = yy + 1;
                }
                proof {
                    assert(tiles.cells() =~= stamp_road(pre, w, road));
                }
            } else {
                let mut xx = road.x1;
                while xx < road.x2
                    invariant
                        road == roads@[r as int],
                        r < roads@.len(),
                        road_in_map(road, w, h),
                        road.x1 != road.x2,
                        road.x1 <= xx,
                        xx <= road.x2,
                        tiles.spec_width() == w,
                        tiles.spec_height() == h,
                        tiles.is_full(),
                        tiles.cells().len() == pre.len(),
                        pre.len() == w * h,
                        forall|j: int| 0 <= j < pre.len()
                            ==> tiles.cells()[j] == (if j / w == road.y1 && road.x1 <= j % w < xx {
                                TileId::Road
                            } else {
                                pre[j]
                            }),
                    decreases road.x2 - xx,
                {
                    proof {
                        crate::grid::lemma_row_major_index_bound(xx as int, road.y1 as int, w, h);
                        vstd::arithmetic::div_mod::lemma_fundamental_div_mod_converse(
                            road.y1 * w + xx,
                            w,
                            road.y1 as int,
                            xx as int,
                        );
                    }
                    tiles.set(xx, road.y1, TileId::Road);
                    proof {
                        assert forall|j: int| 0 <= j < pre.len() implies tiles.cells()[j] == (
                        if j / w == road.y1 && road.x1 <= j % w < xx + 1 {
                            TileId::Road
                        } else {
                            pre[j]
                        }) by {
                            vstd::arithmetic::div_mod::lemma_fundamental_div_mod(j, w);
                            assert(w * (j / w) == (j / w) * w) by (nonlinear_arith);
                        }
                    }
                    xx = xx + 1;
                }
                proof {
                    assert(tiles.cells() =~= stamp_road(pre, w, road));
                }
            }
            proof {
                assert(roads@.take(r + 1).drop_last() =~= roads@.take(r as int));
                assert(roads@.take(r + 1).last() == roads@[r as int]);
            }
            r = r + 1;
        }
        proof {
            assert(roads@.take(nroads as int) =~= roads@);
        }
    }

    /// Runs the whole generation pipeline for an explicit configuration:
    /// perlin noise from the seed, elementwise classification, the given
    /// number of smoothing passes, and the road network of the second
    /// stream stamped on top. Every cell covered by a road segment comes
    /// out as `Road`, whatever was classified there before.
    pub fn generate_map(
        seed: &[usize],
        width: usize,
        height: usize,
        octave_count: usize,
        persistence: u64,
        min_partition_size: usize,
        smoothing_passes: usize,
    ) -> (r: Vec2D<TileId>)
        requires
            width * height <= usize::MAX,
            octave_count < 64,
            persistence <= NOISE_ONE,
        ensures
            r.spec_width() == width,
            r.spec_height() == height,
            r.is_full(),
            r.cells() == generated_map(
                seed@,
                width,
                height,
                octave_count,
                persistence,
                min_partition_size,
                smoothing_passes,
            ),
            forall|x: int, y: int|
                0 <= x < width && 0 <= y < height && covered_by_roads(
                    generated_roads(seed@, width, height, min_partition_size),
                    x,
                    y,
                ) ==> r.at(x, y) == TileId::Road,
    {
        let (map, _) = Self::generate_map_with_roads(
            seed,
            width,
            height,
            octave_count,
            persistence,
            min_partition_size,
            smoothing_passes,
        );
        map
    }

    /// As `generate_map`, but also hands back the raw road layer, for
    /// callers that want the segments separately from their terrain stamp.
    pub fn generate_map_with_roads(
        seed: &[usize],
        width: usize,
        height: usize,
        octave_count: usize,
        persistence: u64,
        min_partition_size: usize,
        smoothing_passes: usize,
    ) -> (r: (Vec2D<TileId>, Vec<Rect>))
        requires
            width * height <= usize::MAX,
            octave_count < 64,
            persistence <= NOISE_ONE,
        ensures
            r.0.spec_width() == width,
            r.0.spec_height() == height,
            r.0.is_full(),
            r.0.cells() == generated_map(
                seed@,
                width,
                height,
                octave_count,
                persistence,
                min_partition_size,
                smoothing_passes,
            ),
            r.1@ == generated_roads(seed@, width, height, min_partition_size),
            forall|i: int| 0 <= i < r.1@.len()
                ==> road_in_map(#[trigger] r.1@[i], width as int, height as int),
            forall|x: int, y: int|
                0 <= x < width && 0 <= y < height && covered_by_roads(r.1@, x, y)
                    ==> r.0.at(x, y) == TileId::Road,
    {
        let ghost w = width as int;
        let ghost h = height as int;
        let noise = Noise::new_perlin_from_seed(seed, width, height, octave_count, persistence);
        let mut tiles = Self::classify(&noise);
        let ghost classified = tiles.cells();
        let mut pass: usize = 0;
        while pass < smoothing_passes
            invariant
                pass <= smoothing_passes,
                w == width as int,
                h == height as int,
                tiles.spec_width() == w,
                tiles.spec_height() == h,
                tiles.is_full(),
                tiles.cells() == smooth_iter(classified, w, h, pass as nat),
            decreases smoothing_passes - pass,
        {
            tiles = Self::smooth_terrain(&tiles);
            pass = pass + 1;
        }
        let ghost smoothed = tiles.cells();
        let road_seed = crate::rng::fold_seed(seed) ^ ROAD_STREAM_SALT;
        let mut road_generator = RoadGenerator::new_u64(
            road_seed,
            width,
            height,
            min_partition_size,
        );
        road_generator.generate();
        Self::add_roads(&mut tiles, road_generator.roads());
        proof {
            let roads = generated_roads(seed@, width, height, min_partition_size);
            assert(tiles.cells() == stamp_roads(smoothed, w, roads));
            lemma_stamp_roads_len(smoothed, w, roads);
            assert forall|x: int, y: int|
                0 <= x < width && 0 <= y < height && covered_by_roads(
                    roads,
                    x,
                    y,
                ) implies tiles.at(x, y) == TileId::Road by {
                crate::grid::lemma_row_major_index_bound(x, y, w, h);
                lemma_stamp_roads_at(smoothed, w, roads, x, y);
            }
        }
        (tiles, road_generator.into_roads())
    }

    /// The finished map for a seed, with the library's default
    /// configuration: the default octave blend and persistence, one
    /// smoothing pass, and the default road partition size.
    pub fn new_from_seed(seed: &[usize], width: usize, height: usize) -> (r: Vec2D<TileId>)
        requires
            width * height <= usize::MAX,
        ensures
            r.spec_width() == width,
            r.spec_height() == height,
            r.is_full(),
            r.cells() == generated_map(
                seed@,
                width,
                height,
                MAP_OCTAVES,
                MAP_PERSISTENCE,
                MAP_ROAD_PARTITION,
                MAP_SMOOTHING_PASSES,
            ),
    {
        Self::generate_map(
            seed,
            width,
            height,
            MAP_OCTAVES,
            MAP_PERSISTENCE,
            MAP_ROAD_PARTITION,
            MAP_SMOOTHING_PASSES,
        )
    }
}

/// Border preservation: one smoothing pass leaves every border cell
/// (x = 0, x = w - 1, y = 0, or y = h - 1) identical to the input.
pub proof fn lemma_smooth_preserves_border(tiles: Seq<TileId>, w: int, h: int, x: int, y: int)
    requires
        tiles.len() == w * h,
        0 <= x < w,
        0 <= y < h,
        x == 0 || x == w - 1 || y == 0 || y == h - 1,
    ensures
        smooth_grid_spec(tiles, w, h)[y * w + x] == tiles[y * w + x],
{
    crate::grid::lemma_row_major_index_bound(x, y, w, h);
    vstd::arithmetic::div_mod::lemma_fundamental_div_mod_converse(y * w + x, w, y, x);
}

/// Smoothing idempotence on uniform input: a grid whose every cell holds
/// the same identifier comes back unchanged from a smoothing pass — the
/// cell's own identifier collects all four neighbor votes.
pub proof fn lemma_smooth_uniform_identity(tiles: Seq<TileId>, w: int, h: int, t: TileId)
    requires
        tiles.len() == w * h,
        0 <= w,
        0 <= h,
        forall|i: int| 0 <= i < tiles.len() ==> tiles[i] == t,
    ensures
        smooth_grid_spec(tiles, w, h) == tiles,
{
    assert forall|i: int| 0 <= i < tiles.len() implies smooth_grid_spec(tiles, w, h)[i]
        == tiles[i] by {
        assert(w > 0 && h > 0) by (nonlinear_arith)
            requires
                0 <= i < w * h,
                0 <= w,
                0 <= h,
        ;
        let x = i % w;
        let y = i / w;
        vstd::arithmetic::div_mod::lemma_fundamental_div_mod(i, w);
        assert(0 <= x < w);
        assert(0 <= y < h) by (nonlinear_arith)
            requires
                0 <= i < w * h,
                0 < w,
                i == w * y + x,
                0 <= x < w,
        ;
        assert(y * w == w * y) by (nonlinear_arith);
        assert(y * w + x == i);
        if 0 < x && x < w - 1 && 0 < y && y < h - 1 {
            crate::grid::lemma_row_major_index_bound(x, y + 1, w, h);
            crate::grid::lemma_row_major_index_bound(x, y - 1, w, h);
            crate::grid::lemma_row_major_index_bound(x - 1, y, w, h);
            crate::grid::lemma_row_major_index_bound(x + 1, y, w, h);
            assert(smoothed_at(tiles, w, h, x, y) == t);
        }
    }
    assert(smooth_grid_spec(tiles, w, h) =~= tiles);
}


} // verus!
