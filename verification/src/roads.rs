//! Road network generation: a binary space partition of the map rectangle,
//! driven by a seeded stream, that emits one straight road segment per
//! split. The whole layout is a function of the seed and the dimensions.

use vstd::prelude::*;

verus! {

use vstd::arithmetic::power2::pow2;

use crate::rng::{rng_draw, seed_of_words, MapGenerator};

/// An axis-aligned rectangle, `[x1, x2)` by `[y1, y2)`. A degenerate
/// rectangle with `x1 == x2` or `y1 == y2` doubles as a road segment:
/// a vertical one runs at column `x1` over the rows `[y1, y2)`, a
/// horizontal one at row `y1` over the columns `[x1, x2)`.
#[derive(Clone, Copy, Debug, PartialEq, Eq, Structural)]
pub struct Rect {
    pub x1: usize,
    pub y1: usize,
    pub x2: usize,
    pub y2: usize,
}

/// A rectangle whose corners are ordered.
pub open spec fn rect_wf(r: Rect) -> bool {
    r.x1 <= r.x2 && r.y1 <= r.y2
}

/// A rectangle that lies within a `w` by `h` map.
pub open spec fn rect_in_map(r: Rect, w: int, h: int) -> bool {
    rect_wf(r) && r.x2 <= w && r.y2 <= h
}

/// A road segment that lies within a `w` by `h` map: degenerate in one
/// axis, and every cell on its path in range.
pub open spec fn road_in_map(r: Rect, w: int, h: int) -> bool {
    ||| (r.x1 == r.x2 && r.x1 < w && r.y1 <= r.y2 && r.y2 <= h)
    ||| (r.y1 == r.y2 && r.y1 < h && r.x1 <= r.x2 && r.x2 <= w)
}

impl Rect {
    pub fn new(x1: usize, y1: usize, x2: usize, y2: usize) -> (r: Rect)
        ensures
            r == (Rect { x1, y1, x2, y2 }),
    {
        Rect { x1, y1, x2, y2 }
    }

    /// The rectangle's width.
    pub fn width(&self) -> (r: usize)
        requires
            self.x1 <= self.x2,
        ensures
            r == self.x2 - self.x1,
    {
        self.x2 - self.x1
    }

    /// The rectangle's height.
    pub fn height(&self) -> (r: usize)
        requires
            self.y1 <= self.y2,
        ensures
            r == self.y2 - self.y1,
    {
        self.y2 - self.y1
    }

    /// Splits the rectangle at local column offset `x`: the left part keeps
    /// the columns below the split, the right part those above it; the
    /// split column itself belongs to neither.
    pub fn split_vertical(&self, x: usize) -> (r: (Rect, Rect))
        requires
            rect_wf(*self),
            x < self.x2 - self.x1,
        ensures
            r.0 == (Rect { x1: self.x1, y1: self.y1, x2: (self.x1 + x) as usize, y2: self.y2 }),
            r.1 == (Rect {
                x1: (self.x1 + x + 1) as usize,
                y1: self.y1,
                x2: self.x2,
                y2: self.y2,
            }),
    {
        let left = Rect { x1: self.x1, y1: self.y1, x2: self.x1 + x, y2: self.y2 };
        let right = Rect { x1: self.x1 + x + 1, y1: self.y1, x2: self.x2, y2: self.y2 };
        (left, right)
    }

    /// Splits the rectangle at local row offset `y`, the horizontal
    /// counterpart of `split_vertical`.
    pub fn split_horizontal(&self, y: usize) -> (r: (Rect, Rect))
        requires
            rect_wf(*self),
            y < self.y2 - self.y1,
        ensures
            r.0 == (Rect { x1: self.x1, y1: self.y1, x2: self.x2, y2: (self.y1 + y) as usize }),
            r.1 == (Rect {
                x1: self.x1,
                y1: (self.y1 + y + 1) as usize,
                x2: self.x2,
                y2: self.y2,
            }),
    {
        let top = Rect { x1: self.x1, y1: self.y1, x2: self.x2, y2: self.y1 + y };
        let bottom = Rect { x1: self.x1, y1: self.y1 + y + 1, x2: self.x2, y2: self.y2 };
        (top, bottom)
    }
}

/// The smallest extent a rectangle may have along the split axis and still
/// be split: a margin of four cells on either side plus the road itself.
pub const ROAD_SPLIT_MIN: usize = 9;

/// The size threshold a rectangle must reach along the split axis: the
/// configured minimum partition size, but never below the margin floor.
pub open spec fn eff_limit(min_size: int) -> int {
    if min_size < ROAD_SPLIT_MIN as int {
        ROAD_SPLIT_MIN as int
    } else {
        min_size
    }
}

/// The split offset drawn for a rectangle of extent `w` at draw `k`:
/// between the margins, four cells clear of either edge.
pub open spec fn split_offset(seed: u64, k: nat, w: int) -> int {
    4 + (rng_draw(seed, k) as int) % (w - 8)
}

/// The potential of one work-list entry, used to show that the partition
/// work-list depletes: each split replaces an entry by two whose width
/// plus height is smaller by at least five.
pub open spec fn entry_measure(e: (bool, Rect)) -> nat {
    pow2(((e.1.x2 - e.1.x1) + (e.1.y2 - e.1.y1)) as nat)
}

/// The total potential of a work-list.
pub open spec fn stack_measure(stack: Seq<(bool, Rect)>) -> nat
    decreases stack.len(),
{
    if stack.len() == 0 {
        0
    } else {
        stack_measure(stack.drop_last()) + entry_measure(stack.last())
    }
}

/// Every rectangle on the work-list has ordered corners.
pub open spec fn stack_wf(stack: Seq<(bool, Rect)>) -> bool {
    forall|i: int| 0 <= i < stack.len() ==> rect_wf(#[trigger] stack[i].1)
}

/// The road segments that the partition loop emits, from a work-list
/// `stack`, having already drawn `k` values from the stream of `seed` and
/// emitted `acc`. Entries are processed last-in first-out; an entry is
/// split along its tagged axis when large enough there, is split along the
/// other axis when only that one is large enough, and is dropped
/// otherwise; each split pushes the two children tagged with the other
/// axis and emits the segment along the split line.
pub open spec fn roads_from(
    seed: u64,
    min_size: int,
    stack: Seq<(bool, Rect)>,
    k: nat,
    acc: Seq<Rect>,
) -> Seq<Rect>
    decreases stack_measure(stack),
    when stack_wf(stack)
    via roads_from_decreases
{
    if stack.len() == 0 {
        acc
    } else {
        let (vertical, rect) = stack.last();
        let rest = stack.drop_last();
        let w = rect.x2 - rect.x1;
        let h = rect.y2 - rect.y1;
        if vertical && w >= eff_limit(min_size) {
            let x = split_offset(seed, k, w);
            let left = Rect { x1: rect.x1, y1: rect.y1, x2: (rect.x1 + x) as usize, y2: rect.y2 };
            let right = Rect {
                x1: (rect.x1 + x + 1) as usize,
                y1: rect.y1,
                x2: rect.x2,
                y2: rect.y2,
            };
            let road = Rect {
                x1: (rect.x1 + x) as usize,
                y1: rect.y1,
                x2: (rect.x1 + x) as usize,
                y2: rect.y2,
            };
            roads_from(
                seed,
                min_size,
                rest.push((false, left)).push((false, right)),
                k + 1,
                acc.push(road),
            )
        } else if h >= eff_limit(min_size) {
            let y = split_offset(seed, k, h);
            let top = Rect { x1: rect.x1, y1: rect.y1, x2: rect.x2, y2: (rect.y1 + y) as usize };
            let bottom = Rect {
                x1: rect.x1,
                y1: (rect.y1 + y + 1) as usize,
                x2: rect.x2,
                y2: rect.y2,
            };
            let road = Rect {
                x1: rect.x1,
                y1: (rect.y1 + y) as usize,
                x2: rect.x2,
                y2: (rect.y1 + y) as usize,
            };
            roads_from(
                seed,
                min_size,
                rest.push((true, top)).push((true, bottom)),
                k + 1,
                acc.push(road),
            )
        } else {
            roads_from(seed, min_size, rest, k, acc)
        }
    }
}

#[via_fn]
proof fn roads_from_decreases(
    seed: u64,
    min_size: int,
    stack: Seq<(bool, Rect)>,
    k: nat,
    acc: Seq<Rect>,
) {
    if stack.len() > 0 {
        let (vertical, rect) = stack.last();
        let rest = stack.drop_last();
        let w = rect.x2 - rect.x1;
        let h = rect.y2 - rect.y1;
        lemma_stack_measure_pop(stack);
        if vertical && w >= eff_limit(min_size) {
            let x = split_offset(seed, k, w);
            lemma_split_offset_in_margin(seed, k, w);
            let left = Rect { x1: rect.x1, y1: rect.y1, x2: (rect.x1 + x) as usize, y2: rect.y2 };
            let right = Rect {
                x1: (rect.x1 + x + 1) as usize,
                y1: rect.y1,
                x2: rect.x2,
                y2: rect.y2,
            };
            lemma_two_children_measure(rest, (false, left), (false, right), (vertical, rect));
        } else if h >= eff_limit(min_size) {
            let y = split_offset(seed, k, h);
            lemma_split_offset_in_margin(seed, k, h);
            let top = Rect { x1: rect.x1, y1: rect.y1, x2: rect.x2, y2: (rect.y1 + y) as usize };
            let bottom = Rect {
                x1: rect.x1,
                y1: (rect.y1 + y + 1) as usize,
                x2: rect.x2,
                y2: rect.y2,
            };
            lemma_two_children_measure(rest, (true, top), (true, bottom), (vertical, rect));
        } else {
            vstd::arithmetic::power2::lemma_pow2_pos(
                (((rect.x2 - rect.x1) + (rect.y2 - rect.y1))) as nat,
            );
        }
    }
}

/// Whether road segment `r` covers cell `(x, y)`: a vertical segment
/// covers its column over `[y1, y2)`, a horizontal one its row over
/// `[x1, x2)`. A segment degenerate in both axes counts as vertical.
pub open spec fn road_covers(r: Rect, x: int, y: int) -> bool {
    if r.x1 == r.x2 {
        x == r.x1 && r.y1 <= y < r.y2
    } else {
        y == r.y1 && r.x1 <= x < r.x2
    }
}

/// Whether any segment of `roads` covers cell `(x, y)`.
pub open spec fn covered_by_roads(roads: Seq<Rect>, x: int, y: int) -> bool {
    exists|i: int| 0 <= i < roads.len() && road_covers(#[trigger] roads[i], x, y)
}

/// The full road layout of a `width` by `height` map for a seed: the
/// orientation of the first split comes from draw zero, and the partition
/// then starts from the whole map rectangle.
pub open spec fn initial_roads(seed: u64, min_size: int, width: usize, height: usize) -> Seq<
    Rect,
> {
    let vertical = rng_draw(seed, 0) % 2 == 1;
    let full = Rect { x1: 0, y1: 0, x2: width, y2: height };
    roads_from(seed, min_size, seq![(vertical, full)], 1, Seq::empty())
}

/// Generates the road network of a map by binary space partition: a seeded
/// work-list of rectangles is split alternately along the two axes, and
/// every split line becomes a road segment.
pub struct RoadGenerator {
    width: usize,
    height: usize,
    rng: MapGenerator,
    roads: Vec<Rect>,
    min_partition_size: usize,
}

impl RoadGenerator {
    /// The map width.
    pub closed spec fn spec_width(self) -> int {
        self.width as int
    }

    /// The map height.
    pub closed spec fn spec_height(self) -> int {
        self.height as int
    }

    /// The configured minimum partition size.
    pub closed spec fn spec_min(self) -> int {
        self.min_partition_size as int
    }

    /// The 64-bit seed of the generator's stream.
    pub closed spec fn seed(self) -> u64 {
        self.rng.seed()
    }

    /// How many values the generator has drawn.
    pub closed spec fn drawn(self) -> nat {
        self.rng.drawn()
    }

    /// The road segments emitted so far.
    pub closed spec fn spec_roads(self) -> Seq<Rect> {
        self.roads@
    }

    /// A road generator for a `width` by `height` map, with its own seeded
    /// stream, that splits no rectangle smaller than `min_partition_size`
    /// along the split axis.
    pub fn new(seed: &[usize], width: usize, height: usize, min_partition_size: usize) -> (r:
        RoadGenerator)
        ensures
            r.seed() == seed_of_words(seed@),
            r.drawn() == 0,
            r.spec_width() == width,
            r.spec_height() == height,
            r.spec_min() == min_partition_size,
            r.spec_roads() == Seq::<Rect>::empty(),
    {
        RoadGenerator {
            width,
            height,
            rng: MapGenerator::new_seed(seed),
            roads: Vec::new(),
            min_partition_size,
        }
    }

    /// A road generator for the stream of the given 64-bit seed.
    pub fn new_u64(seed: u64, width: usize, height: usize, min_partition_size: usize) -> (r:
        RoadGenerator)
        ensures
            r.seed() == seed,
            r.drawn() == 0,
            r.spec_width() == width,
            r.spec_height() == height,
            r.spec_min() == min_partition_size,
            r.spec_roads() == Seq::<Rect>::empty(),
    {
        RoadGenerator {
            width,
            height,
            rng: MapGenerator::new_u64(seed),
            roads: Vec::new(),
            min_partition_size,
        }
    }

    /// The emitted road segments.
    pub fn roads(&self) -> (r: &Vec<Rect>)
        ensures
            r@ == self.spec_roads(),
    {
        &self.roads
    }

    /// The emitted road segments, by value, consuming the generator.
    pub fn into_roads(self) -> (r: Vec<Rect>)
        ensures
            r@ == self.spec_roads(),
    {
        self.roads
    }

    /// Runs the partition until the work-list depletes. Every emitted
    /// segment is degenerate along one axis and lies within the map:
    /// a vertical one at a column below `width` over rows up to `height`,
    /// a horizontal one at a row below `height` over columns up to `width`.
    pub fn generate(&mut self)
        requires
            old(self).drawn() == 0,
            old(self).spec_roads() == Seq::<Rect>::empty(),
        ensures
            final(self).spec_width() == old(self).spec_width(),
            final(self).spec_height() == old(self).spec_height(),
            final(self).spec_min() == old(self).spec_min(),
            final(self).seed() == old(self).seed(),
            final(self).spec_roads() == initial_roads(
                old(self).seed(),
                old(self).spec_min(),
                old(self).spec_width() as usize,
                old(self).spec_height() as usize,
            ),
            forall|i: int| 0 <= i < final(self).spec_roads().len()
                ==> road_in_map(
                    #[trigger] final(self).spec_roads()[i],
                    old(self).spec_width(),
                    old(self).spec_height(),
                ),
    {
        let ghost sd = self.rng.seed();
        let ghost minv = self.min_partition_size as int;
        let ghost w0 = self.width as int;
        let ghost h0 = self.height as int;
        let size_limit: usize = if self.min_partition_size < ROAD_SPLIT_MIN {
            ROAD_SPLIT_MIN
        } else {
            self.min_partition_size
        };
        let d0 = self.rng.next_u64();
        let vertical0 = d0 % 2 == 1;
        let mut process_list: Vec<(bool, Rect)> = Vec::new();
        process_list.push((vertical0, Rect { x1: 0, y1: 0, x2: self.width, y2: self.height }));
        let ghost target = initial_roads(sd, minv, self.width, self.height);
        proof {
            let full = Rect { x1: 0usize, y1: 0usize, x2: self.width, y2: self.height };
            assert(process_list@ =~= seq![(vertical0, full)]);
        }
        while process_list.len() > 0
            invariant
                self.width as int == w0,
                self.height as int == h0,
                self.min_partition_size as int == minv,
                size_limit as int == eff_limit(minv),
                self.rng.seed() == sd,
                stack_wf(process_list@),
                forall|i: int| 0 <= i < process_list@.len()
                    ==> rect_in_map(#[trigger] process_list@[i].1, w0, h0),
                forall|i: int| 0 <= i < self.roads@.len()
                    ==> road_in_map(#[trigger] self.roads@[i], w0, h0),
                roads_from(sd, minv, process_list@, self.rng.drawn(), self.roads@) == target,
            decreases stack_measure(process_list@),
        {
            let ghost stack0 = process_list@;
            let ghost roads0 = self.roads@;
            let ghost k0 = self.rng.drawn();
            let e = process_list.pop().unwrap();
            let vertical = e.0;
            let rect = e.1;
            proof {
                assert(stack0.drop_last() =~= process_list@);
                assert((vertical, rect) == stack0.last());
                assert(rect_wf(stack0[stack0.len() - 1].1));
                lemma_stack_measure_pop(stack0);
            }
            let w = rect.x2 - rect.x1;
            let h = rect.y2 - rect.y1;
            if vertical && w >= size_limit {
                let d = self.rng.next_u64();
                let off = 4 + ((d % ((w - 8) as u64)) as usize);
                proof {
                    lemma_split_offset_in_margin(sd, k0, w as int);
                    assert(off as int == split_offset(sd, k0, w as int));
                }
                let (left, right) = rect.split_vertical(off);
                process_list.push((false, left));
                process_list.push((false, right));
                let road = Rect::new(rect.x1 + off, rect.y1, rect.x1 + off, rect.y2);
                self.roads.push(road);
                proof {
                    assert(process_list@ =~= stack0.drop_last().push((false, left)).push(
                        (false, right),
                    ));
                    assert(self.roads@ =~= roads0.push(road));
                    assert(roads_from(sd, minv, stack0, k0, roads0) == roads_from(
                        sd,
                        minv,
                        process_list@,
                        self.rng.drawn(),
                        self.roads@,
                    ));
                    lemma_two_children_measure(
                        stack0.drop_last(),
                        (false, left),
                        (false, right),
                        (vertical, rect),
                    );
                }
            } else if h >= size_limit {
                let d = self.rng.next_u64();
                let off = 4 + ((d % ((h - 8) as u64)) as usize);
                proof {
                    lemma_split_offset_in_margin(sd, k0, h as int);
                    assert(off as int == split_offset(sd, k0, h as int));
                }
                let (top, bottom) = rect.split_horizontal(off);
                process_list.push((true, top));
                process_list.push((true, bottom));
                let road = Rect::new(rect.x1, rect.y1 + off, rect.x2, rect.y1 + off);
                self.roads.push(road);
                proof {
                    assert(process_list@ =~= stack0.drop_last().push((true, top)).push(
                        (true, bottom),
                    ));
                    assert(self.roads@ =~= roads0.push(road));
                    assert(roads_from(sd, minv, stack0, k0, roads0) == roads_from(
                        sd,
                        minv,
                        process_list@,
                        self.rng.drawn(),
                        self.roads@,
                    ));
                    lemma_two_children_measure(
                        stack0.drop_last(),
                        (true, top),
                        (true, bottom),
                        (vertical, rect),
                    );
                }
            } else {
                proof {
                    vstd::arithmetic::power2::lemma_pow2_pos(
                        (((rect.x2 - rect.x1) + (rect.y2 - rect.y1))) as nat,
                    );
                    assert(roads_from(sd, minv, stack0, k0, roads0) == roads_from(
                        sd,
                        minv,
                        process_list@,
                        self.rng.drawn(),
                        self.roads@,
                    ));
                }
            }
        }
        proof {
            assert(roads_from(sd, minv, process_list@, self.rng.drawn(), self.roads@)
                == self.roads@);
        }
    }
}

/// A drawn split offset keeps four cells clear of either edge: it lands in
/// `[4, w - 5]`.
pub proof fn lemma_split_offset_in_margin(seed: u64, k: nat, w: int)
    requires
        w >= 9,
    ensures
        4 <= split_offset(seed, k, w) <= w - 5,
{
    let d = rng_draw(seed, k) as int;
    assert(0 <= d % (w - 8) < w - 8) by (nonlinear_arith)
        requires
            w - 8 >= 1,
            d >= 0,
    ;
}

/// Popping the top entry removes exactly its potential.
pub proof fn lemma_stack_measure_pop(stack: Seq<(bool, Rect)>)
    requires
        stack.len() > 0,
    ensures
        stack_measure(stack) == stack_measure(stack.drop_last()) + entry_measure(stack.last()),
{
}

/// Pushing an entry adds exactly its potential.
pub proof fn lemma_stack_measure_push(stack: Seq<(bool, Rect)>, e: (bool, Rect))
    ensures
        stack_measure(stack.push(e)) == stack_measure(stack) + entry_measure(e),
{
    assert(stack.push(e).drop_last() =~= stack);
    assert(stack.push(e).last() == e);
}

/// `pow2` is monotone.
pub proof fn lemma_pow2_le(a: nat, b: nat)
    requires
        a <= b,
    ensures
        pow2(a) <= pow2(b),
{
    if a < b {
        vstd::arithmetic::power2::lemma_pow2_strictly_increases(a, b);
    }
}

/// The two children of a split carry less total potential than their
/// parent: each loses at least five from its width-plus-height, so even
/// together they stay below it.
pub proof fn lemma_two_children_measure(
    rest: Seq<(bool, Rect)>,
    e1: (bool, Rect),
    e2: (bool, Rect),
    parent: (bool, Rect),
)
    requires
        rect_wf(e1.1),
        rect_wf(e2.1),
        rect_wf(parent.1),
        (e1.1.x2 - e1.1.x1) + (e1.1.y2 - e1.1.y1) + 5 <= (parent.1.x2 - parent.1.x1) + (parent.1.y2
            - parent.1.y1),
        (e2.1.x2 - e2.1.x1) + (e2.1.y2 - e2.1.y1) + 5 <= (parent.1.x2 - parent.1.x1) + (parent.1.y2
            - parent.1.y1),
    ensures
        stack_measure(rest.push(e1).push(e2)) < stack_measure(rest) + entry_measure(parent),
{
    let s = ((parent.1.x2 - parent.1.x1) + (parent.1.y2 - parent.1.y1)) as nat;
    let s1 = ((e1.1.x2 - e1.1.x1) + (e1.1.y2 - e1.1.y1)) as nat;
    let s2 = ((e2.1.x2 - e2.1.x1) + (e2.1.y2 - e2.1.y1)) as nat;
    lemma_stack_measure_push(rest, e1);
    lemma_stack_measure_push(rest.push(e1), e2);
    lemma_pow2_le(s1, (s - 5) as nat);
    lemma_pow2_le(s2, (s - 5) as nat);
    vstd::arithmetic::power2::lemma_pow2_adds((s - 5) as nat, 1);
    vstd::arithmetic::power2::lemma2_to64();
    vstd::arithmetic::power2::lemma_pow2_strictly_increases((s - 4) as nat, s);
}

} // verus!
