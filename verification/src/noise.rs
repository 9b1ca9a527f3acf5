//! Seeded pseudo-random scalar fields and their combination into smooth,
//! multi-octave coherent noise.
//!
//! Cell values are fixed-point fractions of the unit interval: a cell `c`
//! stands for the real value `c / NOISE_ONE`, so a field whose cells are all
//! below `NOISE_ONE` is a field of values in `[0, 1)`.

use vstd::prelude::*;

verus! {

use vstd::arithmetic::power2::pow2;
use vstd::bits::lemma_u64_shl_is_mul;
use vstd::arithmetic::power2::lemma2_to64;

use crate::grid::Vec2D;
use crate::rng::{rng_draw, seed_of_words, MapGenerator};

/// Fixed-point one: a noise cell `c` stands for the fraction `c / NOISE_ONE`
/// of the unit interval. Octave amplitudes and the persistence parameter use
/// the same scale.
pub const NOISE_ONE: u64 = 10000;

/// Cell `i` of the white-noise field of a 64-bit seed: draw `i` of the
/// seeded stream, reduced to the unit interval.
pub open spec fn white_cell(seed: u64, i: nat) -> u64 {
    rng_draw(seed, i) % NOISE_ONE
}

/// The first `n` cells of the white-noise field of a 64-bit seed.
pub open spec fn white_cells(seed: u64, n: nat) -> Seq<u64> {
    Seq::new(n, |i: int| white_cell(seed, i as nat))
}

/// Fixed-point linear interpolation between `a` and `b` at fraction
/// `num / den`: exactly `a` at 0, exactly `b` at 1.
pub open spec fn interp_spec(a: int, b: int, num: int, den: int) -> int {
    (a * (den - num) + b * num) / den
}

/// The lower sample-lattice point of coordinate `x` at sample period
/// `period`: the largest multiple of the period not above `x`.
pub open spec fn lattice_low(x: int, period: int) -> int {
    (x / period) * period
}

/// The wrap-around upper sample-lattice point of coordinate `x`: one period
/// past the lower point, wrapped toroidally into `[0, extent)`.
pub open spec fn lattice_wrap(x: int, period: int, extent: int) -> int {
    (lattice_low(x, period) + period) % extent
}

/// The smoothed value at `(x, y)`: bilinear interpolation of the four
/// lattice corner values of `base` (a `w` by `h` row-major field), with
/// wrap-around addressing at the edges, using the fractional offsets of
/// `(x, y)` within its lattice square.
pub open spec fn smooth_cell(base: Seq<u64>, w: int, h: int, period: int, x: int, y: int) -> u64 {
    let x0 = lattice_low(x, period);
    let x1 = lattice_wrap(x, period, w);
    let hb = x - x0;
    let y0 = lattice_low(y, period);
    let y1 = lattice_wrap(y, period, h);
    let vb = y - y0;
    let top = interp_spec(base[y0 * w + x0] as int, base[y0 * w + x1] as int, hb, period);
    let bottom = interp_spec(base[y1 * w + x0] as int, base[y1 * w + x1] as int, hb, period);
    interp_spec(top, bottom, vb, period) as u64
}

/// The whole smoothed field of `base` at the given sample period.
pub open spec fn smooth_cells(base: Seq<u64>, w: int, h: int, period: int) -> Seq<u64> {
    Seq::new((w * h) as nat, |i: int| smooth_cell(base, w, h, period, i % w, i / w))
}

/// The octave amplitude after `k` decay steps: one octave's weight starts at
/// `NOISE_ONE` (that is, 1) and is multiplied by the persistence fraction
/// before each octave is blended in, so octave `i` is weighted by
/// `amp_after(persistence, i + 1)`.
pub open spec fn amp_after(persistence: u64, k: nat) -> u64
    decreases k,
{
    if k == 0 {
        NOISE_ONE
    } else {
        ((amp_after(persistence, (k - 1) as nat) * persistence) / (NOISE_ONE as int)) as u64
    }
}

/// The sum of the first `k` octave amplitudes; the perlin field is divided
/// by this once, at the end, to normalize it back into the unit interval.
pub open spec fn total_amp(persistence: u64, k: nat) -> int
    decreases k,
{
    if k == 0 {
        0
    } else {
        total_amp(persistence, (k - 1) as nat) + amp_after(persistence, k)
    }
}

/// The running weighted sum of the first `k` octave layers of a perlin
/// field: octave `i` is the shared white-noise base smoothed at sample
/// period `2 ^ (oc - i)`, weighted by amplitude `amp_after(persistence, i + 1)`.
pub open spec fn perlin_accum(seed: u64, w: int, h: int, oc: nat, persistence: u64, k: nat) -> Seq<
    int,
>
    decreases k,
{
    if k == 0 {
        Seq::new((w * h) as nat, |i: int| 0)
    } else {
        let prev = perlin_accum(seed, w, h, oc, persistence, (k - 1) as nat);
        let layer = smooth_cells(
            white_cells(seed, (w * h) as nat),
            w,
            h,
            pow2((oc - k + 1) as nat) as int,
        );
        Seq::new((w * h) as nat, |i: int| prev[i] + layer[i] * amp_after(persistence, k))
    }
}

/// The finished perlin field: all `oc` octave layers accumulated and then
/// normalized once by the total amplitude. When every amplitude rounds to
/// zero the field is all zero rather than dividing by zero.
pub open spec fn perlin_cells(seed: u64, w: int, h: int, oc: nat, persistence: u64) -> Seq<u64> {
    let total = total_amp(persistence, oc);
    if total == 0 {
        Seq::new((w * h) as nat, |i: int| 0u64)
    } else {
        let acc = perlin_accum(seed, w, h, oc, persistence, oc);
        Seq::new((w * h) as nat, |i: int| (acc[i] / total) as u64)
    }
}

/// A seeded pseudo-random scalar field over a full grid.
pub struct Noise(Vec2D<u64>);

impl Noise {
    /// The field's width, as seen by specifications.
    pub closed spec fn spec_width(self) -> int {
        self.0.spec_width()
    }

    /// The field's height, as seen by specifications.
    pub closed spec fn spec_height(self) -> int {
        self.0.spec_height()
    }

    /// The cells, flat and row-major.
    pub closed spec fn cells(self) -> Seq<u64> {
        self.0.cells()
    }

    /// The cell at `(x, y)`.
    pub open spec fn at(self, x: int, y: int) -> u64 {
        self.cells()[y * self.spec_width() + x]
    }

    /// All `width * height` cells are present.
    pub open spec fn is_full(self) -> bool {
        self.cells().len() == self.spec_width() * self.spec_height()
    }

    /// Every cell is a unit-interval value: strictly below `NOISE_ONE`.
    pub open spec fn unit_bounded(self) -> bool {
        forall|i: int| 0 <= i < self.cells().len() ==> self.cells()[i] < NOISE_ONE
    }

    /// An all-zero field.
    fn new(width: usize, height: usize) -> (r: Noise)
        requires
            width * height <= usize::MAX,
        ensures
            r.spec_width() == width,
            r.spec_height() == height,
            r.is_full(),
            r.cells() =~= Seq::new((width * height) as nat, |i: int| 0u64),
    {
        let n = width * height;
        let mut vec: Vec<u64> = Vec::with_capacity(n);
        let mut i: usize = 0;
        while i < n
            invariant
                i <= n,
                vec@.len() == i,
                forall|j: int| 0 <= j < i ==> vec@[j] == 0u64,
            decreases n - i,
        {
            vec.push(0);
            i = i + 1;
        }
        proof {
            assert(vec@ =~= Seq::new((width * height) as nat, |j: int| 0u64));
        }
        Noise(Vec2D::from_vec(width, height, vec))
    }

    /// Fills every cell independently from the seeded stream: cell `i` is
    /// draw `i`, reduced to the unit interval. Same seed and dimensions
    /// always reproduce the identical field.
    pub fn new_white_from_seed(seed: &[usize], width: usize, height: usize) -> (r: Noise)
        requires
            width * height <= usize::MAX,
        ensures
            r.spec_width() == width,
            r.spec_height() == height,
            r.is_full(),
            r.cells() == white_cells(seed_of_words(seed@), (width * height) as nat),
            r.unit_bounded(),
    {
        let mut rng = MapGenerator::new_seed(seed);
        let n = width * height;
        let mut vec: Vec<u64> = Vec::with_capacity(n);
        let mut i: usize = 0;
        while i < n
            invariant
                rng.seed() == seed_of_words(seed@),
                rng.drawn() == i,
                i <= n,
                vec@.len() == i,
                forall|j: int| 0 <= j < i ==> vec@[j] == white_cell(rng.seed(), j as nat),
            decreases n - i,
        {
            let d = rng.next_u64();
            vec.push(d % NOISE_ONE);
            i = i + 1;
        }
        proof {
            assert(vec@ =~= white_cells(seed_of_words(seed@), (width * height) as nat));
        }
        Noise(Vec2D::from_vec(width, height, vec))
    }

    /// The smoothed field of `base` at sample period `2 ^ octave`: each cell
    /// is the bilinear interpolation of the four lattice corner values
    /// around it, with toroidal wrap-around at the edges.
    pub fn new_smooth_from_white(base: &Noise, octave: usize) -> (r: Noise)
        requires
            base.is_full(),
            base.unit_bounded(),
            octave < 64,
        ensures
            r.spec_width() == base.spec_width(),
            r.spec_height() == base.spec_height(),
            r.is_full(),
            r.cells() == smooth_cells(
                base.cells(),
                base.spec_width(),
                base.spec_height(),
                pow2(octave as nat) as int,
            ),
            r.unit_bounded(),
    {
        let width = base.width();
        let height = base.height();
        let n = base.len();
        let p: u64 = 1u64 << (octave as u64);
        proof {
            lemma2_to64();
            vstd::arithmetic::power2::lemma2_to64_rest();
            if octave < 63 {
                vstd::arithmetic::power2::lemma_pow2_strictly_increases(octave as nat, 63);
            }
            assert(pow2(octave as nat) <= u64::MAX);
            lemma_u64_shl_is_mul(1u64, octave as u64);
            vstd::arithmetic::power2::lemma_pow2_pos(octave as nat);
        }
        let ghost bw = base.spec_width();
        let ghost bh = base.spec_height();
        let ghost pd = p as int;
        let mut vec: Vec<u64> = Vec::with_capacity(n);
        let mut y: usize = 0;
        while y < height
            invariant
                base.is_full(),
                base.unit_bounded(),
                bw == base.spec_width(),
                bh == base.spec_height(),
                width == bw,
                height == bh,
                n == bw * bh,
                octave < 64,
                p == pow2(octave as nat),
                pd == p as int,
                1 <= p,
                y <= height,
                vec@.len() == y * bw,
                forall|j: int| 0 <= j < vec@.len()
                    ==> vec@[j] == smooth_cell(base.cells(), bw, bh, pd, j % bw, j / bw),
                forall|j: int| 0 <= j < vec@.len() ==> vec@[j] < NOISE_ONE,
            decreases height - y,
        {
            let mut x: usize = 0;
            while x < width
                invariant
                    base.is_full(),
                    base.unit_bounded(),
                    bw == base.spec_width(),
                    bh == base.spec_height(),
                    width == bw,
                    height == bh,
                    n == bw * bh,
                    p == pow2(octave as nat),
                    pd == p as int,
                    1 <= p,
                    y < height,
                    x <= width,
                    vec@.len() == y * bw + x,
                    forall|j: int| 0 <= j < vec@.len()
                        ==> vec@[j] == smooth_cell(base.cells(), bw, bh, pd, j % bw, j / bw),
                    forall|j: int| 0 <= j < vec@.len() ==> vec@[j] < NOISE_ONE,
                decreases width - x,
            {
                let xa = x as u64;
                let ya = y as u64;
                proof {
                    assert((xa / p) * p <= xa && xa - (xa / p) * p < p) by (nonlinear_arith)
                        requires
                            0 < p,
                    ;
                    assert((ya / p) * p <= ya && ya - (ya / p) * p < p) by (nonlinear_arith)
                        requires
                            0 < p,
                    ;
                }
                let x0 = (xa / p) * p;
                let y0 = (ya / p) * p;
                let x1 = (((x0 as u128) + (p as u128)) % (width as u128)) as u64;
                let y1 = (((y0 as u128) + (p as u128)) % (height as u128)) as u64;
                let hb = xa - x0;
                let vb = ya - y0;
                proof {
                    crate::grid::lemma_row_major_index_bound(x0 as int, y0 as int, bw, bh);
                    crate::grid::lemma_row_major_index_bound(x1 as int, y0 as int, bw, bh);
                    crate::grid::lemma_row_major_index_bound(x0 as int, y1 as int, bw, bh);
                    crate::grid::lemma_row_major_index_bound(x1 as int, y1 as int, bw, bh);
                }
                let c00 = base.read(x0 as usize, y0 as usize);
                let c10 = base.read(x1 as usize, y0 as usize);
                let c01 = base.read(x0 as usize, y1 as usize);
                let c11 = base.read(x1 as usize, y1 as usize);
                let top = Noise::interpolate(c00, c10, hb, p);
                let bottom = Noise::interpolate(c01, c11, hb, p);
                let v = Noise::interpolate(top, bottom, vb, p);
                vec.push(v);
                proof {
                    let j = y * bw + x;
                    vstd::arithmetic::div_mod::lemma_fundamental_div_mod_converse(
                        j,
                        bw,
                        y as int,
                        x as int,
                    );
                    assert(v == smooth_cell(base.cells(), bw, bh, pd, x as int, y as int));
                    assert(v < NOISE_ONE);
                }
                x = x + 1;
            }
            proof {
                assert(y * bw + bw == (y + 1) * bw) by (nonlinear_arith);
            }
            y = y + 1;
        }
        proof {
            assert(vec@.len() == bw * bh) by (nonlinear_arith)
                requires
                    vec@.len() == bh * bw,
            ;
            assert(vec@ =~= smooth_cells(base.cells(), bw, bh, pd));
        }
        Noise(Vec2D::from_vec(width, height, vec))
    }

    /// A white-noise field of the seed, smoothed at sample period
    /// `2 ^ octave`.
    pub fn new_smooth_from_seed(seed: &[usize], width: usize, height: usize, octave: usize) -> (r: Noise)
        requires
            width * height <= usize::MAX,
            octave < 64,
        ensures
            r.spec_width() == width,
            r.spec_height() == height,
            r.is_full(),
            r.cells() == smooth_cells(
                white_cells(seed_of_words(seed@), (width * height) as nat),
                width as int,
                height as int,
                pow2(octave as nat) as int,
            ),
            r.unit_bounded(),
    {
        let base = Noise::new_white_from_seed(seed, width, height);
        Noise::new_smooth_from_white(&base, octave)
    }

    /// Adds the other field to this one, cell by cell.
    pub fn add(&mut self, other: &Noise)
        requires
            old(self).is_full(),
            other.is_full(),
            old(self).spec_width() == other.spec_width(),
            old(self).spec_height() == other.spec_height(),
            forall|i: int| 0 <= i < old(self).cells().len()
                ==> old(self).cells()[i] + other.cells()[i] <= u64::MAX,
        ensures
            final(self).spec_width() == old(self).spec_width(),
            final(self).spec_height() == old(self).spec_height(),
            final(self).is_full(),
            final(self).cells().len() == old(self).cells().len(),
            forall|i: int| 0 <= i < old(self).cells().len()
                ==> final(self).cells()[i] == old(self).cells()[i] + other.cells()[i],
    {
        self.add_amp_scaled(other, 1)
    }

    /// Adds the other field to this one, cell by cell, weighted by a raw
    /// (unscaled) amplitude factor.
    pub fn add_amp(&mut self, other: &Noise, amplitude: u64)
        requires
            old(self).is_full(),
            other.is_full(),
            old(self).spec_width() == other.spec_width(),
            old(self).spec_height() == other.spec_height(),
            forall|i: int| 0 <= i < old(self).cells().len()
                ==> old(self).cells()[i] + other.cells()[i] * amplitude <= u64::MAX,
        ensures
            final(self).spec_width() == old(self).spec_width(),
            final(self).spec_height() == old(self).spec_height(),
            final(self).is_full(),
            final(self).cells().len() == old(self).cells().len(),
            forall|i: int| 0 <= i < old(self).cells().len()
                ==> final(self).cells()[i] == old(self).cells()[i] + other.cells()[i] * amplitude,
    {
        self.add_amp_scaled(other, amplitude)
    }

    /// The shared elementwise accumulation loop behind `add` and `add_amp`.
    fn add_amp_scaled(&mut self, other: &Noise, amplitude: u64)
        requires
            old(self).is_full(),
            other.is_full(),
            old(self).spec_width() == other.spec_width(),
            old(self).spec_height() == other.spec_height(),
            forall|i: int| 0 <= i < old(self).cells().len()
                ==> old(self).cells()[i] + other.cells()[i] * amplitude <= u64::MAX,
        ensures
            final(self).spec_width() == old(self).spec_width(),
            final(self).spec_height() == old(self).spec_height(),
            final(self).is_full(),
            final(self).cells().len() == old(self).cells().len(),
            forall|i: int| 0 <= i < old(self).cells().len()
                ==> final(self).cells()[i] == old(self).cells()[i] + other.cells()[i] * amplitude,
    {
        let ghost orig = *old(self);
        let n = self.0.len();
        proof {
            assert(other.cells().len() == orig.cells().len()) by (nonlinear_arith)
                requires
                    other.cells().len() == other.spec_width() * other.spec_height(),
                    orig.cells().len() == orig.spec_width() * orig.spec_height(),
                    other.spec_width() == orig.spec_width(),
                    other.spec_height() == orig.spec_height(),
            ;
        }
        let mut i: usize = 0;
        while i < n
            invariant
                i <= n,
                n == orig.cells().len(),
                other.cells().len() == n,
                self.0.spec_width() == orig.spec_width(),
                self.0.spec_height() == orig.spec_height(),
                self.0.cells().len() == n,
                forall|j: int| 0 <= j < n
                    ==> orig.cells()[j] + other.cells()[j] * amplitude <= u64::MAX,
                forall|j: int| 0 <= j < i
                    ==> self.0.cells()[j] == orig.cells()[j] + other.cells()[j] * amplitude,
                forall|j: int| i <= j < n ==> self.0.cells()[j] == orig.cells()[j],
            decreases n - i,
        {
            let c = self.0.read_flat(i);
            let o = other.0.read_flat(i);
            let v = c + o * amplitude;
            self.0.set_flat(i, v);
            i = i + 1;
        }
    }

    /// Divides every cell by the total accumulated amplitude, normalizing
    /// the field back into the unit interval.
    pub fn normalize_amp(&mut self, total_amplitude: u64)
        requires
            total_amplitude > 0,
            old(self).is_full(),
        ensures
            final(self).spec_width() == old(self).spec_width(),
            final(self).spec_height() == old(self).spec_height(),
            final(self).is_full(),
            final(self).cells().len() == old(self).cells().len(),
            forall|i: int| 0 <= i < old(self).cells().len()
                ==> final(self).cells()[i] == old(self).cells()[i] / total_amplitude,
    {
        let ghost orig = *old(self);
        let n = self.0.len();
        let mut i: usize = 0;
        while i < n
            invariant
                i <= n,
                n == orig.cells().len(),
                total_amplitude > 0,
                self.0.spec_width() == orig.spec_width(),
                self.0.spec_height() == orig.spec_height(),
                self.0.cells().len() == n,
                forall|j: int| 0 <= j < i
                    ==> self.0.cells()[j] == orig.cells()[j] / total_amplitude,
                forall|j: int| i <= j < n ==> self.0.cells()[j] == orig.cells()[j],
            decreases n - i,
        {
            let c = self.0.read_flat(i);
            self.0.set_flat(i, c / total_amplitude);
            i = i + 1;
        }
    }

    /// The multi-octave coherent-noise field: one shared white-noise base,
    /// smoothed at decreasing sample periods, each layer weighted by a
    /// persistence-decayed amplitude, accumulated and normalized once at the
    /// end so every cell lands back in the unit interval.
    pub fn new_perlin_from_seed(
        seed: &[usize],
        width: usize,
        height: usize,
        octave_count: usize,
        persistence: u64,
    ) -> (r: Noise)
        requires
            width * height <= usize::MAX,
            octave_count < 64,
            persistence <= NOISE_ONE,
        ensures
            r.spec_width() == width,
            r.spec_height() == height,
            r.is_full(),
            r.cells() == perlin_cells(
                seed_of_words(seed@),
                width as int,
                height as int,
                octave_count as nat,
                persistence,
            ),
            r.unit_bounded(),
    {
        let ghost sd = seed_of_words(seed@);
        let ghost w = width as int;
        let ghost h = height as int;
        let ghost oc = octave_count as nat;
        let white = Noise::new_white_from_seed(seed, width, height);
        let mut acc = Noise::new(width, height);
        let mut amplitude: u64 = NOISE_ONE;
        let mut total: u64 = 0;
        let mut octave: usize = 0;
        while octave < octave_count
            invariant
                octave <= octave_count,
                octave_count < 64,
                persistence <= NOISE_ONE,
                sd == seed_of_words(seed@),
                w == width as int,
                h == height as int,
                oc == octave_count as nat,
                white.is_full(),
                white.unit_bounded(),
                white.spec_width() == w,
                white.spec_height() == h,
                white.cells() == white_cells(sd, (w * h) as nat),
                acc.is_full(),
                acc.spec_width() == w,
                acc.spec_height() == h,
                amplitude == amp_after(persistence, octave as nat),
                amplitude <= NOISE_ONE,
                total == total_amp(persistence, octave as nat),
                total <= octave * NOISE_ONE,
                forall|i: int| 0 <= i < acc.cells().len()
                    ==> acc.cells()[i]
                        == perlin_accum(sd, w, h, oc, persistence, octave as nat)[i],
                forall|i: int| 0 <= i < acc.cells().len()
                    ==> acc.cells()[i] <= (NOISE_ONE - 1) * total,
            decreases octave_count - octave,
        {
            proof {
                assert(amplitude * persistence <= NOISE_ONE * NOISE_ONE) by (nonlinear_arith)
                    requires
                        amplitude <= NOISE_ONE,
                        persistence <= NOISE_ONE,
                ;
                assert((amplitude * persistence) as u64 / NOISE_ONE <= NOISE_ONE)
                    by (nonlinear_arith)
                    requires
                        amplitude * persistence <= NOISE_ONE * NOISE_ONE,
                        0 <= amplitude * persistence,
                ;
            }
            amplitude = amplitude * persistence / NOISE_ONE;
            total = total + amplitude;
            let layer = Noise::new_smooth_from_white(&white, octave_count - octave);
            proof {
                let k: nat = (octave + 1) as nat;
                let prev = perlin_accum(sd, w, h, oc, persistence, octave as nat);
                let layer_spec = smooth_cells(
                    white_cells(sd, (w * h) as nat),
                    w,
                    h,
                    pow2((oc - k + 1) as nat) as int,
                );
                assert(layer.cells() == layer_spec);
                assert forall|i: int| 0 <= i < acc.cells().len() implies acc.cells()[i]
                    + layer.cells()[i] * amplitude <= u64::MAX by {
                    assert(layer.cells()[i] * amplitude <= (NOISE_ONE - 1) * NOISE_ONE)
                        by (nonlinear_arith)
                        requires
                            layer.cells()[i] <= NOISE_ONE - 1,
                            amplitude <= NOISE_ONE,
                    ;
                }
            }
            acc.add_amp(&layer, amplitude);
            proof {
                let k: nat = (octave + 1) as nat;
                let cur = perlin_accum(sd, w, h, oc, persistence, k);
                assert forall|i: int| 0 <= i < acc.cells().len() implies acc.cells()[i]
                    == cur[i] by {
                    assert(cur[i] == perlin_accum(sd, w, h, oc, persistence, octave as nat)[i]
                        + smooth_cells(
                            white_cells(sd, (w * h) as nat),
                            w,
                            h,
                            pow2((oc - k + 1) as nat) as int,
                        )[i] * amp_after(persistence, k));
                }
                assert forall|i: int| 0 <= i < acc.cells().len() implies acc.cells()[i] <= (
                NOISE_ONE - 1) * (total as int) by {
                    assert(
                        smooth_cells(
                            white_cells(sd, (w * h) as nat),
                            w,
                            h,
                            pow2((oc - k + 1) as nat) as int,
                        )[i] * amplitude <= (NOISE_ONE - 1) * amplitude)
                        by (nonlinear_arith)
                        requires
                            smooth_cells(
                                white_cells(sd, (w * h) as nat),
                                w,
                                h,
                                pow2((oc - k + 1) as nat) as int,
                            )[i] <= NOISE_ONE - 1,
                            0 <= amplitude,
                    ;
                }
            }
            octave = octave + 1;
        }
        if total == 0 {
            let r = Noise::new(width, height);
            proof {
                assert(r.cells() =~= perlin_cells(sd, w, h, oc, persistence));
            }
            r
        } else {
            proof {
                assert forall|i: int| 0 <= i < acc.cells().len() implies (acc.cells()[i] as int)
                    / (total as int) <= NOISE_ONE - 1 by {
                    assert((acc.cells()[i] as int) / (total as int) <= NOISE_ONE - 1)
                        by (nonlinear_arith)
                        requires
                            0 < total,
                            0 <= acc.cells()[i],
                            acc.cells()[i] <= (NOISE_ONE - 1) * (total as int),
                    ;
                }
            }
            acc.normalize_amp(total);
            proof {
                assert(acc.cells() =~= perlin_cells(sd, w, h, oc, persistence));
            }
            acc
        }
    }

    /// Fixed-point linear interpolation between unit-interval values `x0`
    /// and `x1` at fraction `num / den`.
    pub fn interpolate(x0: u64, x1: u64, num: u64, den: u64) -> (r: u64)
        requires
            0 < den,
            num <= den,
            x0 <= NOISE_ONE,
            x1 <= NOISE_ONE,
        ensures
            r == interp_spec(x0 as int, x1 as int, num as int, den as int),
            r <= x0 || r <= x1,
    {
        proof {
            lemma_interp_in_range(x0 as int, x1 as int, num as int, den as int);
            assert(x0 * (den - num) + x1 * num <= NOISE_ONE * den + NOISE_ONE * den)
                by (nonlinear_arith)
                requires
                    num <= den,
                    x0 <= NOISE_ONE,
                    x1 <= NOISE_ONE,
            ;
        }
        let t = (x0 as u128) * ((den - num) as u128) + (x1 as u128) * (num as u128);
        let q = t / (den as u128);
        q as u64
    }

    /// The field's width.
    pub fn width(&self) -> (r: usize)
        ensures
            r == self.spec_width(),
    {
        self.0.width()
    }

    /// The field's height.
    pub fn height(&self) -> (r: usize)
        ensures
            r == self.spec_height(),
    {
        self.0.height()
    }

    /// How many cells the field has.
    pub fn len(&self) -> (r: usize)
        ensures
            r == self.cells().len(),
    {
        self.0.len()
    }

    /// The cell at `(x, y)`.
    pub fn read(&self, x: usize, y: usize) -> (r: u64)
        requires
            x < self.spec_width(),
            y < self.spec_height(),
            self.is_full(),
        ensures
            r == self.at(x as int, y as int),
    {
        self.0.read(x, y)
    }

    /// The cell at a flat row-major index.
    pub fn read_flat(&self, i: usize) -> (r: u64)
        requires
            self.is_full(),
            i < self.cells().len(),
        ensures
            r == self.cells()[i as int],
    {
        self.0.read_flat(i)
    }
}

/// Determinism: generating a perlin field twice from identical arguments
/// yields identical output, cell for cell, because the whole field is a
/// function of the seed and the parameters alone.
pub proof fn lemma_perlin_deterministic(
    a: Noise,
    b: Noise,
    seed: Seq<usize>,
    w: int,
    h: int,
    oc: nat,
    persistence: u64,
)
    requires
        a.cells() == perlin_cells(seed_of_words(seed), w, h, oc, persistence),
        b.cells() == perlin_cells(seed_of_words(seed), w, h, oc, persistence),
    ensures
        a.cells() == b.cells(),
{
}

/// Interpolation between two values never leaves the interval they span:
/// the result is at least the smaller and at most the larger of the two.
pub proof fn lemma_interp_in_range(a: int, b: int, num: int, den: int)
    requires
        0 < den,
        0 <= num <= den,
        0 <= a,
        0 <= b,
    ensures
        0 <= interp_spec(a, b, num, den),
        interp_spec(a, b, num, den) <= a || interp_spec(a, b, num, den) <= b,
        a <= b ==> interp_spec(a, b, num, den) <= b,
        b <= a ==> interp_spec(a, b, num, den) <= a,
{
    assert(a <= b ==> a * den <= a * (den - num) + b * num <= b * den) by (nonlinear_arith)
        requires
            0 < den,
            0 <= num <= den,
            0 <= a,
            0 <= b,
    ;
    assert(b <= a ==> b * den <= a * (den - num) + b * num <= a * den) by (nonlinear_arith)
        requires
            0 < den,
            0 <= num <= den,
            0 <= a,
            0 <= b,
    ;
    let t = a * (den - num) + b * num;
    assert(0 <= a * (den - num) + b * num) by (nonlinear_arith)
        requires
            0 <= num <= den,
            0 <= a,
            0 <= b,
    ;
    assert(0 <= (a * (den - num) + b * num) / den) by (nonlinear_arith)
        requires
            0 < den,
            0 <= a * (den - num) + b * num,
    ;
    if a <= b {
        assert((a * (den - num) + b * num) / den <= b) by (nonlinear_arith)
            requires
                0 < den,
                0 <= a * (den - num) + b * num,
                0 <= b,
                a * (den - num) + b * num <= b * den,
        ;
    } else {
        assert((a * (den - num) + b * num) / den <= a) by (nonlinear_arith)
            requires
                0 < den,
                0 <= a * (den - num) + b * num,
                0 <= a,
                a * (den - num) + b * num <= a * den,
        ;
    }
}

} // verus!
