//! A fixed-size two-dimensional container stored row-major in a flat vector,
//! with bounds-checked accessors, and the conversions between flat indices
//! and `(x, y)` coordinates.

use vstd::prelude::*;

verus! {

/// Converts a flat row-major index into `(x, y)` coordinates for a row width.
pub fn itoc(i: usize, width: usize) -> (r: (usize, usize))
    requires
        width > 0,
    ensures
        r.0 == i as int % width as int,
        r.1 == i as int / width as int,
{
    (i % width, i / width)
}

/// Converts `(x, y)` coordinates into a flat row-major index for a row width.
pub fn ctoi(x: usize, y: usize, width: usize) -> (r: usize)
    requires
        y * width + x <= usize::MAX,
    ensures
        r == y * width + x,
{
    y * width + x
}

/// A `width` by `height` grid of `T`, addressed as `(x, y)` with
/// `0 <= x < width` and `0 <= y < height`, stored row-major: the cell at
/// `(x, y)` is element `y * width + x` of the flat vector.
///
/// A grid may be built incrementally: `new` starts it empty and `push`
/// appends cells in row-major order until all `width * height` are present,
/// at which point the grid is full (`is_full`).
pub struct Vec2D<T> {
    width: usize,
    height: usize,
    vec: Vec<T>,
}

impl<T> Vec2D<T> {
    /// The declared width, as seen by specifications.
    pub closed spec fn spec_width(self) -> int {
        self.width as int
    }

    /// The declared height, as seen by specifications.
    pub closed spec fn spec_height(self) -> int {
        self.height as int
    }

    /// The cells stored so far, flat and row-major.
    pub closed spec fn cells(self) -> Seq<T> {
        self.vec@
    }

    /// The cell at `(x, y)`; meaningful when the grid is full and the
    /// coordinates are in range.
    pub open spec fn at(self, x: int, y: int) -> T {
        self.cells()[y * self.spec_width() + x]
    }

    /// A full grid: every one of the `width * height` cells is present.
    pub open spec fn is_full(self) -> bool {
        self.cells().len() == self.spec_width() * self.spec_height()
    }

    /// An empty grid with the given dimensions, ready to be filled by `push`.
    pub fn new(width: usize, height: usize) -> (r: Vec2D<T>)
        requires
            width * height <= usize::MAX,
        ensures
            r.spec_width() == width,
            r.spec_height() == height,
            r.cells() =~= Seq::<T>::empty(),
    {
        Vec2D { width, height, vec: Vec::with_capacity(width * height) }
    }

    /// Wraps an existing flat vector of exactly `width * height` elements.
    pub fn from_vec(width: usize, height: usize, vec: Vec<T>) -> (r: Vec2D<T>)
        requires
            vec@.len() == width * height,
        ensures
            r.spec_width() == width,
            r.spec_height() == height,
            r.cells() == vec@,
            r.is_full(),
    {
        Vec2D { width, height, vec }
    }

    /// How many cells are stored so far.
    pub fn len(&self) -> (r: usize)
        ensures
            r == self.cells().len(),
    {
        self.vec.len()
    }

    /// The declared width.
    pub fn width(&self) -> (r: usize)
        ensures
            r == self.spec_width(),
    {
        self.width
    }

    /// The declared height.
    pub fn height(&self) -> (r: usize)
        ensures
            r == self.spec_height(),
    {
        self.height
    }

    /// Appends the next cell in row-major order.
    pub fn push(&mut self, value: T)
        requires
            old(self).cells().len() < old(self).spec_width() * old(self).spec_height(),
        ensures
            final(self).spec_width() == old(self).spec_width(),
            final(self).spec_height() == old(self).spec_height(),
            final(self).cells() == old(self).cells().push(value),
    {
        self.vec.push(value);
    }

    /// The cell at `(x, y)`, or `None` when the coordinates are out of range
    /// or the cell has not been stored yet.
    pub fn get(&self, x: usize, y: usize) -> (r: Option<&T>)
        ensures
            r matches Some(t) ==> x < self.spec_width() && y < self.spec_height()
                && y * self.spec_width() + x < self.cells().len()
                && *t == self.at(x as int, y as int),
            r is None ==> x >= self.spec_width() || y >= self.spec_height()
                || y * self.spec_width() + x >= self.cells().len(),
    {
        let n = self.vec.len();
        if x < self.width && y < self.height {
            match y.checked_mul(self.width) {
                Some(base) => match base.checked_add(x) {
                    Some(i) => self.vec.get(i),
                    None => None,
                },
                None => None,
            }
        } else {
            None
        }
    }

    /// Replaces the cell at `(x, y)`.
    pub fn set(&mut self, x: usize, y: usize, value: T)
        requires
            x < old(self).spec_width(),
            y < old(self).spec_height(),
            old(self).is_full(),
        ensures
            final(self).spec_width() == old(self).spec_width(),
            final(self).spec_height() == old(self).spec_height(),
            final(self).is_full(),
            final(self).cells()
                == old(self).cells().update(y * old(self).spec_width() + x, value),
    {
        let n = self.vec.len();
        proof {
            lemma_row_major_index_bound(x as int, y as int, self.spec_width(), self.spec_height());
        }
        let i = y * self.width + x;
        self.vec.set(i, value);
    }
}

impl<T> Vec2D<T> {
    /// Replaces the cell at flat row-major index `i`.
    pub fn set_flat(&mut self, i: usize, value: T)
        requires
            i < old(self).cells().len(),
        ensures
            final(self).spec_width() == old(self).spec_width(),
            final(self).spec_height() == old(self).spec_height(),
            final(self).cells() == old(self).cells().update(i as int, value),
    {
        self.vec.set(i, value);
    }
}

impl<T: Copy> Vec2D<T> {
    /// The cell at flat row-major index `i`, by value.
    pub fn read_flat(&self, i: usize) -> (r: T)
        requires
            i < self.cells().len(),
        ensures
            r == self.cells()[i as int],
    {
        self.vec[i]
    }

    /// The cell at `(x, y)`, by value.
    pub fn read(&self, x: usize, y: usize) -> (r: T)
        requires
            x < self.spec_width(),
            y < self.spec_height(),
            self.is_full(),
        ensures
            r == self.at(x as int, y as int),
    {
        let n = self.vec.len();
        proof {
            lemma_row_major_index_bound(x as int, y as int, self.spec_width(), self.spec_height());
        }
        self.vec[y * self.width + x]
    }
}

/// A grid's declared dimensions are `usize` values, so they are bounded.
pub broadcast proof fn lemma_dims_bounded<T>(g: Vec2D<T>)
    ensures
        0 <= #[trigger] g.spec_width() <= usize::MAX,
        0 <= #[trigger] g.spec_height() <= usize::MAX,
{
}

/// In-range coordinates flatten to an index below `width * height`, so in
/// particular the row-major arithmetic cannot overflow a `usize` once the
/// full grid fits in one.
pub proof fn lemma_row_major_index_bound(x: int, y: int, width: int, height: int)
    requires
        0 <= x < width,
        0 <= y < height,
    ensures
        0 <= y * width + x < width * height,
{
    assert(y * width + x < width * height) by (nonlinear_arith)
        requires
            0 <= x < width,
            0 <= y < height,
    ;
    assert(y * width + x >= 0) by (nonlinear_arith)
        requires
            0 <= x,
            0 <= y,
            0 < width,
    ;
}

} // verus!
