//! Per-edge collision flags for a tile map: one flag grid for the vertical
//! edges between horizontally adjacent cells, one for the horizontal edges
//! between vertically adjacent cells.

use vstd::prelude::*;

verus! {

use crate::grid::Vec2D;

broadcast use crate::grid::lemma_dims_bounded;

/// Collision flags for a `width` by `height` tile map. The flag between
/// cell `(x, y)` and its right neighbor sits at `(x + 1, y)` of the
/// left-right grid; the flag between `(x, y)` and the cell below sits at
/// `(x, y + 1)` of the top-bottom grid, so each grid carries one extra
/// column or row for the outer edges.
pub struct CollisionLayer {
    left_right: Vec2D<bool>,
    top_bottom: Vec2D<bool>,
}

impl CollisionLayer {
    /// The map width the layer was built for.
    pub closed spec fn spec_width(self) -> int {
        self.top_bottom.spec_width()
    }

    /// The map height the layer was built for.
    pub closed spec fn spec_height(self) -> int {
        self.left_right.spec_height()
    }

    /// A layer whose grids are full and consistently sized.
    pub closed spec fn wf(self) -> bool {
        &&& self.left_right.spec_width() == self.spec_width() + 1
        &&& self.left_right.spec_height() == self.spec_height()
        &&& self.top_bottom.spec_width() == self.spec_width()
        &&& self.top_bottom.spec_height() == self.spec_height() + 1
        &&& self.left_right.is_full()
        &&& self.top_bottom.is_full()
    }

    /// The flag on the vertical edge at `(x, y)` of the left-right grid.
    pub closed spec fn lr_at(self, x: int, y: int) -> bool {
        self.left_right.at(x, y)
    }

    /// The flag on the horizontal edge at `(x, y)` of the top-bottom grid.
    pub closed spec fn tb_at(self, x: int, y: int) -> bool {
        self.top_bottom.at(x, y)
    }

    /// A collision layer for a `width` by `height` map with every flag
    /// clear.
    pub fn new(width: usize, height: usize) -> (r: CollisionLayer)
        requires
            (width + 1) * height <= usize::MAX,
            width * (height + 1) <= usize::MAX,
            width < usize::MAX,
            height < usize::MAX,
        ensures
            r.wf(),
            r.spec_width() == width,
            r.spec_height() == height,
            forall|x: int, y: int| 0 <= x < width + 1 && 0 <= y < height ==> !r.lr_at(x, y),
            forall|x: int, y: int| 0 <= x < width && 0 <= y < height + 1 ==> !r.tb_at(x, y),
    {
        let left_right = filled_false(width + 1, height);
        let top_bottom = filled_false(width, height + 1);
        proof {
            assert forall|x: int, y: int|
                0 <= x < width + 1 && 0 <= y < height implies !left_right.at(x, y) by {
                crate::grid::lemma_row_major_index_bound(x, y, width + 1, height as int);
            }
            assert forall|x: int, y: int|
                0 <= x < width && 0 <= y < height + 1 implies !top_bottom.at(x, y) by {
                crate::grid::lemma_row_major_index_bound(x, y, width as int, height + 1);
            }
        }
        CollisionLayer { left_right, top_bottom }
    }

    /// Blocks walking right out of cell `(x, y)`.
    pub fn set_collision_right(&mut self, x: usize, y: usize)
        requires
            old(self).wf(),
            x < old(self).spec_width(),
            y < old(self).spec_height(),
        ensures
            final(self).wf(),
            final(self).spec_width() == old(self).spec_width(),
            final(self).spec_height() == old(self).spec_height(),
            final(self).lr_at(x + 1, y as int),
            forall|a: int, b: int|
                0 <= a < old(self).spec_width() + 1 && 0 <= b < old(self).spec_height() && !(a == x
                    + 1 && b == y) ==> final(self).lr_at(a, b) == old(self).lr_at(a, b),
            forall|a: int, b: int| final(self).tb_at(a, b) == old(self).tb_at(a, b),
    {
        self.set_lr(x + 1, y);
    }

    /// Blocks walking left out of cell `(x, y)`.
    pub fn set_collision_left(&mut self, x: usize, y: usize)
        requires
            old(self).wf(),
            x < old(self).spec_width(),
            y < old(self).spec_height(),
        ensures
            final(self).wf(),
            final(self).spec_width() == old(self).spec_width(),
            final(self).spec_height() == old(self).spec_height(),
            final(self).lr_at(x as int, y as int),
            forall|a: int, b: int|
                0 <= a < old(self).spec_width() + 1 && 0 <= b < old(self).spec_height() && !(a == x
                    && b == y) ==> final(self).lr_at(a, b) == old(self).lr_at(a, b),
            forall|a: int, b: int| final(self).tb_at(a, b) == old(self).tb_at(a, b),
    {
        self.set_lr(x, y);
    }

    /// Blocks walking up out of cell `(x, y)`.
    pub fn set_collision_top(&mut self, x: usize, y: usize)
        requires
            old(self).wf(),
            x < old(self).spec_width(),
            y < old(self).spec_height(),
        ensures
            final(self).wf(),
            final(self).spec_width() == old(self).spec_width(),
            final(self).spec_height() == old(self).spec_height(),
            final(self).tb_at(x as int, y as int),
            forall|a: int, b: int|
                0 <= a < old(self).spec_width() && 0 <= b < old(self).spec_height() + 1 && !(a == x
                    && b == y) ==> final(self).tb_at(a, b) == old(self).tb_at(a, b),
            forall|a: int, b: int| final(self).lr_at(a, b) == old(self).lr_at(a, b),
    {
        self.set_tb(x, y);
    }

    /// Blocks walking down out of cell `(x, y)`.
    pub fn set_collision_bottom(&mut self, x: usize, y: usize)
        requires
            old(self).wf(),
            x < old(self).spec_width(),
            y < old(self).spec_height(),
        ensures
            final(self).wf(),
            final(self).spec_width() == old(self).spec_width(),
            final(self).spec_height() == old(self).spec_height(),
            final(self).tb_at(x as int, y + 1),
            forall|a: int, b: int|
                0 <= a < old(self).spec_width() && 0 <= b < old(self).spec_height() + 1 && !(a == x
                    && b == y + 1) ==> final(self).tb_at(a, b) == old(self).tb_at(a, b),
            forall|a: int, b: int| final(self).lr_at(a, b) == old(self).lr_at(a, b),
    {
        self.set_tb(x, y + 1);
    }

    /// The flag on the edge crossed when walking right out of `(x, y)`.
    pub fn can_walk_right(&self, x: usize, y: usize) -> (r: bool)
        requires
            self.wf(),
            x < self.spec_width(),
            y < self.spec_height(),
        ensures
            r == self.lr_at(x + 1, y as int),
    {
        proof {
            crate::grid::lemma_row_major_index_bound(
                x + 1,
                y as int,
                self.spec_width() + 1,
                self.spec_height(),
            );
        }
        self.left_right.read(x + 1, y)
    }

    /// The flag on the edge crossed when walking left out of `(x, y)`.
    pub fn can_walk_left(&self, x: usize, y: usize) -> (r: bool)
        requires
            self.wf(),
            x < self.spec_width(),
            y < self.spec_height(),
        ensures
            r == self.lr_at(x as int, y as int),
    {
        proof {
            crate::grid::lemma_row_major_index_bound(
                x as int,
                y as int,
                self.spec_width() + 1,
                self.spec_height(),
            );
        }
        self.left_right.read(x, y)
    }

    /// The flag on the edge crossed when walking up out of `(x, y)`.
    pub fn can_walk_up(&self, x: usize, y: usize) -> (r: bool)
        requires
            self.wf(),
            x < self.spec_width(),
            y < self.spec_height(),
        ensures
            r == self.tb_at(x as int, y as int),
    {
        proof {
            crate::grid::lemma_row_major_index_bound(
                x as int,
                y as int,
                self.spec_width(),
                self.spec_height() + 1,
            );
        }
        self.top_bottom.read(x, y)
    }

    /// The flag on the edge crossed when walking down out of `(x, y)`.
    pub fn can_walk_down(&self, x: usize, y: usize) -> (r: bool)
        requires
            self.wf(),
            x < self.spec_width(),
            y < self.spec_height(),
        ensures
            r == self.tb_at(x as int, y + 1),
    {
        proof {
            crate::grid::lemma_row_major_index_bound(
                x as int,
                y + 1,
                self.spec_width(),
                self.spec_height() + 1,
            );
        }
        self.top_bottom.read(x, y + 1)
    }

    /// The map width the layer was built for.
    pub fn width(&self) -> (r: usize)
        requires
            self.wf(),
        ensures
            r == self.spec_width(),
    {
        self.top_bottom.width()
    }

    /// The map height the layer was built for.
    pub fn height(&self) -> (r: usize)
        requires
            self.wf(),
        ensures
            r == self.spec_height(),
    {
        self.left_right.height()
    }

    /// Sets one flag of the left-right grid.
    fn set_lr(&mut self, x: usize, y: usize)
        requires
            old(self).wf(),
            x < old(self).spec_width() + 1,
            y < old(self).spec_height(),
        ensures
            final(self).wf(),
            final(self).spec_width() == old(self).spec_width(),
            final(self).spec_height() == old(self).spec_height(),
            final(self).lr_at(x as int, y as int),
            forall|a: int, b: int|
                0 <= a < old(self).spec_width() + 1 && 0 <= b < old(self).spec_height() && !(a == x
                    && b == y) ==> final(self).lr_at(a, b) == old(self).lr_at(a, b),
            forall|a: int, b: int| final(self).tb_at(a, b) == old(self).tb_at(a, b),
    {
        let ghost w1 = self.spec_width() + 1;
        let ghost h = self.spec_height();
        proof {
            crate::grid::lemma_row_major_index_bound(x as int, y as int, w1, h);
        }
        self.left_right.set(x, y, true);
        proof {
            assert forall|a: int, b: int|
                0 <= a < w1 && 0 <= b < h && !(a == x && b == y) implies self.lr_at(a, b) == old(
                self,
            ).lr_at(a, b) by {
                crate::grid::lemma_row_major_index_bound(a, b, w1, h);
                if b * w1 + a == y * w1 + x {
                    vstd::arithmetic::div_mod::lemma_fundamental_div_mod_converse(
                        b * w1 + a,
                        w1,
                        b,
                        a,
                    );
                    vstd::arithmetic::div_mod::lemma_fundamental_div_mod_converse(
                        y * w1 + x,
                        w1,
                        y as int,
                        x as int,
                    );
                }
            }
        }
    }

    /// Sets one flag of the top-bottom grid.
    fn set_tb(&mut self, x: usize, y: usize)
        requires
            old(self).wf(),
            x < old(self).spec_width(),
            y < old(self).spec_height() + 1,
        ensures
            final(self).wf(),
            final(self).spec_width() == old(self).spec_width(),
            final(self).spec_height() == old(self).spec_height(),
            final(self).tb_at(x as int, y as int),
            forall|a: int, b: int|
                0 <= a < old(self).spec_width() && 0 <= b < old(self).spec_height() + 1 && !(a == x
                    && b == y) ==> final(self).tb_at(a, b) == old(self).tb_at(a, b),
            forall|a: int, b: int| final(self).lr_at(a, b) == old(self).lr_at(a, b),
    {
        let ghost w = self.spec_width();
        let ghost h1 = self.spec_height() + 1;
        proof {
            crate::grid::lemma_row_major_index_bound(x as int, y as int, w, h1);
        }
        self.top_bottom.set(x, y, true);
        proof {
            assert forall|a: int, b: int|
                0 <= a < w && 0 <= b < h1 && !(a == x && b == y) implies self.tb_at(a, b) == old(
                self,
            ).tb_at(a, b) by {
                crate::grid::lemma_row_major_index_bound(a, b, w, h1);
                if b * w + a == y * w + x {
                    vstd::arithmetic::div_mod::lemma_fundamental_div_mod_converse(
                        b * w + a,
                        w,
                        b,
                        a,
                    );
                    vstd::arithmetic::div_mod::lemma_fundamental_div_mod_converse(
                        y * w + x,
                        w,
                        y as int,
                        x as int,
                    );
                }
            }
        }
    }
}

/// A full `width` by `height` grid of cleared flags.
fn filled_false(width: usize, height: usize) -> (r: Vec2D<bool>)
    requires
        width * height <= usize::MAX,
    ensures
        r.spec_width() == width,
        r.spec_height() == height,
        r.is_full(),
        forall|i: int| 0 <= i < r.cells().len() ==> !r.cells()[i],
{
    let n = width * height;
    let mut vec: Vec<bool> = Vec::with_capacity(n);
    let mut i: usize = 0;
    while i < n
        invariant
            i <= n,
            vec@.len() == i,
            forall|j: int| 0 <= j < i ==> !vec@[j],
        decreases n - i,
    {
        vec.push(false);
        i = i + 1;
    }
    Vec2D::from_vec(width, height, vec)
}

} // verus!
