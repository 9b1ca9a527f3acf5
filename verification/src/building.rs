//! A rectangular building stamped onto the map: a block of building tiles
//! with collision flags closed along its whole border.

use vstd::prelude::*;

verus! {

use crate::collision::CollisionLayer;
use crate::grid::Vec2D;
use crate::terrain::TileId;

/// A `width` by `height` building whose lower corner sits at map position
/// `(x, y)`: all of its tiles are building tiles, and its border is closed
/// to walking in every direction.
pub struct Building {
    x: u32,
    y: u32,
    tiles: Vec2D<TileId>,
    collision: CollisionLayer,
}

impl Building {
    /// The building's map position, horizontal part.
    pub closed spec fn spec_x(self) -> u32 {
        self.x
    }

    /// The building's map position, vertical part.
    pub closed spec fn spec_y(self) -> u32 {
        self.y
    }

    /// The building's tile block.
    pub closed spec fn spec_tiles(self) -> Vec2D<TileId> {
        self.tiles
    }

    /// The building's collision flags.
    pub closed spec fn spec_collision(self) -> CollisionLayer {
        self.collision
    }

    /// A building at `(x, y)` of the given size: every tile a building
    /// tile, and collision flags set along the whole border — the top and
    /// bottom edges of every column, the left and right edges of every row
    /// — and nowhere else.
    pub fn new(x: u32, y: u32, width: usize, height: usize) -> (r: Building)
        requires
            1 <= width < usize::MAX,
            1 <= height < usize::MAX,
            (width + 1) * height <= usize::MAX,
            width * (height + 1) <= usize::MAX,
        ensures
            r.spec_x() == x,
            r.spec_y() == y,
            r.spec_tiles().spec_width() == width,
            r.spec_tiles().spec_height() == height,
            r.spec_tiles().is_full(),
            forall|i: int| 0 <= i < r.spec_tiles().cells().len()
                ==> r.spec_tiles().cells()[i] == TileId::Building,
            r.spec_collision().wf(),
            r.spec_collision().spec_width() == width,
            r.spec_collision().spec_height() == height,
            forall|a: int, b: int| 0 <= a < width && 0 <= b < height + 1
                ==> r.spec_collision().tb_at(a, b) == (b == 0 || b == height),
            forall|a: int, b: int| 0 <= a < width + 1 && 0 <= b < height
                ==> r.spec_collision().lr_at(a, b) == (a == 0 || a == width),
    {
        proof {
            assert(width * height <= width * (height + 1)) by (nonlinear_arith)
                requires
                    width >= 0,
            ;
        }
        let n = width * height;
        let mut vec: Vec<TileId> = Vec::with_capacity(n);
        let mut i: usize = 0;
        while i < n
            invariant
                i <= n,
                vec@.len() == i,
                forall|j: int| 0 <= j < i ==> vec@[j] == TileId::Building,
            decreases n - i,
        {
            vec.push(TileId::Building);
            i = i + 1;
        }
        let tiles = Vec2D::from_vec(width, height, vec);
        let mut collision = CollisionLayer::new(width, height);
        let mut xx: usize = 0;
        while xx < width
            invariant
                collision.wf(),
                collision.spec_width() == width,
                collision.spec_height() == height,
                1 <= height,
                xx <= width,
                forall|a: int, b: int| 0 <= a < width && 0 <= b < height + 1
                    ==> collision.tb_at(a, b) == (a < xx && (b == 0 || b == height)),
                forall|a: int, b: int| 0 <= a < width + 1 && 0 <= b < height
                    ==> !collision.lr_at(a, b),
            decreases width - xx,
        {
            collision.set_collision_top(xx, 0);
            collision.set_collision_bottom(xx, height - 1);
            xx = xx + 1;
        }
        let mut yy: usize = 0;
        while yy < height
            invariant
                collision.wf(),
                collision.spec_width() == width,
                collision.spec_height() == height,
                1 <= width,
                yy <= height,
                forall|a: int, b: int| 0 <= a < width && 0 <= b < height + 1
                    ==> collision.tb_at(a, b) == (b == 0 || b == height),
                forall|a: int, b: int| 0 <= a < width + 1 && 0 <= b < height
                    ==> collision.lr_at(a, b) == (b < yy && (a == 0 || a == width)),
            decreases height - yy,
        {
            collision.set_collision_left(0, yy);
            collision.set_collision_right(width - 1, yy);
            yy = yy + 1;
        }
        Building { x, y, tiles, collision }
    }

    /// The building's map position.
    pub fn position(&self) -> (r: (u32, u32))
        ensures
            r.0 == self.spec_x(),
            r.1 == self.spec_y(),
    {
        (self.x, self.y)
    }

    /// The building's tile block.
    pub fn tiles(&self) -> (r: &Vec2D<TileId>)
        ensures
            r == self.spec_tiles(),
    {
        &self.tiles
    }

    /// The building's collision flags.
    pub fn collision(&self) -> (r: &CollisionLayer)
        ensures
            r == self.spec_collision(),
    {
        &self.collision
    }
}

} // verus!
