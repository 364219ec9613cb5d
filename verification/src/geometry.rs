//! Integer vectors and axis-aligned rectangles of the lattice.

use vstd::prelude::*;

verus! {

/// The longest side a region, a tile grid or a flow field may have.
pub const MAX_SIDE: u32 = 4096;

/// A signed lattice vector.
#[derive(Clone, Copy, Debug, PartialEq, Eq, Structural)]
pub struct IVec2 {
    pub x: i32,
    pub y: i32,
}

/// An unsigned lattice vector.
#[derive(Clone, Copy, Debug, PartialEq, Eq, Structural)]
pub struct UVec2 {
    pub x: u32,
    pub y: u32,
}

/// A rectangle of lattice cells: a cell `(x, y)` belongs to it when
/// `min.x <= x < max.x` and `min.y <= y < max.y`.
#[derive(Clone, Copy, Debug, PartialEq, Eq, Structural)]
pub struct Rect {
    pub min: UVec2,
    pub max: UVec2,
}

impl Rect {
    /// The corners are ordered and within the largest region.
    pub open spec fn wf(&self) -> bool {
        &&& self.min.x <= self.max.x <= MAX_SIDE
        &&& self.min.y <= self.max.y <= MAX_SIDE
    }

    /// How many cells the rectangle is wide.
    pub open spec fn spec_width(&self) -> int {
        self.max.x - self.min.x
    }

    /// How many cells the rectangle is high.
    pub open spec fn spec_height(&self) -> int {
        self.max.y - self.min.y
    }

    /// How many cells the rectangle has.
    pub open spec fn spec_area(&self) -> int {
        self.spec_width() * self.spec_height()
    }

    /// Whether the cell `(x, y)` lies in the rectangle.
    pub open spec fn contains(&self, x: int, y: int) -> bool {
        self.min.x <= x < self.max.x && self.min.y <= y < self.max.y
    }

    /// Whether every cell of the rectangle lies in `outer`.
    pub open spec fn within(&self, outer: Rect) -> bool {
        &&& outer.min.x <= self.min.x && self.max.x <= outer.max.x
        &&& outer.min.y <= self.min.y && self.max.y <= outer.max.y
    }

    /// The cell at the middle, rounded down.
    pub open spec fn spec_center(&self) -> UVec2 {
        UVec2 {
            x: ((self.min.x + self.max.x) / 2) as u32,
            y: ((self.min.y + self.max.y) / 2) as u32,
        }
    }

    /// The rectangle between two corners.
    pub fn new(min_x: u32, min_y: u32, max_x: u32, max_y: u32) -> (r: Rect)
        ensures
            r.min == (UVec2 { x: min_x, y: min_y }),
            r.max == (UVec2 { x: max_x, y: max_y }),
    {
        Rect { min: UVec2 { x: min_x, y: min_y }, max: UVec2 { x: max_x, y: max_y } }
    }

    /// How many cells the rectangle is wide.
    pub fn width(&self) -> (w: u32)
        requires
            self.wf(),
        ensures
            w == self.spec_width(),
    {
        self.max.x - self.min.x
    }

    /// How many cells the rectangle is high.
    pub fn height(&self) -> (h: u32)
        requires
            self.wf(),
        ensures
            h == self.spec_height(),
    {
        self.max.y - self.min.y
    }

    /// How many cells the rectangle has.
    pub fn area(&self) -> (a: u32)
        requires
            self.wf(),
        ensures
            a == self.spec_area(),
            a <= MAX_SIDE * MAX_SIDE,
    {
        let w: u32 = self.width();
        let h: u32 = self.height();
        assert(w * h <= 4096 * 4096) by (nonlinear_arith)
            requires
                0 <= w <= 4096,
                0 <= h <= 4096,
        ;
        w * h
    }

    /// The cell at the middle, rounded down. It lies in the rectangle where
    /// the rectangle has a cell.
    pub fn center(&self) -> (c: UVec2)
        requires
            self.wf(),
        ensures
            c == self.spec_center(),
            self.spec_width() > 0 ==> self.min.x <= c.x < self.max.x,
            self.spec_height() > 0 ==> self.min.y <= c.y < self.max.y,
    {
        UVec2 { x: (self.min.x + self.max.x) / 2, y: (self.min.y + self.max.y) / 2 }
    }
}

} // verus!
