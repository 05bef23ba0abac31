use vstd::prelude::*;

verus! {

/// An axis-aligned rectangle on the map, used to describe a room during
/// generation. The box is half-open: its interior cells are
/// `x1 + 1 .. x2` by `y1 + 1 .. y2`, excluding the boundary, so rooms carved
/// from adjacent rectangles never merge walls.
#[derive(Clone, Copy, PartialEq, Eq, Structural, Debug)]
pub struct Rect {
    pub x1: usize,
    pub y1: usize,
    pub x2: usize,
    pub y2: usize,
}

impl Rect {
    /// A rectangle from its top-left corner and its footprint.
    pub fn new(x: usize, y: usize, w: usize, h: usize) -> (r: Rect)
        requires
            x + w <= usize::MAX,
            y + h <= usize::MAX,
        ensures
            r == (Rect { x1: x, y1: y, x2: (x + w) as usize, y2: (y + h) as usize }),
    {
        Rect { x1: x, y1: y, x2: x + w, y2: y + h }
    }

    /// `(x, y)` lies strictly inside the rectangle: only these cells are
    /// carved open when the rectangle is used as a room.
    pub open spec fn interior_contains(self, x: int, y: int) -> bool {
        self.x1 + 1 <= x && x < self.x2 && self.y1 + 1 <= y && y < self.y2
    }

    /// Two rectangles overlap exactly when both their horizontal and their
    /// vertical half-open extents intersect.
    pub open spec fn spec_intersects(self, other: Rect) -> bool {
        self.x1 < other.x2 && other.x1 < self.x2 && self.y1 < other.y2 && other.y1 < self.y2
    }

    /// Overlap test used to reject room placements.
    pub fn intersects_with(&self, other: &Rect) -> (r: bool)
        ensures
            r == self.spec_intersects(*other),
    {
        self.x1 < other.x2 && other.x1 < self.x2 && self.y1 < other.y2 && other.y1 < self.y2
    }

    /// The rectangle's center cell, rounded toward the top-left.
    pub open spec fn spec_center(self) -> (int, int) {
        ((self.x1 + self.x2) / 2, (self.y1 + self.y2) / 2)
    }

    /// The rectangle's center cell, where tunnels leaving the room start.
    pub fn center(&self) -> (c: (usize, usize))
        requires
            self.x1 + self.x2 <= usize::MAX,
            self.y1 + self.y2 <= usize::MAX,
        ensures
            c.0 == self.spec_center().0,
            c.1 == self.spec_center().1,
    {
        ((self.x1 + self.x2) / 2, (self.y1 + self.y2) / 2)
    }
}

} // verus!
