use vstd::prelude::*;

verus! {

/// Largest coordinate a room corner may take; keeps corner sums far from overflow.
pub const MAX_COORD: i32 = 100_000;

/// An axis-aligned rectangle given by its two corners (inclusive).
#[derive(Clone, Copy, Debug, PartialEq, Eq, Structural)]
pub struct Rect {
    pub x1: i32,
    pub x2: i32,
    pub y1: i32,
    pub y2: i32,
}

impl Rect {
    /// Corners are ordered and lie in `[0, MAX_COORD]`.
    pub open spec fn wf(self) -> bool {
        0 <= self.x1 < self.x2 <= MAX_COORD && 0 <= self.y1 < self.y2 <= MAX_COORD
    }

    /// The two rectangles touch or overlap: with inclusive corners this leaves
    /// no one-cell gap between accepted rooms.
    pub open spec fn overlaps(self, other: Rect) -> bool {
        self.x1 <= other.x2 && self.x2 >= other.x1 && self.y1 <= other.y2 && self.y2 >= other.y1
    }

    /// The rectangles come within `pad` cells of each other: grown by `pad`
    /// on every side, `self` would touch or overlap `other`.
    pub open spec fn overlaps_padded(self, other: Rect, pad: int) -> bool {
        self.x1 - pad <= other.x2 && self.x2 + pad >= other.x1 && self.y1 - pad <= other.y2
            && self.y2 + pad >= other.y1
    }

    pub open spec fn center_cell(self) -> (int, int) {
        ((self.x1 + self.x2) / 2, (self.y1 + self.y2) / 2)
    }

    pub fn new(x: i32, y: i32, w: i32, h: i32) -> (r: Rect)
        requires
            0 <= x <= MAX_COORD,
            0 <= y <= MAX_COORD,
            0 < w <= MAX_COORD - x,
            0 < h <= MAX_COORD - y,
        ensures
            r.x1 == x && r.y1 == y && r.x2 == x + w && r.y2 == y + h,
            r.wf(),
    {
        Rect { x1: x, y1: y, x2: x + w, y2: y + h }
    }

    pub fn intersect(&self, other: &Rect) -> (r: bool)
        ensures
            r == self.overlaps(*other),
    {
        self.x1 <= other.x2 && self.x2 >= other.x1 && self.y1 <= other.y2 && self.y2 >= other.y1
    }

    pub fn intersect_padded(&self, other: &Rect, pad: i32) -> (r: bool)
        requires
            self.wf(),
            other.wf(),
            0 <= pad <= MAX_COORD,
        ensures
            r == self.overlaps_padded(*other, pad as int),
    {
        self.x1 - pad <= other.x2 && self.x2 + pad >= other.x1 && self.y1 - pad <= other.y2
            && self.y2 + pad >= other.y1
    }

    pub fn center(&self) -> (r: (i32, i32))
        requires
            self.wf(),
        ensures
            (r.0 as int, r.1 as int) == self.center_cell(),
            self.x1 <= r.0 <= self.x2,
            self.y1 <= r.1 <= self.y2,
    {
        ((self.x1 + self.x2) / 2, (self.y1 + self.y2) / 2)
    }
}

} // verus!
