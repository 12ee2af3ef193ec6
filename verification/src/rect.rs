use vstd::prelude::*;

verus! {

/// An axis-aligned rectangle on the integer grid, held as two opposite corners.
///
/// A rectangle used as a room keeps `(x1, y1)` as a wall corner: the cells it
/// opens are those with `x1 < x <= x2` and `y1 < y <= y2`.
#[derive(Clone, Copy, Debug, PartialEq, Eq, Structural)]
pub struct Rect {
    pub x1: i32,
    pub x2: i32,
    pub y1: i32,
    pub y2: i32,
}

impl Rect {
    /// The corners are in order on both axes.
    pub open spec fn wf(self) -> bool {
        self.x1 <= self.x2 && self.y1 <= self.y2
    }

    /// The closed intervals of the two rectangles meet on both axes.
    pub open spec fn overlaps(self, other: Rect) -> bool {
        &&& self.x1 <= other.x2
        &&& self.x2 >= other.x1
        &&& self.y1 <= other.y2
        &&& self.y2 >= other.y1
    }

    /// The rectangle grown by one unit on every side overlaps `other`.
    pub open spec fn crowds(self, other: Rect) -> bool {
        &&& self.x1 - 1 <= other.x2
        &&& self.x2 + 1 >= other.x1
        &&& self.y1 - 1 <= other.y2
        &&& self.y2 + 1 >= other.y1
    }

    /// The midpoint, each coordinate rounded down.
    pub open spec fn mid(self) -> (int, int) {
        ((self.x1 + self.x2) / 2, (self.y1 + self.y2) / 2)
    }

    /// The cell `(x, y)` is one of those the rectangle opens as a room.
    pub open spec fn encloses(self, x: int, y: int) -> bool {
        self.x1 < x <= self.x2 && self.y1 < y <= self.y2
    }

    /// The rectangle with corner `(x, y)`, width `w` and height `h`.
    pub fn new(x: i32, y: i32, w: i32, h: i32) -> (r: Rect)
        requires
            0 <= w,
            0 <= h,
            x + w <= i32::MAX,
            y + h <= i32::MAX,
        ensures
            r.x1 == x,
            r.y1 == y,
            r.x2 == x + w,
            r.y2 == y + h,
            r.wf(),
    {
        Rect { x1: x, y1: y, x2: x + w, y2: y + h }
    }

    /// Whether the two rectangles overlap, touching edges included.
    pub fn intersects(&self, other: &Rect) -> (b: bool)
        ensures
            b == self.overlaps(*other),
    {
        self.x1 <= other.x2 && self.x2 >= other.x1 && self.y1 <= other.y2 && self.y2 >= other.y1
    }

    /// Whether the two rectangles overlap once this one is grown by one unit
    /// on every side.
    pub fn intersects_with_margin(&self, other: &Rect) -> (b: bool)
        ensures
            b == self.crowds(*other),
    {
        let ox1: i64 = other.x1 as i64;
        let ox2: i64 = other.x2 as i64;
        let oy1: i64 = other.y1 as i64;
        let oy2: i64 = other.y2 as i64;
        self.x1 as i64 - 1 <= ox2 && self.x2 as i64 + 1 >= ox1 && self.y1 as i64 - 1 <= oy2
            && self.y2 as i64 + 1 >= oy1
    }

    /// The midpoint of the rectangle, each coordinate rounded down, which for
    /// a well-formed rectangle is towards `(x1, y1)`.
    pub fn center(&self) -> (c: (i32, i32))
        ensures
            c.0 == self.mid().0,
            c.1 == self.mid().1,
    {
        (half_sum(self.x1, self.x2), half_sum(self.y1, self.y2))
    }
}

/// Half of `a + b`, rounded down.
fn half_sum(a: i32, b: i32) -> (m: i32)
    ensures
        m == (a + b) / 2,
{
    let s: i64 = a as i64 + b as i64;
    if s >= 0 {
        (s / 2) as i32
    } else {
        let t: i64 = 1 - s;
        (-(t / 2)) as i32
    }
}

/// Overlap does not depend on which rectangle is asked.
pub proof fn lemma_overlap_symmetric(a: Rect, b: Rect)
    ensures
        a.overlaps(b) == b.overlaps(a),
        a.crowds(b) == b.crowds(a),
{
}

/// The midpoint of a well-formed rectangle lies between its corners, and a
/// rectangle at least two units wide and high encloses its midpoint.
pub proof fn lemma_mid_inside(r: Rect)
    requires
        r.wf(),
    ensures
        r.x1 <= r.mid().0 <= r.x2,
        r.y1 <= r.mid().1 <= r.y2,
        r.x2 - r.x1 >= 2 && r.y2 - r.y1 >= 2 ==> r.encloses(r.mid().0, r.mid().1),
{
}

/// Two rectangles of which neither crowds the other open no common cell, and
/// no cell of one touches a cell of the other.
pub proof fn lemma_apart_rooms_disjoint(a: Rect, b: Rect, x: int, y: int, u: int, v: int)
    requires
        !a.crowds(b),
        a.encloses(x, y),
        b.encloses(u, v),
    ensures
        (x - u) * (x - u) + (y - v) * (y - v) > 1,
{
    assert((x - u) * (x - u) >= 0) by (nonlinear_arith);
    assert((y - v) * (y - v) >= 0) by (nonlinear_arith);
    if x - u >= 2 || u - x >= 2 {
        assert((x - u) * (x - u) >= 4) by (nonlinear_arith)
            requires
                x - u >= 2 || u - x >= 2,
        ;
    } else {
        assert(y - v >= 2 || v - y >= 2);
        assert((y - v) * (y - v) >= 4) by (nonlinear_arith)
            requires
                y - v >= 2 || v - y >= 2,
        ;
    }
}

} // verus!
