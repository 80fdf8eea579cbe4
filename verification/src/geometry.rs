//! Axis-aligned points and segments with overlap and crossing tests.

use vstd::prelude::*;

verus! {

/// A point on the canvas grid; `x` grows to the right, `y` grows downward.
#[derive(Clone, Copy, PartialEq, Eq, Structural, Debug)]
pub struct Point {
    pub x: u32,
    pub y: u32,
}

/// An axis-aligned segment between two points. Callers only build purely
/// horizontal or purely vertical segments, never diagonal ones.
#[derive(Clone, Copy, PartialEq, Eq, Structural, Debug)]
pub struct Segment {
    pub p1: Point,
    pub p2: Point,
}

impl Segment {
    /// Length of the shared row-range of two vertical segments (each with
    /// `p1.y <= p2.y`) on the same column; 0 if they sit on different columns
    /// or their row-ranges are disjoint.
    pub open spec fn common_of(a: Segment, b: Segment) -> int {
        if a.p1.x == b.p1.x {
            let lo: int = if a.p1.y >= b.p1.y { a.p1.y as int } else { b.p1.y as int };
            let hi: int = if a.p2.y <= b.p2.y { a.p2.y as int } else { b.p2.y as int };
            if hi > lo { hi - lo } else { 0 }
        } else {
            0
        }
    }

    /// Overlap length of two vertical segments; see [`Segment::common_of`].
    pub fn get_common(a: &Segment, b: &Segment) -> (r: u32)
        ensures
            r == Self::common_of(*a, *b),
    {
        if a.p1.x != b.p1.x {
            return 0;
        }
        let lo: u32 = if a.p1.y >= b.p1.y { a.p1.y } else { b.p1.y };
        let hi: u32 = if a.p2.y <= b.p2.y { a.p2.y } else { b.p2.y };
        if hi > lo { hi - lo } else { 0 }
    }

    /// True when the vertical segment's column lies strictly between the
    /// horizontal segment's endpoints and the horizontal segment's row lies
    /// strictly between the vertical segment's endpoints: a true geometric
    /// crossing, not mere touching.
    pub open spec fn crossing_of(h: Segment, v: Segment) -> bool {
        let xlo: int = if h.p1.x <= h.p2.x { h.p1.x as int } else { h.p2.x as int };
        let xhi: int = if h.p1.x <= h.p2.x { h.p2.x as int } else { h.p1.x as int };
        let ylo: int = if v.p1.y <= v.p2.y { v.p1.y as int } else { v.p2.y as int };
        let yhi: int = if v.p1.y <= v.p2.y { v.p2.y as int } else { v.p1.y as int };
        xlo < v.p1.x < xhi && ylo < h.p1.y < yhi
    }

    /// Crossing test between a horizontal segment `h` and a vertical segment
    /// `v`; see [`Segment::crossing_of`].
    pub fn are_crossing(h: &Segment, v: &Segment) -> (r: bool)
        ensures
            r == Self::crossing_of(*h, *v),
    {
        let xlo: u32 = if h.p1.x <= h.p2.x { h.p1.x } else { h.p2.x };
        let xhi: u32 = if h.p1.x <= h.p2.x { h.p2.x } else { h.p1.x };
        let ylo: u32 = if v.p1.y <= v.p2.y { v.p1.y } else { v.p2.y };
        let yhi: u32 = if v.p1.y <= v.p2.y { v.p2.y } else { v.p1.y };
        xlo < v.p1.x && v.p1.x < xhi && ylo < h.p1.y && h.p1.y < yhi
    }
}

} // verus!
