//! Screen rectangles used by the compositor.
use vstd::prelude::*;

verus! {

/// An axis-aligned rectangle in screen coordinates.
#[derive(Debug, PartialEq, Eq, Clone, Copy, Structural)]
pub struct Rect {
    pub x: usize,
    pub y: usize,
    pub width: usize,
    pub height: usize,
}

/// The rectangle's right and bottom edges fit in a machine word.
pub open spec fn rect_fits(r: Rect) -> bool {
    r.x + r.width <= usize::MAX && r.y + r.height <= usize::MAX
}

/// The point `(px, py)` lies inside `r` (right and bottom edges excluded).
pub open spec fn spec_contains(r: Rect, px: int, py: int) -> bool {
    r.x <= px < r.x + r.width && r.y <= py < r.y + r.height
}

/// The two rectangles overlap in a region of positive area.
pub open spec fn spec_intersects(a: Rect, b: Rect) -> bool {
    &&& a.x < b.x + b.width
    &&& a.x + a.width > b.x
    &&& a.y < b.y + b.height
    &&& a.y + a.height > b.y
}

pub open spec fn min_int(a: int, b: int) -> int {
    if a <= b { a } else { b }
}

pub open spec fn max_int(a: int, b: int) -> int {
    if a >= b { a } else { b }
}

impl Rect {
    pub fn new(x: usize, y: usize, width: usize, height: usize) -> (r: Self)
        ensures
            r == (Rect { x, y, width, height }),
    {
        Self { x, y, width, height }
    }

    pub fn intersects(&self, other: &Rect) -> (b: bool)
        requires
            rect_fits(*self),
            rect_fits(*other),
        ensures
            b == spec_intersects(*self, *other),
    {
        self.x < other.x + other.width && self.x + self.width > other.x && self.y < other.y
            + other.height && self.y + self.height > other.y
    }

    /// The smallest rectangle that covers both.
    pub fn union(&self, other: &Rect) -> (r: Rect)
        requires
            rect_fits(*self),
            rect_fits(*other),
        ensures
            r.x == min_int(self.x as int, other.x as int),
            r.y == min_int(self.y as int, other.y as int),
            r.x + r.width == max_int(self.x + self.width, other.x + other.width),
            r.y + r.height == max_int(self.y + self.height, other.y + other.height),
    {
        let x1 = if self.x <= other.x { self.x } else { other.x };
        let y1 = if self.y <= other.y { self.y } else { other.y };
        let ax2 = self.x + self.width;
        let bx2 = other.x + other.width;
        let ay2 = self.y + self.height;
        let by2 = other.y + other.height;
        let x2 = if ax2 >= bx2 { ax2 } else { bx2 };
        let y2 = if ay2 >= by2 { ay2 } else { by2 };
        Rect { x: x1, y: y1, width: x2 - x1, height: y2 - y1 }
    }

    pub fn contains_point(&self, x: usize, y: usize) -> (b: bool)
        requires
            rect_fits(*self),
        ensures
            b == spec_contains(*self, x as int, y as int),
    {
        x >= self.x && x < self.x + self.width && y >= self.y && y < self.y + self.height
    }
}

/// The union covers every point of both rectangles.
pub proof fn lemma_union_covers(a: Rect, b: Rect, u: Rect, px: int, py: int)
    requires
        u.x == min_int(a.x as int, b.x as int),
        u.y == min_int(a.y as int, b.y as int),
        u.x + u.width == max_int(a.x + a.width, b.x + b.width),
        u.y + u.height == max_int(a.y + a.height, b.y + b.height),
        spec_contains(a, px, py) || spec_contains(b, px, py),
    ensures
        spec_contains(u, px, py),
{
}

/// Overlap is symmetric.
pub proof fn lemma_intersects_symmetric(a: Rect, b: Rect)
    ensures
        spec_intersects(a, b) == spec_intersects(b, a),
{
}

/// A point inside both rectangles witnesses their overlap.
pub proof fn lemma_common_point_intersects(a: Rect, b: Rect, px: int, py: int)
    requires
        spec_contains(a, px, py),
        spec_contains(b, px, py),
    ensures
        spec_intersects(a, b),
{
}

} // verus!
