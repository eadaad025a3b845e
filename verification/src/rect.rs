//! Axis-aligned rectangles in world coordinates.

use vstd::prelude::*;

verus! {

/// An axis-aligned rectangle: top-left corner plus extent.
///
/// Coordinates may be negative; the extent is unsigned, so the right and
/// bottom edges (`x + width`, `y + height`) can exceed `i32::MAX` and are
/// therefore reasoned about as mathematical integers.
#[derive(Debug, Clone, Copy, PartialEq, Eq, Structural)]
pub struct Rect {
    pub x: i32,
    pub y: i32,
    pub width: u32,
    pub height: u32,
}

impl Rect {
    pub open spec fn left(self) -> int {
        self.x as int
    }

    pub open spec fn top(self) -> int {
        self.y as int
    }

    pub open spec fn right(self) -> int {
        self.x + self.width
    }

    pub open spec fn bottom(self) -> int {
        self.y + self.height
    }

    /// The two rectangles share a region of positive area; rectangles that
    /// merely touch along an edge or a corner do not overlap.
    pub open spec fn overlaps(self, other: Rect) -> bool {
        &&& self.left() < other.right()
        &&& other.left() < self.right()
        &&& self.top() < other.bottom()
        &&& other.top() < self.bottom()
    }

    /// `inner` lies fully inside `self`; touching the border from the inside
    /// still counts as contained.
    pub open spec fn covers(self, inner: Rect) -> bool {
        &&& self.left() <= inner.left()
        &&& inner.right() <= self.right()
        &&& self.top() <= inner.top()
        &&& inner.bottom() <= self.bottom()
    }

    pub fn new(x: i32, y: i32, width: u32, height: u32) -> (r: Rect)
        ensures
            r == (Rect { x, y, width, height }),
    {
        Rect { x, y, width, height }
    }

    /// The rectangle of the given extent whose center is `(cx, cy)`; for odd
    /// extents the extra unit goes to the right/bottom half.
    pub fn from_center(cx: i32, cy: i32, width: u32, height: u32) -> (r: Rect)
        requires
            i32::MIN <= cx - width / 2,
            i32::MIN <= cy - height / 2,
        ensures
            r.x == cx - width / 2,
            r.y == cy - height / 2,
            r.width == width,
            r.height == height,
    {
        Rect { x: cx - (width / 2) as i32, y: cy - (height / 2) as i32, width, height }
    }

    pub fn has_intersection(&self, other: &Rect) -> (r: bool)
        ensures
            r == self.overlaps(*other),
    {
        let a_left: i64 = self.x as i64;
        let a_right: i64 = self.x as i64 + self.width as i64;
        let a_top: i64 = self.y as i64;
        let a_bottom: i64 = self.y as i64 + self.height as i64;
        let b_left: i64 = other.x as i64;
        let b_right: i64 = other.x as i64 + other.width as i64;
        let b_top: i64 = other.y as i64;
        let b_bottom: i64 = other.y as i64 + other.height as i64;
        a_left < b_right && b_left < a_right && a_top < b_bottom && b_top < a_bottom
    }

    pub fn contains_rect(&self, inner: &Rect) -> (r: bool)
        ensures
            r == self.covers(*inner),
    {
        let o_left: i64 = self.x as i64;
        let o_right: i64 = self.x as i64 + self.width as i64;
        let o_top: i64 = self.y as i64;
        let o_bottom: i64 = self.y as i64 + self.height as i64;
        let i_left: i64 = inner.x as i64;
        let i_right: i64 = inner.x as i64 + inner.width as i64;
        let i_top: i64 = inner.y as i64;
        let i_bottom: i64 = inner.y as i64 + inner.height as i64;
        o_left <= i_left && i_right <= o_right && o_top <= i_top && i_bottom <= o_bottom
    }
}

} // verus!
