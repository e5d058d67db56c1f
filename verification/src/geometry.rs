//! Integer points and axis-aligned rectangles, the geometric facts the
//! pipeline produces.
//!
//! A well-formed rectangle has non-negative position and extent, and its
//! far corner still fits in `i32`. Intersection and bounding union keep
//! well-formedness; an empty intersection collapses to the zero
//! rectangle.

use vstd::prelude::*;

verus! {

/// A pixel position, `x` to the right and `y` downward.
#[derive(Clone, Copy, Debug, PartialEq, Eq, Structural)]
pub struct Point {
    pub x: i32,
    pub y: i32,
}

/// An axis-aligned rectangle: top-left corner plus width and height.
#[derive(Clone, Copy, Debug, PartialEq, Eq, Structural)]
pub struct Rect {
    pub x: i32,
    pub y: i32,
    pub width: i32,
    pub height: i32,
}

/// The intersection `a.and(b)` computes: the overlap of the two
/// rectangles, or the zero rectangle when they are disjoint.
pub open spec fn spec_and(a: Rect, b: Rect) -> Rect {
    let x = if a.x >= b.x {
        a.x as int
    } else {
        b.x as int
    };
    let y = if a.y >= b.y {
        a.y as int
    } else {
        b.y as int
    };
    let xe = if a.right() <= b.right() {
        a.right()
    } else {
        b.right()
    };
    let ye = if a.bottom() <= b.bottom() {
        a.bottom()
    } else {
        b.bottom()
    };
    if x < xe && y < ye {
        Rect { x: x as i32, y: y as i32, width: (xe - x) as i32, height: (ye - y) as i32 }
    } else {
        Rect { x: 0, y: 0, width: 0, height: 0 }
    }
}

/// The bounding union `a.or(b)` computes: the smallest rectangle
/// covering both, where an empty operand is ignored.
pub open spec fn spec_or(a: Rect, b: Rect) -> Rect {
    if a.is_empty() {
        b
    } else if b.is_empty() {
        a
    } else {
        let x = if a.x <= b.x {
            a.x as int
        } else {
            b.x as int
        };
        let y = if a.y <= b.y {
            a.y as int
        } else {
            b.y as int
        };
        let xe = if a.right() >= b.right() {
            a.right()
        } else {
            b.right()
        };
        let ye = if a.bottom() >= b.bottom() {
            a.bottom()
        } else {
            b.bottom()
        };
        Rect { x: x as i32, y: y as i32, width: (xe - x) as i32, height: (ye - y) as i32 }
    }
}

impl Point {
    pub fn new(x: i32, y: i32) -> (r: Point)
        ensures
            r == (Point { x, y }),
    {
        Point { x, y }
    }
}

impl Rect {
    /// The x coordinate one past the right edge.
    pub open spec fn right(self) -> int {
        self.x + self.width
    }

    /// The y coordinate one past the bottom edge.
    pub open spec fn bottom(self) -> int {
        self.y + self.height
    }

    /// Non-negative position and extent, far corner within `i32`.
    pub open spec fn wf(self) -> bool {
        &&& 0 <= self.x
        &&& 0 <= self.y
        &&& 0 <= self.width
        &&& 0 <= self.height
        &&& self.right() <= i32::MAX
        &&& self.bottom() <= i32::MAX
    }

    /// No pixel lies in the rectangle.
    pub open spec fn is_empty(self) -> bool {
        self.width <= 0 || self.height <= 0
    }

    /// Every pixel of `inner` lies in `self`.
    pub open spec fn spec_contains_rect(self, inner: Rect) -> bool {
        &&& self.x <= inner.x
        &&& self.y <= inner.y
        &&& inner.right() <= self.right()
        &&& inner.bottom() <= self.bottom()
    }

    pub fn new(x: i32, y: i32, width: i32, height: i32) -> (r: Rect)
        ensures
            r == (Rect { x, y, width, height }),
    {
        Rect { x, y, width, height }
    }

    /// The rectangle spanned by two corner points, in either order.
    pub fn from_points(a: Point, b: Point) -> (r: Rect)
        requires
            -1_000_000_000 <= a.x <= 1_000_000_000,
            -1_000_000_000 <= a.y <= 1_000_000_000,
            -1_000_000_000 <= b.x <= 1_000_000_000,
            -1_000_000_000 <= b.y <= 1_000_000_000,
        ensures
            r.x == if a.x <= b.x { a.x } else { b.x },
            r.y == if a.y <= b.y { a.y } else { b.y },
            r.width == if a.x <= b.x { b.x - a.x } else { a.x - b.x },
            r.height == if a.y <= b.y { b.y - a.y } else { a.y - b.y },
    {
        let x = if a.x <= b.x { a.x } else { b.x };
        let y = if a.y <= b.y { a.y } else { b.y };
        let xe = if a.x <= b.x { b.x } else { a.x };
        let ye = if a.y <= b.y { b.y } else { a.y };
        Rect { x, y, width: xe - x, height: ye - y }
    }

    /// Top-left corner.
    pub fn tl(&self) -> (r: Point)
        ensures
            r == (Point { x: self.x, y: self.y }),
    {
        Point { x: self.x, y: self.y }
    }

    /// The number of pixels covered.
    pub fn area(&self) -> (r: i64)
        requires
            self.wf(),
        ensures
            r == self.width * self.height,
            r >= 0,
    {
        proof {
            vstd::arithmetic::mul::lemma_mul_nonnegative(
                self.width as int,
                self.height as int,
            );
            vstd::arithmetic::mul::lemma_mul_upper_bound(
                self.width as int,
                i32::MAX as int,
                self.height as int,
                i32::MAX as int,
            );
        }
        (self.width as i64) * (self.height as i64)
    }

    /// Intersection; disjoint rectangles collapse to the zero rectangle.
    pub fn and(&self, other: &Rect) -> (r: Rect)
        requires
            self.wf(),
            other.wf(),
        ensures
            r.wf(),
            r == spec_and(*self, *other),
            ({
                let x = if self.x >= other.x { self.x as int } else { other.x as int };
                let y = if self.y >= other.y { self.y as int } else { other.y as int };
                let xe = if self.right() <= other.right() { self.right() } else { other.right() };
                let ye = if self.bottom() <= other.bottom() {
                    self.bottom()
                } else {
                    other.bottom()
                };
                if x < xe && y < ye {
                    r == (Rect {
                        x: x as i32,
                        y: y as i32,
                        width: (xe - x) as i32,
                        height: (ye - y) as i32,
                    })
                } else {
                    r == (Rect { x: 0, y: 0, width: 0, height: 0 })
                }
            }),
    {
        let x = if self.x >= other.x { self.x } else { other.x };
        let y = if self.y >= other.y { self.y } else { other.y };
        let sr = self.x + self.width;
        let orr = other.x + other.width;
        let sb = self.y + self.height;
        let ob = other.y + other.height;
        let xe = if sr <= orr { sr } else { orr };
        let ye = if sb <= ob { sb } else { ob };
        if x < xe && y < ye {
            Rect { x, y, width: xe - x, height: ye - y }
        } else {
            Rect { x: 0, y: 0, width: 0, height: 0 }
        }
    }

    /// Bounding union: the smallest rectangle covering both, where an
    /// empty operand is ignored.
    pub fn or(&self, other: &Rect) -> (r: Rect)
        requires
            self.wf(),
            other.wf(),
        ensures
            r.wf(),
            r == spec_or(*self, *other),
            self.is_empty() ==> r == *other,
            !self.is_empty() && other.is_empty() ==> r == *self,
            !self.is_empty() && !other.is_empty() ==> {
                &&& r.x == if self.x <= other.x { self.x as int } else { other.x as int }
                &&& r.y == if self.y <= other.y { self.y as int } else { other.y as int }
                &&& r.right() == if self.right() >= other.right() {
                    self.right()
                } else {
                    other.right()
                }
                &&& r.bottom() == if self.bottom() >= other.bottom() {
                    self.bottom()
                } else {
                    other.bottom()
                }
            },
    {
        if self.width <= 0 || self.height <= 0 {
            return *other;
        }
        if other.width <= 0 || other.height <= 0 {
            return *self;
        }
        let x = if self.x <= other.x { self.x } else { other.x };
        let y = if self.y <= other.y { self.y } else { other.y };
        let sr = self.x + self.width;
        let orr = other.x + other.width;
        let sb = self.y + self.height;
        let ob = other.y + other.height;
        let xe = if sr >= orr { sr } else { orr };
        let ye = if sb >= ob { sb } else { ob };
        Rect { x, y, width: xe - x, height: ye - y }
    }

    /// Whether every pixel of `inner` lies in `self`.
    pub fn contains_rect(&self, inner: &Rect) -> (r: bool)
        requires
            self.wf(),
            inner.wf(),
        ensures
            r == self.spec_contains_rect(*inner),
    {
        self.x <= inner.x && self.y <= inner.y
            && inner.x + inner.width <= self.x + self.width
            && inner.y + inner.height <= self.y + self.height
    }
}

} // verus!
