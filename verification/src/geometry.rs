//! Integer points, sizes and rectangles.
//!
//! Extents are half-open and saturate at the `i32` bounds, so a rectangle at
//! an extreme position covers a clipped area instead of overflowing.

use vstd::prelude::*;

verus! {

/// `i` clamped to the `i32` range.
pub open spec fn sat(i: int) -> int {
    if i > i32::MAX {
        i32::MAX as int
    } else if i < i32::MIN {
        i32::MIN as int
    } else {
        i
    }
}

pub open spec fn max_of(a: int, b: int) -> int {
    if a >= b {
        a
    } else {
        b
    }
}

pub open spec fn min_of(a: int, b: int) -> int {
    if a <= b {
        a
    } else {
        b
    }
}

/// `v` held between `lo` and `hi`.
pub open spec fn clamp_of(v: int, lo: int, hi: int) -> int {
    if v < lo {
        lo
    } else if v > hi {
        hi
    } else {
        v
    }
}

pub fn max_i32(a: i32, b: i32) -> (m: i32)
    ensures
        m == max_of(a as int, b as int),
{
    if a >= b {
        a
    } else {
        b
    }
}

pub fn min_i32(a: i32, b: i32) -> (m: i32)
    ensures
        m == min_of(a as int, b as int),
{
    if a <= b {
        a
    } else {
        b
    }
}

pub fn min_usize(a: usize, b: usize) -> (m: usize)
    ensures
        m == min_of(a as int, b as int),
{
    if a <= b {
        a
    } else {
        b
    }
}

/// `a + b`, held at the `i32` bounds.
pub fn sat_add(a: i32, b: i32) -> (r: i32)
    ensures
        r == sat(a + b),
{
    let sum: i64 = a as i64 + b as i64;
    if sum > i32::MAX as i64 {
        i32::MAX
    } else if sum < i32::MIN as i64 {
        i32::MIN
    } else {
        sum as i32
    }
}

/// `a - b`, held at the `i32` bounds.
pub fn sat_sub(a: i32, b: i32) -> (r: i32)
    ensures
        r == sat(a - b),
{
    let diff: i64 = a as i64 - b as i64;
    if diff > i32::MAX as i64 {
        i32::MAX
    } else if diff < i32::MIN as i64 {
        i32::MIN
    } else {
        diff as i32
    }
}

/// A position.
#[derive(Clone, Copy, Debug, PartialEq, Eq, Hash, Structural)]
pub struct Point {
    pub x: i32,
    pub y: i32,
}

/// A width and a height.
#[derive(Clone, Copy, Debug, PartialEq, Eq, Hash, Structural)]
pub struct Size {
    pub w: i32,
    pub h: i32,
}

/// A rectangle: its top-left corner and its extent.
#[derive(Clone, Copy, Debug, PartialEq, Eq, Hash, Structural)]
pub struct Rect {
    pub loc: Point,
    pub size: Size,
}

impl Point {
    pub fn new(x: i32, y: i32) -> (p: Point)
        ensures
            p == (Point { x, y }),
    {
        Point { x, y }
    }
}

impl Size {
    pub open spec fn valid(self) -> bool {
        self.w >= 0 && self.h >= 0
    }

    /// Positive on both axes.
    pub open spec fn positive(self) -> bool {
        self.w > 0 && self.h > 0
    }

    pub fn new(w: i32, h: i32) -> (s: Size)
        ensures
            s == (Size { w, h }),
    {
        Size { w, h }
    }

    /// Whether a side is zero.
    pub fn is_empty(&self) -> (empty: bool)
        ensures
            empty == (self.w == 0 || self.h == 0),
    {
        self.w == 0 || self.h == 0
    }
}

impl Rect {
    /// The extent is not negative.
    pub open spec fn valid(self) -> bool {
        self.size.valid()
    }

    /// First column past the rectangle.
    pub open spec fn right(self) -> int {
        sat(self.loc.x + self.size.w)
    }

    /// First row past the rectangle.
    pub open spec fn bottom(self) -> int {
        sat(self.loc.y + self.size.h)
    }

    /// Whether the pixel `(x, y)` belongs to the rectangle.
    pub open spec fn covers(self, x: int, y: int) -> bool {
        self.loc.x <= x < self.right() && self.loc.y <= y < self.bottom()
    }

    /// Whether each rectangle starts before the other one ends, on both axes.
    pub open spec fn meets(self, other: Rect) -> bool {
        &&& self.loc.x < other.right()
        &&& other.loc.x < self.right()
        &&& self.loc.y < other.bottom()
        &&& other.loc.y < self.bottom()
    }

    /// The area that two rectangles that meet have in common.
    pub open spec fn common(self, other: Rect) -> Rect {
        let left = max_of(self.loc.x as int, other.loc.x as int);
        let top = max_of(self.loc.y as int, other.loc.y as int);
        let right = min_of(self.right(), other.right());
        let bottom = min_of(self.bottom(), other.bottom());
        Rect {
            loc: Point { x: left as i32, y: top as i32 },
            size: Size { w: sat(right - left) as i32, h: sat(bottom - top) as i32 },
        }
    }

    /// What `intersection` returns.
    pub open spec fn clip(self, other: Rect) -> Option<Rect> {
        if self.meets(other) {
            Some(self.common(other))
        } else {
            None
        }
    }

    /// Width times height.
    pub open spec fn area(self) -> int {
        self.size.w * self.size.h
    }

    pub fn new(loc: Point, size: Size) -> (r: Rect)
        ensures
            r == (Rect { loc, size }),
    {
        Rect { loc, size }
    }

    /// A rectangle of the given extent at the origin.
    pub fn from_size(size: Size) -> (r: Rect)
        ensures
            r == (Rect { loc: Point { x: 0, y: 0 }, size }),
    {
        Rect { loc: Point { x: 0, y: 0 }, size }
    }

    /// Whether a side is zero.
    pub fn is_empty(&self) -> (empty: bool)
        ensures
            empty == (self.size.w == 0 || self.size.h == 0),
    {
        self.size.is_empty()
    }

    pub fn contains(&self, p: Point) -> (inside: bool)
        ensures
            inside == self.covers(p.x as int, p.y as int),
    {
        p.x >= self.loc.x && p.x < sat_add(self.loc.x, self.size.w) && p.y >= self.loc.y && p.y
            < sat_add(self.loc.y, self.size.h)
    }

    /// Whether the rectangles overlap. Touching edges do not count.
    pub fn overlaps(&self, other: Rect) -> (meet: bool)
        ensures
            meet == self.meets(other),
    {
        self.loc.x < sat_add(other.loc.x, other.size.w) && other.loc.x < sat_add(
            self.loc.x,
            self.size.w,
        ) && self.loc.y < sat_add(other.loc.y, other.size.h) && other.loc.y < sat_add(
            self.loc.y,
            self.size.h,
        )
    }

    /// The common area of two overlapping rectangles.
    pub fn intersection(&self, other: Rect) -> (r: Option<Rect>)
        ensures
            r == self.clip(other),
    {
        if !self.overlaps(other) {
            return None;
        }
        let left: i32 = max_i32(self.loc.x, other.loc.x);
        let top: i32 = max_i32(self.loc.y, other.loc.y);
        let right: i32 = min_i32(
            sat_add(self.loc.x, self.size.w),
            sat_add(other.loc.x, other.size.w),
        );
        let bottom: i32 = min_i32(
            sat_add(self.loc.y, self.size.h),
            sat_add(other.loc.y, other.size.h),
        );
        Some(
            Rect {
                loc: Point { x: left, y: top },
                size: Size { w: sat_sub(right, left), h: sat_sub(bottom, top) },
            },
        )
    }
}

/// A pixel is in the intersection exactly if both rectangles cover it.
pub proof fn law_intersection_covers(a: Rect, b: Rect, x: int, y: int)
    requires
        a.valid(),
        b.valid(),
    ensures
        (a.covers(x, y) && b.covers(x, y)) <==> (a.clip(b) matches Some(c) && c.covers(x, y)),
{
}

/// Overlap and intersection do not depend on the order of the rectangles.
pub proof fn law_intersection_symmetric(a: Rect, b: Rect)
    ensures
        a.meets(b) == b.meets(a),
        a.clip(b) == b.clip(a),
{
}

/// A rectangle holds the pixels from its corner on, as many as its extent says;
/// the last column and row that can be counted are in none.
pub proof fn law_rectangle_covers_its_extent(r: Rect, x: int, y: int)
    requires
        x < i32::MAX,
        y < i32::MAX,
    ensures
        r.covers(x, y) <==> 0 <= x - r.loc.x < r.size.w && 0 <= y - r.loc.y < r.size.h,
{
}

/// Rectangles with an area meet exactly if some pixel is in both.
pub proof fn law_meeting_shares_a_pixel(a: Rect, b: Rect) -> (p: (int, int))
    requires
        a.size.positive(),
        b.size.positive(),
        a.loc.x < i32::MAX && a.loc.y < i32::MAX && b.loc.x < i32::MAX && b.loc.y < i32::MAX,
    ensures
        a.meets(b) ==> a.covers(p.0, p.1) && b.covers(p.0, p.1),
        !a.meets(b) ==> forall|x: int, y: int|
            #![trigger a.covers(x, y), b.covers(x, y)]
            !(a.covers(x, y) && b.covers(x, y)),
{
    (max_of(a.loc.x as int, b.loc.x as int), max_of(a.loc.y as int, b.loc.y as int))
}

/// What two rectangles share starts and ends within both, and is theirs to the
/// last pixel.
pub proof fn law_common_area_is_tight(a: Rect, b: Rect, c: Rect)
    requires
        a.valid(),
        b.valid(),
        a.clip(b) == Some(c),
        a.loc.x + a.size.w <= i32::MAX && b.loc.x + b.size.w <= i32::MAX,
        a.loc.y + a.size.h <= i32::MAX && b.loc.y + b.size.h <= i32::MAX,
        c.size.w < i32::MAX && c.size.h < i32::MAX,
    ensures
        c.loc.x == a.loc.x || c.loc.x == b.loc.x,
        c.loc.y == a.loc.y || c.loc.y == b.loc.y,
        c.loc.x >= a.loc.x && c.loc.x >= b.loc.x && c.loc.y >= a.loc.y && c.loc.y >= b.loc.y,
        c.loc.x + c.size.w == a.loc.x + a.size.w || c.loc.x + c.size.w == b.loc.x + b.size.w,
        c.loc.y + c.size.h == a.loc.y + a.size.h || c.loc.y + c.size.h == b.loc.y + b.size.h,
        c.loc.x + c.size.w <= a.loc.x + a.size.w && c.loc.x + c.size.w <= b.loc.x + b.size.w,
        c.loc.y + c.size.h <= a.loc.y + a.size.h && c.loc.y + c.size.h <= b.loc.y + b.size.h,
{
}

/// An area is its width times its height, so it grows with either.
pub proof fn law_area_grows_with_the_extent(a: Rect, b: Rect)
    requires
        a.valid(),
        a.size.w <= b.size.w,
        a.size.h <= b.size.h,
    ensures
        0 <= a.area() <= b.area(),
        a.size.w == b.size.w && b.size.h == a.size.h + 1 ==> b.area() == a.area() + a.size.w,
        a.size.h == b.size.h && b.size.w == a.size.w + 1 ==> b.area() == a.area() + a.size.h,
        a.size.w == 0 || a.size.h == 0 ==> a.area() == 0,
{
    assert(0 <= a.size.w * a.size.h <= b.size.w * b.size.h) by (nonlinear_arith)
        requires
            0 <= a.size.w <= b.size.w,
            0 <= a.size.h <= b.size.h,
    ;
    assert(a.size.w * (a.size.h + 1) == a.size.w * a.size.h + a.size.w && (a.size.w + 1)
        * a.size.h == a.size.w * a.size.h + a.size.h) by (nonlinear_arith);
    assert(0 * a.size.h == 0 && a.size.w * 0 == 0) by (nonlinear_arith);
}

} // verus!
