//! Integer points, sizes and rectangles in output-local coordinates.
//!
//! Sums of a coordinate and an extent saturate at the ends of `i32`, so every
//! operation here is total.

use vstd::prelude::*;

verus! {

/// Largest magnitude of a coordinate or extent of a window rectangle that the
/// decoration arithmetic accepts.
pub const GEO_LIMIT: i32 = 0x1000_0000;

/// Largest magnitude of a coordinate or extent of an output's usable area.
pub const AREA_LIMIT: i32 = 0x100_0000;

/// `v` clamped to the range of `i32`.
pub open spec fn sat(v: int) -> int {
    if v < i32::MIN {
        i32::MIN as int
    } else if v > i32::MAX {
        i32::MAX as int
    } else {
        v
    }
}

/// Sum of two coordinates, saturating at the ends of `i32`.
pub fn sat_add(a: i32, b: i32) -> (r: i32)
    ensures
        r == sat(a + b),
{
    let wide: i64 = a as i64 + b as i64;
    if wide < i32::MIN as i64 {
        i32::MIN
    } else if wide > i32::MAX as i64 {
        i32::MAX
    } else {
        wide as i32
    }
}

/// Difference of two coordinates, saturating at the ends of `i32`.
pub fn sat_sub(a: i32, b: i32) -> (r: i32)
    ensures
        r == sat(a - b),
{
    let wide: i64 = a as i64 - b as i64;
    if wide < i32::MIN as i64 {
        i32::MIN
    } else if wide > i32::MAX as i64 {
        i32::MAX
    } else {
        wide as i32
    }
}

#[derive(Clone, Copy, Debug, PartialEq, Eq, Structural)]
pub struct Point {
    pub x: i32,
    pub y: i32,
}

#[derive(Clone, Copy, Debug, PartialEq, Eq, Structural)]
pub struct Size {
    pub w: i32,
    pub h: i32,
}

/// A rectangle given by its top-left corner and its extent.
#[derive(Clone, Copy, Debug, PartialEq, Eq, Structural)]
pub struct Rect {
    pub loc: Point,
    pub size: Size,
}

impl Point {
    pub fn new(x: i32, y: i32) -> (p: Point)
        ensures
            p == (Point { x, y }),
    {
        Point { x, y }
    }

    /// Component-wise saturating difference.
    pub open spec fn minus(self, other: Point) -> Point {
        Point { x: sat(self.x - other.x) as i32, y: sat(self.y - other.y) as i32 }
    }

    pub fn sub(self, other: Point) -> (p: Point)
        ensures
            p == self.minus(other),
    {
        Point { x: sat_sub(self.x, other.x), y: sat_sub(self.y, other.y) }
    }
}

impl Size {
    pub fn new(w: i32, h: i32) -> (s: Size)
        ensures
            s == (Size { w, h }),
    {
        Size { w, h }
    }

    /// True when the extent covers no pixel.
    pub open spec fn empty(self) -> bool {
        self.w <= 0 || self.h <= 0
    }

    /// Whether the width or the height is zero.
    pub fn is_empty(&self) -> (b: bool)
        ensures
            b == (self.w == 0 || self.h == 0),
    {
        self.w == 0 || self.h == 0
    }
}

impl Rect {
    pub fn new(loc: Point, size: Size) -> (r: Rect)
        ensures
            r == (Rect { loc, size }),
    {
        Rect { loc, size }
    }

    /// The rectangle at the origin with the given extent.
    pub fn from_size(size: Size) -> (r: Rect)
        ensures
            r == (Rect { loc: Point { x: 0, y: 0 }, size }),
    {
        Rect { loc: Point { x: 0, y: 0 }, size }
    }

    /// The empty rectangle at the origin.
    pub fn zero() -> (r: Rect)
        ensures
            r == Rect::origin(),
    {
        Rect { loc: Point { x: 0, y: 0 }, size: Size { w: 0, h: 0 } }
    }

    pub open spec fn origin() -> Rect {
        Rect { loc: Point { x: 0, y: 0 }, size: Size { w: 0, h: 0 } }
    }

    /// Whether the width or the height is zero.
    pub fn is_empty(&self) -> (b: bool)
        ensures
            b == (self.size.w == 0 || self.size.h == 0),
    {
        self.size.is_empty()
    }

    /// The rectangle covers a pixel: its width and its height are
    /// positive.
    pub open spec fn solid(self) -> bool {
        self.size.w > 0 && self.size.h > 0
    }

    pub fn is_solid(&self) -> (b: bool)
        ensures
            b == self.solid(),
    {
        self.size.w > 0 && self.size.h > 0
    }

    /// First column right of the rectangle.
    pub open spec fn right(self) -> int {
        sat(self.loc.x + self.size.w)
    }

    /// First row below the rectangle.
    pub open spec fn bottom(self) -> int {
        sat(self.loc.y + self.size.h)
    }

    /// Every coordinate and extent lies within `limit` of zero.
    pub open spec fn within(self, limit: int) -> bool {
        &&& -limit <= self.loc.x <= limit
        &&& -limit <= self.loc.y <= limit
        &&& -limit <= self.size.w <= limit
        &&& -limit <= self.size.h <= limit
    }

    /// The rectangle lies between `-limit` and `limit` on both axes.
    pub open spec fn spans(self, limit: int) -> bool {
        &&& -limit <= self.loc.x
        &&& -limit <= self.loc.y
        &&& self.loc.x + self.size.w <= limit
        &&& self.loc.y + self.size.h <= limit
    }

    /// Decides `within` for a non-negative limit.
    pub fn fits(&self, limit: i32) -> (b: bool)
        requires
            limit >= 0,
        ensures
            b == self.within(limit as int),
    {
        -limit <= self.loc.x && self.loc.x <= limit && -limit <= self.loc.y && self.loc.y <= limit
            && -limit <= self.size.w && self.size.w <= limit && -limit <= self.size.h
            && self.size.h <= limit
    }

    /// The pixel at `p` lies inside the rectangle.
    pub open spec fn has_point(self, p: Point) -> bool {
        &&& self.loc.x <= p.x < self.right()
        &&& self.loc.y <= p.y < self.bottom()
    }

    pub fn contains(&self, p: Point) -> (b: bool)
        ensures
            b == self.has_point(p),
    {
        p.x >= self.loc.x && p.x < sat_add(self.loc.x, self.size.w) && p.y >= self.loc.y && p.y
            < sat_add(self.loc.y, self.size.h)
    }

    /// `other` starts inside this rectangle and does not extend beyond it.
    pub open spec fn encloses(self, other: Rect) -> bool {
        &&& other.loc.x >= self.loc.x
        &&& other.loc.y >= self.loc.y
        &&& other.right() <= self.right()
        &&& other.bottom() <= self.bottom()
    }

    pub fn contains_rect(&self, other: Rect) -> (b: bool)
        ensures
            b == self.encloses(other),
    {
        other.loc.x >= self.loc.x && other.loc.y >= self.loc.y && sat_add(
            other.loc.x,
            other.size.w,
        ) <= sat_add(self.loc.x, self.size.w) && sat_add(other.loc.y, other.size.h) <= sat_add(
            self.loc.y,
            self.size.h,
        )
    }

    /// The two rectangles share at least one pixel. Rectangles that only
    /// touch do not.
    pub open spec fn meets(self, other: Rect) -> bool {
        &&& self.loc.x < other.right()
        &&& other.loc.x < self.right()
        &&& self.loc.y < other.bottom()
        &&& other.loc.y < self.bottom()
    }

    pub fn overlaps(&self, other: Rect) -> (b: bool)
        ensures
            b == self.meets(other),
    {
        self.loc.x < sat_add(other.loc.x, other.size.w) && other.loc.x < sat_add(
            self.loc.x,
            self.size.w,
        ) && self.loc.y < sat_add(other.loc.y, other.size.h) && other.loc.y < sat_add(
            self.loc.y,
            self.size.h,
        )
    }

    /// The common part of two rectangles that share a pixel.
    pub open spec fn common(self, other: Rect) -> Option<Rect> {
        if !self.meets(other) {
            None
        } else {
            let left = if self.loc.x >= other.loc.x { self.loc.x } else { other.loc.x };
            let top = if self.loc.y >= other.loc.y { self.loc.y } else { other.loc.y };
            let right = if self.right() <= other.right() { self.right() } else { other.right() };
            let bottom = if self.bottom() <= other.bottom() { self.bottom() } else { other.bottom() };
            Some(
                Rect {
                    loc: Point { x: left, y: top },
                    size: Size { w: sat(right - left) as i32, h: sat(bottom - top) as i32 },
                },
            )
        }
    }

    pub fn intersection(&self, other: Rect) -> (r: Option<Rect>)
        ensures
            r == self.common(other),
    {
        if !self.overlaps(other) {
            return None;
        }
        let left: i32 = if self.loc.x >= other.loc.x { self.loc.x } else { other.loc.x };
        let top: i32 = if self.loc.y >= other.loc.y { self.loc.y } else { other.loc.y };
        let sr: i32 = sat_add(self.loc.x, self.size.w);
        let or: i32 = sat_add(other.loc.x, other.size.w);
        let sb: i32 = sat_add(self.loc.y, self.size.h);
        let ob: i32 = sat_add(other.loc.y, other.size.h);
        let right: i32 = if sr <= or { sr } else { or };
        let bottom: i32 = if sb <= ob { sb } else { ob };
        Some(
            Rect {
                loc: Point { x: left, y: top },
                size: Size { w: sat_sub(right, left), h: sat_sub(bottom, top) },
            },
        )
    }
}

/// One of the rectangles holds the pixel `p`.
pub open spec fn covers(rects: Seq<Rect>, p: Point) -> bool {
    exists|i: int| 0 <= i < rects.len() && (#[trigger] rects[i]).has_point(p)
}

/// One of the rectangles encloses `r`.
pub open spec fn inside(rects: Seq<Rect>, r: Rect) -> bool {
    exists|i: int| 0 <= i < rects.len() && (#[trigger] rects[i]).encloses(r)
}

/// Two lists in a row cover what either covers.
pub proof fn lemma_covers_concat(a: Seq<Rect>, b: Seq<Rect>, p: Point)
    ensures
        covers(a + b, p) <==> covers(a, p) || covers(b, p),
{
    let s = a + b;
    if covers(s, p) {
        let i = choose|i: int| 0 <= i < s.len() && (#[trigger] s[i]).has_point(p);
        if i < a.len() {
            assert(a[i].has_point(p));
        } else {
            assert(b[i - a.len()].has_point(p));
        }
    }
    if covers(a, p) {
        let i = choose|i: int| 0 <= i < a.len() && (#[trigger] a[i]).has_point(p);
        assert(s[i].has_point(p));
    }
    if covers(b, p) {
        let i = choose|i: int| 0 <= i < b.len() && (#[trigger] b[i]).has_point(p);
        assert(s[a.len() + i].has_point(p));
    }
}

/// A rectangle of either of two lists in a row is one of the row.
pub proof fn lemma_inside_concat(a: Seq<Rect>, b: Seq<Rect>, r: Rect)
    ensures
        inside(a + b, r) <==> inside(a, r) || inside(b, r),
{
    let s = a + b;
    if inside(s, r) {
        let i = choose|i: int| 0 <= i < s.len() && (#[trigger] s[i]).encloses(r);
        if i < a.len() {
            assert(a[i].encloses(r));
        } else {
            assert(b[i - a.len()].encloses(r));
        }
    }
    if inside(a, r) {
        let i = choose|i: int| 0 <= i < a.len() && (#[trigger] a[i]).encloses(r);
        assert(s[i].encloses(r));
    }
    if inside(b, r) {
        let i = choose|i: int| 0 <= i < b.len() && (#[trigger] b[i]).encloses(r);
        assert(s[a.len() + i].encloses(r));
    }
}

/// The common part of two rectangles lies in both, and a pixel is in it
/// exactly when it is in both.
pub proof fn lemma_common_is_intersection(a: Rect, b: Rect, p: Point)
    ensures
        a.common(b) is Some <==> a.meets(b),
        a.common(b) is Some ==> a.encloses(a.common(b)->0) && b.encloses(a.common(b)->0),
        a.common(b) is Some ==> (a.common(b)->0.has_point(p) <==> a.has_point(p) && b.has_point(p)),
        a.common(b) is None ==> !(a.has_point(p) && b.has_point(p)),
{
}

} // verus!
