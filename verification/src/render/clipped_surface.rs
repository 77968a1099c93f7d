//! Clipping of a surface to the rectangle of its window: which surfaces
//! need it, and what it does to their damage and their opaque regions.

use crate::geometry::{covers, inside, Point, Rect, Size, GEO_LIMIT};
use crate::render::region::{subtract_rects, subtracted, SPAN_LIMIT};
use crate::render::DECOR_LIMIT;
use vstd::prelude::*;

verus! {

/// The parts of the rectangles of `rects` that lie in `clip`, in order.
/// A rectangle that shares no pixel with `clip` leaves nothing.
pub open spec fn clipped(rects: Seq<Rect>, clip: Rect) -> Seq<Rect>
    decreases rects.len(),
{
    if rects.len() == 0 {
        rects
    } else {
        match rects.last().common(clip) {
            Some(part) => clipped(rects.drop_last(), clip).push(part),
            None => clipped(rects.drop_last(), clip),
        }
    }
}

/// Every clipped part lies in the clip rectangle and in one of the
/// rectangles, and there are no more parts than rectangles.
pub proof fn lemma_clipped(rects: Seq<Rect>, clip: Rect)
    ensures
        clipped(rects, clip).len() <= rects.len(),
        forall|i: int|
            0 <= i < clipped(rects, clip).len() ==> clip.encloses(#[trigger] clipped(rects, clip)[i])
                && inside(rects, clipped(rects, clip)[i]),
    decreases rects.len(),
{
    if rects.len() > 0 {
        let rest = rects.drop_last();
        lemma_clipped(rest, clip);
        crate::geometry::lemma_common_is_intersection(rects.last(), clip, Point { x: 0, y: 0 });
        let out = clipped(rects, clip);
        let sub = clipped(rest, clip);
        assert forall|i: int| 0 <= i < out.len() implies clip.encloses(#[trigger] out[i]) && inside(
            rects,
            out[i],
        ) by {
            if i < sub.len() {
                assert(out[i] == sub[i]);
                assert(inside(rest, sub[i]));
                let j = choose|j: int| 0 <= j < rest.len() && (#[trigger] rest[j]).encloses(sub[i]);
                assert(rects[j].encloses(out[i]));
            } else {
                assert(rects[rects.len() - 1].encloses(out[i]));
            }
        }
    }
}

/// A pixel lies in a clipped part exactly when it lies in the clip
/// rectangle and in one of the rectangles.
pub proof fn lemma_clipped_pixels(rects: Seq<Rect>, clip: Rect, p: Point)
    ensures
        covers(clipped(rects, clip), p) <==> clip.has_point(p) && covers(rects, p),
    decreases rects.len(),
{
    let out = clipped(rects, clip);
    if rects.len() > 0 {
        let rest = rects.drop_last();
        let sub = clipped(rest, clip);
        lemma_clipped_pixels(rest, clip, p);
        crate::geometry::lemma_common_is_intersection(rects.last(), clip, p);
        if covers(out, p) {
            let i = choose|i: int| 0 <= i < out.len() && (#[trigger] out[i]).has_point(p);
            if i < sub.len() {
                assert(sub[i].has_point(p));
                let j = choose|j: int| 0 <= j < rest.len() && (#[trigger] rest[j]).has_point(p);
                assert(rects[j].has_point(p));
            } else {
                assert(rects[rects.len() - 1].has_point(p));
            }
        }
        if clip.has_point(p) && covers(rects, p) {
            let j = choose|j: int| 0 <= j < rects.len() && (#[trigger] rects[j]).has_point(p);
            if j < rest.len() {
                assert(rest[j].has_point(p));
                let i = choose|i: int| 0 <= i < sub.len() && (#[trigger] sub[i]).has_point(p);
                assert(out[i].has_point(p));
            } else {
                assert(out[out.len() - 1].has_point(p));
            }
        }
    }
}

/// The parts of the rectangles of `rects` that lie in `clip`.
pub fn clip_rects(rects: &Vec<Rect>, clip: Rect) -> (parts: Vec<Rect>)
    ensures
        parts@ == clipped(rects@, clip),
{
    let mut parts: Vec<Rect> = Vec::new();
    let mut i: usize = 0;
    while i < rects.len()
        invariant
            0 <= i <= rects.len(),
            parts@ == clipped(rects@.take(i as int), clip),
        decreases rects.len() - i,
    {
        proof {
            assert(rects@.take(i + 1).drop_last() =~= rects@.take(i as int));
            assert(rects@.take(i + 1).last() == rects@[i as int]);
        }
        match rects[i].intersection(clip) {
            Some(part) => {
                parts.push(part);
            },
            None => {},
        }
        i += 1;
    }
    assert(rects@.take(rects.len() as int) =~= rects@);
    parts
}

/// A surface element clipped to the rectangle of its window, with rounded
/// corners.
#[derive(Clone, Copy, Debug, PartialEq, Eq, Structural)]
pub struct ClippedSurface {
    /// Rectangle of the window, in the coordinates of the output.
    pub geo: Rect,
    /// Radius of the rounded corners.
    pub radius: i32,
    /// Top-left corner of the surface element, in the coordinates of the
    /// output.
    pub origin: Point,
}

impl ClippedSurface {
    /// The clip is one that the corner arithmetic accepts: the window's
    /// rectangle and the element's corner lie within the limit for window
    /// rectangles, and the radius within that for decorations.
    pub open spec fn wf(self) -> bool {
        &&& self.geo.within(GEO_LIMIT as int)
        &&& -GEO_LIMIT <= self.origin.x <= GEO_LIMIT
        &&& -GEO_LIMIT <= self.origin.y <= GEO_LIMIT
        &&& 0 <= self.radius <= DECOR_LIMIT
    }

    /// Decides `wf`.
    pub fn is_wf(&self) -> (b: bool)
        ensures
            b == self.wf(),
    {
        self.geo.fits(GEO_LIMIT) && -GEO_LIMIT <= self.origin.x && self.origin.x <= GEO_LIMIT
            && -GEO_LIMIT <= self.origin.y && self.origin.y <= GEO_LIMIT && 0 <= self.radius
            && self.radius <= DECOR_LIMIT
    }

    pub fn new(geo: Rect, radius: i32, origin: Point) -> (c: ClippedSurface)
        ensures
            c == (ClippedSurface { geo, radius, origin }),
    {
        ClippedSurface { geo, radius, origin }
    }

    /// A surface element needs clipping where the corners are rounded or
    /// the element reaches beyond the window.
    pub open spec fn needs_clip(elem: Rect, geo: Rect, radius: i32) -> bool {
        radius > 0 || !geo.encloses(elem)
    }

    pub fn will_clip(elem: Rect, geo: Rect, radius: i32) -> (b: bool)
        ensures
            b == Self::needs_clip(elem, geo, radius),
    {
        if radius > 0 {
            return true;
        }
        !geo.contains_rect(elem)
    }

    /// The window's rectangle in the coordinates of the element.
    pub open spec fn local_clip(self) -> Rect {
        Rect { loc: self.geo.loc.minus(self.origin), size: self.geo.size }
    }

    pub fn clip_rect(&self) -> (r: Rect)
        ensures
            r == self.local_clip(),
    {
        Rect { loc: self.geo.loc.sub(self.origin), size: self.geo.size }
    }

    /// The damage of the clipped element: the parts of the inner
    /// element's damage that lie in the window.
    pub fn damage_since(&self, inner: &Vec<Rect>) -> (damage: Vec<Rect>)
        ensures
            damage@ == clipped(inner@, self.local_clip()),
    {
        clip_rects(inner, self.clip_rect())
    }

    /// A square of the corner radius at `corner`, in the coordinates of
    /// the element.
    pub open spec fn corner_at(self, corner: Point) -> Rect {
        Rect { loc: corner.minus(self.origin), size: Size { w: self.radius, h: self.radius } }
    }

    /// The squares that cover the four rounded corners: top left, top
    /// right, bottom right, bottom left.
    pub open spec fn corner_squares(self) -> Seq<Rect> {
        let g = self.geo;
        let r = self.radius;
        seq![
            self.corner_at(g.loc),
            self.corner_at(Point { x: (g.loc.x + g.size.w - r) as i32, y: g.loc.y }),
            self.corner_at(
                Point { x: (g.loc.x + g.size.w - r) as i32, y: (g.loc.y + g.size.h - r) as i32 },
            ),
            self.corner_at(Point { x: g.loc.x, y: (g.loc.y + g.size.h - r) as i32 }),
        ]
    }

    pub fn corners(&self) -> (squares: Vec<Rect>)
        requires
            self.wf(),
        ensures
            squares@ == self.corner_squares(),
    {
        let g = self.geo;
        let r = self.radius;
        let size = Size { w: r, h: r };
        let right: i32 = g.loc.x + g.size.w - r;
        let bottom: i32 = g.loc.y + g.size.h - r;
        let mut squares: Vec<Rect> = Vec::new();
        squares.push(Rect { loc: g.loc.sub(self.origin), size });
        squares.push(Rect { loc: Point { x: right, y: g.loc.y }.sub(self.origin), size });
        squares.push(Rect { loc: Point { x: right, y: bottom }.sub(self.origin), size });
        squares.push(Rect { loc: Point { x: g.loc.x, y: bottom }.sub(self.origin), size });
        assert(squares@ =~= self.corner_squares());
        squares
    }

    /// The opaque region of the clipped element: the parts of the inner
    /// element's opaque rectangles that lie in the window, less the four
    /// corner squares. A corner is never opaque, whatever lies beneath it.
    pub fn opaque_regions(&self, inner: &Vec<Rect>) -> (opaque: Vec<Rect>)
        requires
            self.wf(),
        ensures
            opaque@ == subtracted(clipped(inner@, self.local_clip()), self.corner_squares()),
            forall|p: Point| #[trigger]
                covers(opaque@, p) <==> self.local_clip().has_point(p) && covers(inner@, p) && !covers(
                    self.corner_squares(),
                    p,
                ),
            forall|i: int|
                0 <= i < opaque.len() ==> (#[trigger] opaque[i]).solid() && self.local_clip().encloses(
                    opaque[i],
                ) && inside(inner@, opaque[i]),
            forall|i: int, k: int|
                0 <= i < opaque.len() && 0 <= k < 4 ==> !(#[trigger] opaque[i]).meets(
                    #[trigger] self.corner_squares()[k],
                ),
    {
        let clip = self.clip_rect();
        let parts = clip_rects(inner, clip);
        let corners = self.corners();
        proof {
            lemma_clipped(inner@, clip);
            assert forall|i: int| 0 <= i < parts.len() && (#[trigger] parts[i]).solid()
                implies parts[i].spans(SPAN_LIMIT as int) by {
                assert(clip.encloses(parts[i]));
            }
        }
        let opaque = subtract_rects(&parts, &corners);
        proof {
            assert forall|p: Point| #[trigger]
                covers(opaque@, p) <==> clip.has_point(p) && covers(inner@, p) && !covers(corners@, p) by {
                lemma_clipped_pixels(inner@, clip, p);
            }
            assert forall|i: int| 0 <= i < opaque.len()
                implies (#[trigger] opaque[i]).solid() && clip.encloses(opaque[i]) && inside(
                inner@,
                opaque[i],
            ) by {
                let part = choose|j: int| 0 <= j < parts.len() && (#[trigger] parts[j]).encloses(opaque[i]);
                assert(clip.encloses(parts[part]));
                assert(inside(inner@, parts[part]));
                let j = choose|j: int| 0 <= j < inner.len() && (#[trigger] inner[j]).encloses(parts[part]);
                assert(inner[j].encloses(opaque[i]));
            }
            assert forall|i: int, k: int| 0 <= i < opaque.len() && 0 <= k < 4
                implies !(#[trigger] opaque[i]).meets(#[trigger] corners[k]) by {
                assert(clip.encloses(opaque[i]));
                assert(opaque[i].solid());
                if corners[k].solid() {
                } else {
                    assert(self.radius == 0);
                }
            }
        }
        opaque
    }
}

} // verus!
