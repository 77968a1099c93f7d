//! Regions as lists of rectangles: what is left of one list when another
//! is taken away.

use crate::geometry::{covers, inside, lemma_covers_concat, lemma_inside_concat, Point, Rect, Size};
use crate::render::rect_of;
use vstd::prelude::*;

verus! {

/// Farthest from the origin that a rectangle from which others are taken
/// away may reach.
pub const SPAN_LIMIT: i32 = 0x3fff_ffff;

/// The rectangle itself where it covers a pixel, nothing otherwise.
pub open spec fn keep(r: Rect) -> Seq<Rect> {
    if r.solid() {
        seq![r]
    } else {
        Seq::empty()
    }
}

/// What is left of `item` around its part `c`: the strip above the part
/// over the whole width, the strips left and right of it at its height,
/// and the strip below it over the whole width. Empty strips are left out.
pub open spec fn strips(item: Rect, c: Rect) -> Seq<Rect> {
    keep(rect_of(item.loc.x as int, item.loc.y as int, item.size.w as int, c.loc.y - item.loc.y))
        + keep(rect_of(item.loc.x as int, c.loc.y as int, c.loc.x - item.loc.x, c.size.h as int))
        + keep(
        rect_of(
            c.loc.x + c.size.w,
            c.loc.y as int,
            item.loc.x + item.size.w - (c.loc.x + c.size.w),
            c.size.h as int,
        ),
    ) + keep(
        rect_of(
            item.loc.x as int,
            c.loc.y + c.size.h,
            item.size.w as int,
            item.loc.y + item.size.h - (c.loc.y + c.size.h),
        ),
    )
}

/// What is left of `item` when `other` is taken away: `item` itself where
/// the two share no pixel, else the strips around their common part.
pub open spec fn pieces(item: Rect, other: Rect) -> Seq<Rect> {
    match item.common(other) {
        None => seq![item],
        Some(c) => strips(item, c),
    }
}

/// What is left of each rectangle of `rects` when `other` is taken away,
/// in the order of `rects`.
pub open spec fn cut_all(rects: Seq<Rect>, other: Rect) -> Seq<Rect>
    decreases rects.len(),
{
    if rects.len() == 0 {
        Seq::empty()
    } else {
        cut_all(rects.drop_last(), other) + pieces(rects.last(), other)
    }
}

/// The rectangles of `rects` that cover a pixel, in order.
pub open spec fn solids(rects: Seq<Rect>) -> Seq<Rect>
    decreases rects.len(),
{
    if rects.len() == 0 {
        Seq::empty()
    } else {
        solids(rects.drop_last()) + keep(rects.last())
    }
}

/// What is left of `rects` when every rectangle of `others` is taken away,
/// one after the other. A rectangle that covers no pixel takes nothing
/// away.
pub open spec fn subtracted(rects: Seq<Rect>, others: Seq<Rect>) -> Seq<Rect>
    decreases others.len(),
{
    if others.len() == 0 {
        solids(rects)
    } else if others.last().solid() {
        cut_all(subtracted(rects, others.drop_last()), others.last())
    } else {
        subtracted(rects, others.drop_last())
    }
}

/// Every rectangle of the list covers a pixel and lies within the span
/// limit.
pub open spec fn sound(rects: Seq<Rect>) -> bool {
    forall|i: int|
        0 <= i < rects.len() ==> (#[trigger] rects[i]).solid() && rects[i].spans(SPAN_LIMIT as int)
}

/// Two rectangles that cover a pixel each and meet share a pixel.
pub proof fn lemma_meets_shares(a: Rect, b: Rect) -> (p: Point)
    requires
        a.solid(),
        a.spans(SPAN_LIMIT as int),
        b.solid(),
        a.meets(b),
    ensures
        a.has_point(p),
        b.has_point(p),
{
    Point {
        x: if a.loc.x >= b.loc.x {
            a.loc.x
        } else {
            b.loc.x
        },
        y: if a.loc.y >= b.loc.y {
            a.loc.y
        } else {
            b.loc.y
        },
    }
}

/// The pieces of a rectangle cover what the rectangle covers and the
/// other does not. Each piece covers a pixel and lies in the rectangle.
pub proof fn lemma_pieces(item: Rect, other: Rect, p: Point)
    requires
        item.solid(),
        item.spans(SPAN_LIMIT as int),
        other.solid(),
    ensures
        covers(pieces(item, other), p) <==> item.has_point(p) && !other.has_point(p),
        sound(pieces(item, other)),
        forall|k: int|
            0 <= k < pieces(item, other).len() ==> item.encloses(#[trigger] pieces(item, other)[k]),
{
    match item.common(other) {
        None => {
            let s = seq![item];
            assert(s[0].has_point(p) == item.has_point(p));
            if covers(s, p) {
                let i = choose|i: int| 0 <= i < s.len() && (#[trigger] s[i]).has_point(p);
                assert(s[i] == item);
            }
        },
        Some(c) => {
            let top = rect_of(
                item.loc.x as int,
                item.loc.y as int,
                item.size.w as int,
                c.loc.y - item.loc.y,
            );
            let left = rect_of(
                item.loc.x as int,
                c.loc.y as int,
                c.loc.x - item.loc.x,
                c.size.h as int,
            );
            let right = rect_of(
                c.loc.x + c.size.w,
                c.loc.y as int,
                item.loc.x + item.size.w - (c.loc.x + c.size.w),
                c.size.h as int,
            );
            let bottom = rect_of(
                item.loc.x as int,
                c.loc.y + c.size.h,
                item.size.w as int,
                item.loc.y + item.size.h - (c.loc.y + c.size.h),
            );
            let a = keep(top);
            let b = keep(left);
            let d = keep(right);
            let e = keep(bottom);
            lemma_covers_concat(a, b, p);
            lemma_covers_concat(a + b, d, p);
            lemma_covers_concat(a + b + d, e, p);
            lemma_keep(top, p);
            lemma_keep(left, p);
            lemma_keep(right, p);
            lemma_keep(bottom, p);
            assert(c.has_point(p) <==> item.has_point(p) && other.has_point(p));
            let s = strips(item, c);
            assert(s == a + b + d + e);
            assert forall|k: int| 0 <= k < s.len() implies (#[trigger] s[k]).solid() && s[k].spans(
                SPAN_LIMIT as int,
            ) && item.encloses(s[k]) by {
                let r = s[k];
                if k < a.len() {
                    assert(r == a[k]);
                    assert(r == top);
                } else if k < a.len() + b.len() {
                    assert(r == b[k - a.len()]);
                    assert(r == left);
                } else if k < a.len() + b.len() + d.len() {
                    assert(r == d[k - a.len() - b.len()]);
                    assert(r == right);
                } else {
                    assert(r == e[k - a.len() - b.len() - d.len()]);
                    assert(r == bottom);
                }
                assert(item.loc.x <= c.loc.x && item.loc.y <= c.loc.y);
                assert(c.loc.x + c.size.w <= item.loc.x + item.size.w);
                assert(c.loc.y + c.size.h <= item.loc.y + item.size.h);
                assert(c.size.w > 0 && c.size.h > 0);
                assert(r.solid());
                assert(r.spans(SPAN_LIMIT as int));
                assert(item.encloses(r));
            }
        },
    }
}

/// What `keep` keeps covers what the rectangle covers.
pub proof fn lemma_keep(r: Rect, p: Point)
    ensures
        covers(keep(r), p) <==> r.has_point(p),
        forall|k: int| 0 <= k < keep(r).len() ==> (#[trigger] keep(r)[k]) == r && r.solid(),
{
    let s = keep(r);
    if covers(s, p) {
        let i = choose|i: int| 0 <= i < s.len() && (#[trigger] s[i]).has_point(p);
        assert(s[i] == r);
    }
    if r.has_point(p) {
        assert(r.solid());
        assert(s[0].has_point(p));
    }
}

/// What is left of a list when a rectangle is taken away covers what the
/// list covers and the rectangle does not. Each rectangle left covers a
/// pixel and lies in one of the list.
pub proof fn lemma_cut_all(rects: Seq<Rect>, other: Rect, p: Point)
    requires
        sound(rects),
        other.solid(),
    ensures
        covers(cut_all(rects, other), p) <==> covers(rects, p) && !other.has_point(p),
        sound(cut_all(rects, other)),
        forall|k: int|
            0 <= k < cut_all(rects, other).len() ==> inside(rects, #[trigger] cut_all(rects, other)[k]),
    decreases rects.len(),
{
    if rects.len() > 0 {
        let rest = rects.drop_last();
        let last = rects.last();
        assert(rects =~= rest + seq![last]);
        assert(sound(rest)) by {
            assert forall|i: int| 0 <= i < rest.len() implies (#[trigger] rest[i]).solid()
                && rest[i].spans(SPAN_LIMIT as int) by {
                assert(rest[i] == rects[i]);
            }
        }
        assert(rects[rects.len() - 1] == last);
        lemma_cut_all(rest, other, p);
        lemma_pieces(last, other, p);
        let a = cut_all(rest, other);
        let b = pieces(last, other);
        lemma_covers_concat(a, b, p);
        lemma_covers_concat(rest, seq![last], p);
        assert(covers(seq![last], p) <==> last.has_point(p)) by {
            let s = seq![last];
            if covers(s, p) {
                let i = choose|i: int| 0 <= i < s.len() && (#[trigger] s[i]).has_point(p);
                assert(s[i] == last);
            }
            if last.has_point(p) {
                assert(s[0].has_point(p));
            }
        }
        let out = cut_all(rects, other);
        assert forall|k: int| 0 <= k < out.len() implies (#[trigger] out[k]).solid() && out[k].spans(
            SPAN_LIMIT as int,
        ) && inside(rects, out[k]) by {
            lemma_inside_concat(rest, seq![last], out[k]);
            if k < a.len() {
                assert(out[k] == a[k]);
                assert(inside(rest, a[k]));
            } else {
                assert(out[k] == b[k - a.len()]);
                assert(last.encloses(b[k - a.len()]));
                assert(seq![last][0].encloses(out[k]));
            }
        }
    }
}

/// The rectangles of a list that cover a pixel cover what the list
/// covers.
pub proof fn lemma_solids(rects: Seq<Rect>, p: Point)
    requires
        forall|i: int|
            0 <= i < rects.len() && (#[trigger] rects[i]).solid() ==> rects[i].spans(SPAN_LIMIT as int),
    ensures
        covers(solids(rects), p) <==> covers(rects, p),
        sound(solids(rects)),
        forall|k: int| 0 <= k < solids(rects).len() ==> inside(rects, #[trigger] solids(rects)[k]),
    decreases rects.len(),
{
    if rects.len() > 0 {
        let rest = rects.drop_last();
        let last = rects.last();
        assert(rects =~= rest + seq![last]);
        assert forall|i: int| 0 <= i < rest.len() && (#[trigger] rest[i]).solid()
            implies rest[i].spans(SPAN_LIMIT as int) by {
            assert(rest[i] == rects[i]);
        }
        assert(rects[rects.len() - 1] == last);
        lemma_solids(rest, p);
        lemma_keep(last, p);
        let a = solids(rest);
        let b = keep(last);
        lemma_covers_concat(a, b, p);
        lemma_covers_concat(rest, seq![last], p);
        assert(covers(seq![last], p) <==> last.has_point(p)) by {
            let s = seq![last];
            if covers(s, p) {
                let i = choose|i: int| 0 <= i < s.len() && (#[trigger] s[i]).has_point(p);
                assert(s[i] == last);
            }
            if last.has_point(p) {
                assert(s[0].has_point(p));
            }
        }
        let out = solids(rects);
        assert forall|k: int| 0 <= k < out.len() implies (#[trigger] out[k]).solid() && out[k].spans(
            SPAN_LIMIT as int,
        ) && inside(rects, out[k]) by {
            lemma_inside_concat(rest, seq![last], out[k]);
            if k < a.len() {
                assert(out[k] == a[k]);
                assert(inside(rest, a[k]));
            } else {
                assert(out[k] == b[k - a.len()]);
                assert(out[k] == last);
                assert(seq![last][0].encloses(out[k]));
            }
        }
    }
}

/// A rectangle in one of a list whose rectangles each lie in one of
/// another list lies in one of that other list.
pub proof fn lemma_inside_chain(outer: Seq<Rect>, mid: Seq<Rect>, r: Rect)
    requires
        inside(mid, r),
        forall|k: int| 0 <= k < mid.len() ==> inside(outer, #[trigger] mid[k]),
    ensures
        inside(outer, r),
{
    let k = choose|k: int| 0 <= k < mid.len() && (#[trigger] mid[k]).encloses(r);
    assert(inside(outer, mid[k]));
    let j = choose|j: int| 0 <= j < outer.len() && (#[trigger] outer[j]).encloses(mid[k]);
    assert(outer[j].encloses(r));
}

/// What is left of a list when others are taken away covers exactly what
/// the list covers and none of the others does. Each rectangle left covers
/// a pixel and lies in one of the list.
pub proof fn lemma_subtracted(rects: Seq<Rect>, others: Seq<Rect>, p: Point)
    requires
        forall|i: int|
            0 <= i < rects.len() && (#[trigger] rects[i]).solid() ==> rects[i].spans(SPAN_LIMIT as int),
    ensures
        covers(subtracted(rects, others), p) <==> covers(rects, p) && !covers(others, p),
        sound(subtracted(rects, others)),
        forall|k: int|
            0 <= k < subtracted(rects, others).len() ==> inside(
                rects,
                #[trigger] subtracted(rects, others)[k],
            ),
    decreases others.len(),
{
    if others.len() == 0 {
        lemma_solids(rects, p);
    } else {
        let rest = others.drop_last();
        let last = others.last();
        assert(others =~= rest + seq![last]);
        lemma_subtracted(rects, rest, p);
        lemma_covers_concat(rest, seq![last], p);
        assert(covers(seq![last], p) <==> last.has_point(p)) by {
            let s = seq![last];
            if covers(s, p) {
                let i = choose|i: int| 0 <= i < s.len() && (#[trigger] s[i]).has_point(p);
                assert(s[i] == last);
            }
            if last.has_point(p) {
                assert(s[0].has_point(p));
            }
        }
        let before = subtracted(rects, rest);
        if last.solid() {
            lemma_cut_all(before, last, p);
            let out = cut_all(before, last);
            assert forall|k: int| 0 <= k < out.len() implies inside(rects, #[trigger] out[k]) by {
                lemma_inside_chain(rects, before, out[k]);
            }
        } else {
            assert(!last.has_point(p));
        }
    }
}

/// No rectangle that is left shares a pixel with one that was taken away,
/// and none meets one that covers a pixel.
pub proof fn lemma_subtracted_apart(rects: Seq<Rect>, others: Seq<Rect>, i: int, k: int)
    requires
        forall|j: int|
            0 <= j < rects.len() && (#[trigger] rects[j]).solid() ==> rects[j].spans(SPAN_LIMIT as int),
        0 <= i < subtracted(rects, others).len(),
        0 <= k < others.len(),
        others[k].solid(),
    ensures
        !subtracted(rects, others)[i].meets(others[k]),
{
    let left = subtracted(rects, others);
    lemma_subtracted(rects, others, Point { x: 0, y: 0 });
    if left[i].meets(others[k]) {
        let p = lemma_meets_shares(left[i], others[k]);
        lemma_subtracted(rects, others, p);
        assert(covers(left, p));
        assert(others[k].has_point(p));
        assert(covers(others, p));
    }
}

/// Appends what is left of `item` when `other` is taken away.
fn cut(item: Rect, other: Rect, out: &mut Vec<Rect>)
    requires
        item.solid(),
        item.spans(SPAN_LIMIT as int),
        other.solid(),
    ensures
        final(out)@ == old(out)@ + pieces(item, other),
{
    match item.intersection(other) {
        None => {
            out.push(item);
            assert(out@ =~= old(out)@ + pieces(item, other));
        },
        Some(c) => {
            let top = Rect {
                loc: item.loc,
                size: Size { w: item.size.w, h: c.loc.y - item.loc.y },
            };
            let left = Rect {
                loc: Point { x: item.loc.x, y: c.loc.y },
                size: Size { w: c.loc.x - item.loc.x, h: c.size.h },
            };
            let right = Rect {
                loc: Point { x: c.loc.x + c.size.w, y: c.loc.y },
                size: Size { w: item.loc.x + item.size.w - (c.loc.x + c.size.w), h: c.size.h },
            };
            let bottom = Rect {
                loc: Point { x: item.loc.x, y: c.loc.y + c.size.h },
                size: Size { w: item.size.w, h: item.loc.y + item.size.h - (c.loc.y + c.size.h) },
            };
            if top.is_solid() {
                out.push(top);
            }
            if left.is_solid() {
                out.push(left);
            }
            if right.is_solid() {
                out.push(right);
            }
            if bottom.is_solid() {
                out.push(bottom);
            }
            assert(out@ =~= old(out)@ + strips(item, c));
        },
    }
}

/// What is left of each rectangle of `rects` when `other` is taken away.
fn cut_each(rects: &Vec<Rect>, other: Rect) -> (out: Vec<Rect>)
    requires
        sound(rects@),
        other.solid(),
    ensures
        out@ == cut_all(rects@, other),
{
    let mut out: Vec<Rect> = Vec::new();
    let mut i: usize = 0;
    while i < rects.len()
        invariant
            0 <= i <= rects.len(),
            sound(rects@),
            other.solid(),
            out@ == cut_all(rects@.take(i as int), other),
        decreases rects.len() - i,
    {
        proof {
            assert(rects@.take(i + 1).drop_last() =~= rects@.take(i as int));
            assert(rects@.take(i + 1).last() == rects@[i as int]);
        }
        cut(rects[i], other, &mut out);
        i += 1;
    }
    assert(rects@.take(rects.len() as int) =~= rects@);
    out
}

/// The rectangles of `rects` that cover a pixel.
fn keep_solid(rects: &Vec<Rect>) -> (out: Vec<Rect>)
    ensures
        out@ == solids(rects@),
{
    let mut out: Vec<Rect> = Vec::new();
    let mut i: usize = 0;
    while i < rects.len()
        invariant
            0 <= i <= rects.len(),
            out@ == solids(rects@.take(i as int)),
        decreases rects.len() - i,
    {
        proof {
            assert(rects@.take(i + 1).drop_last() =~= rects@.take(i as int));
            assert(rects@.take(i + 1).last() == rects@[i as int]);
        }
        if rects[i].is_solid() {
            out.push(rects[i]);
        }
        assert(out@ =~= solids(rects@.take(i as int)) + keep(rects@[i as int]));
        i += 1;
    }
    assert(rects@.take(rects.len() as int) =~= rects@);
    out
}

/// Takes every rectangle of `others` away from the rectangles of `rects`.
/// What is left covers exactly the pixels that `rects` covers and `others`
/// does not, in rectangles that each lie in one of `rects`.
pub fn subtract_rects(rects: &Vec<Rect>, others: &Vec<Rect>) -> (left: Vec<Rect>)
    requires
        forall|i: int|
            0 <= i < rects.len() && (#[trigger] rects[i]).solid() ==> rects[i].spans(SPAN_LIMIT as int),
    ensures
        left@ == subtracted(rects@, others@),
        forall|p: Point| #[trigger] covers(left@, p) <==> covers(rects@, p) && !covers(others@, p),
        forall|i: int| 0 <= i < left.len() ==> (#[trigger] left[i]).solid() && inside(rects@, left[i]),
        forall|i: int, k: int|
            0 <= i < left.len() && 0 <= k < others.len() && others[k].solid() ==> !(#[trigger] left[i]).meets(
                #[trigger] others[k],
            ),
{
    let mut left = keep_solid(rects);
    let mut k: usize = 0;
    assert(others@.take(0) =~= Seq::<Rect>::empty());
    while k < others.len()
        invariant
            0 <= k <= others.len(),
            forall|i: int|
            0 <= i < rects.len() && (#[trigger] rects[i]).solid() ==> rects[i].spans(SPAN_LIMIT as int),
            left@ == subtracted(rects@, others@.take(k as int)),
        decreases others.len() - k,
    {
        proof {
            assert(others@.take(k + 1).drop_last() =~= others@.take(k as int));
            assert(others@.take(k + 1).last() == others@[k as int]);
            lemma_subtracted(rects@, others@.take(k as int), Point { x: 0, y: 0 });
        }
        if others[k].is_solid() {
            left = cut_each(&left, others[k]);
        }
        k += 1;
    }
    proof {
        assert(others@.take(others.len() as int) =~= others@);
        lemma_subtracted(rects@, others@, Point { x: 0, y: 0 });
        assert forall|p: Point| #[trigger] covers(left@, p) <==> covers(rects@, p) && !covers(others@, p) by {
            lemma_subtracted(rects@, others@, p);
        }
        assert forall|i: int, k: int|
            0 <= i < left.len() && 0 <= k < others.len() && others[k].solid()
            implies !(#[trigger] left[i]).meets(#[trigger] others[k]) by {
            lemma_subtracted_apart(rects@, others@, i, k);
        }
    }
    left
}

} // verus!
