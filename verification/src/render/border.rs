//! The border of a window: four corners and four edges.

use crate::geometry::{Point, Rect, Size, GEO_LIMIT};
use crate::render::{rect_of, DECOR_LIMIT};
use vstd::prelude::*;

verus! {

/// One segment of a window's border.
#[derive(Clone, Copy, Debug, PartialEq, Eq, Structural)]
pub struct BorderPiece {
    /// Where the segment is drawn.
    pub rect: Rect,
    /// The segment's corner relative to the outer corner of the border.
    pub offset: Point,
    /// Extent of the window with its border.
    pub outer_size: Size,
    pub border_width: i32,
    /// Corner radius of the border's outer edge.
    pub outer_radius: i32,
    pub color: u32,
}

/// The eight segments of a border before the empty ones are left out:
/// clockwise from the top left corner, corners and edges in turn. A corner
/// is a square that covers the outer radius; an edge fills what the corners
/// leave.
pub open spec fn border_rects(win: Rect, radius: int, bw: int) -> Seq<Rect> {
    let c = radius + bw;
    let x = win.loc.x as int;
    let y = win.loc.y as int;
    let w = win.size.w as int;
    let h = win.size.h as int;
    let ox = x - bw;
    let oy = y - bw;
    let tw = w + 2 * bw;
    let th = h + 2 * bw;
    seq![
        rect_of(ox, oy, c, c),
        rect_of(ox + c, oy, tw - 2 * c, bw),
        rect_of(x + w + bw - c, oy, c, c),
        rect_of(x + w, oy + c, bw, th - 2 * c),
        rect_of(x + w + bw - c, y + h + bw - c, c, c),
        rect_of(ox + c, y + h, tw - 2 * c, bw),
        rect_of(ox, y + h + bw - c, c, c),
        rect_of(ox, oy + c, bw, th - 2 * c),
    ]
}

/// The border segment that is drawn at `rect`.
pub open spec fn piece_of(rect: Rect, win: Rect, radius: int, bw: int, color: u32) -> BorderPiece {
    BorderPiece {
        rect,
        offset: Point {
            x: (rect.loc.x - (win.loc.x - bw)) as i32,
            y: (rect.loc.y - (win.loc.y - bw)) as i32,
        },
        outer_size: Size { w: (win.size.w + 2 * bw) as i32, h: (win.size.h + 2 * bw) as i32 },
        border_width: bw as i32,
        outer_radius: (radius + bw) as i32,
        color,
    }
}

/// The segments drawn for the candidates `rects`: one for each that
/// covers a pixel, in order.
pub open spec fn pieces(rects: Seq<Rect>, win: Rect, radius: int, bw: int, color: u32) -> Seq<
    BorderPiece,
>
    decreases rects.len(),
{
    if rects.len() == 0 {
        Seq::empty()
    } else if rects.last().size.empty() {
        pieces(rects.drop_last(), win, radius, bw, color)
    } else {
        pieces(rects.drop_last(), win, radius, bw, color).push(
            piece_of(rects.last(), win, radius, bw, color),
        )
    }
}

/// The border of a window: up to eight segments.
pub open spec fn border_of(win: Rect, radius: int, bw: int, color: u32) -> Seq<BorderPiece> {
    pieces(border_rects(win, radius, bw), win, radius, bw, color)
}

/// A border has at most eight segments, and none of them is empty.
pub proof fn lemma_border_of(win: Rect, radius: int, bw: int, color: u32)
    ensures
        border_of(win, radius, bw, color).len() <= 8,
        forall|i: int|
            0 <= i < border_of(win, radius, bw, color).len() ==> !(#[trigger] border_of(
                win,
                radius,
                bw,
                color,
            )[i]).rect.size.empty(),
{
    lemma_pieces(border_rects(win, radius, bw), win, radius, bw, color);
}

/// The rectangle that a window takes up with its border.
pub open spec fn outer_rect(win: Rect, bw: int) -> Rect {
    rect_of(win.loc.x - bw, win.loc.y - bw, win.size.w + 2 * bw, win.size.h + 2 * bw)
}

/// Where the window with its border has room for its corners, the eight
/// segments lie within the outer rectangle and no two of them share a
/// pixel. With square corners none of them shares a pixel with the window.
pub proof fn lemma_border_ring(win: Rect, radius: int, bw: int, i: int, j: int)
    requires
        win.within(GEO_LIMIT as int),
        0 <= radius <= DECOR_LIMIT,
        0 <= bw <= DECOR_LIMIT,
        win.size.w + 2 * bw >= 2 * (radius + bw),
        win.size.h + 2 * bw >= 2 * (radius + bw),
        0 <= i < 8,
        0 <= j < 8,
    ensures
        outer_rect(win, bw).encloses(border_rects(win, radius, bw)[i]),
        i != j ==> !border_rects(win, radius, bw)[i].meets(border_rects(win, radius, bw)[j]),
        radius == 0 ==> !border_rects(win, radius, bw)[i].meets(win),
{
}

proof fn lemma_pieces(rects: Seq<Rect>, win: Rect, radius: int, bw: int, color: u32)
    ensures
        pieces(rects, win, radius, bw, color).len() <= rects.len(),
        forall|i: int|
            0 <= i < pieces(rects, win, radius, bw, color).len() ==> !(#[trigger] pieces(
                rects,
                win,
                radius,
                bw,
                color,
            )[i]).rect.size.empty(),
    decreases rects.len(),
{
    if rects.len() > 0 {
        lemma_pieces(rects.drop_last(), win, radius, bw, color);
    }
}

/// The segments of the border of `win`, empty ones left out.
pub fn elements(win: Rect, radius: i32, border_width: i32, color: u32) -> (pieces: Vec<BorderPiece>)
    requires
        win.within(GEO_LIMIT as int),
        0 <= radius <= DECOR_LIMIT,
        0 <= border_width <= DECOR_LIMIT,
    ensures
        pieces@ == border_of(win, radius as int, border_width as int, color),
{
    let bw: i32 = border_width;
    let c: i32 = radius + bw;
    let x: i32 = win.loc.x;
    let y: i32 = win.loc.y;
    let w: i32 = win.size.w;
    let h: i32 = win.size.h;
    let ox: i32 = x - bw;
    let oy: i32 = y - bw;
    let bw_total: i32 = w + 2 * bw;
    let bh_total: i32 = h + 2 * bw;
    let outer_size = Size { w: bw_total, h: bh_total };
    let rects: [Rect; 8] = [
        Rect { loc: Point { x: ox, y: oy }, size: Size { w: c, h: c } },
        Rect { loc: Point { x: ox + c, y: oy }, size: Size { w: bw_total - 2 * c, h: bw } },
        Rect { loc: Point { x: x + w + bw - c, y: oy }, size: Size { w: c, h: c } },
        Rect { loc: Point { x: x + w, y: oy + c }, size: Size { w: bw, h: bh_total - 2 * c } },
        Rect { loc: Point { x: x + w + bw - c, y: y + h + bw - c }, size: Size { w: c, h: c } },
        Rect { loc: Point { x: ox + c, y: y + h }, size: Size { w: bw_total - 2 * c, h: bw } },
        Rect { loc: Point { x: ox, y: y + h + bw - c }, size: Size { w: c, h: c } },
        Rect { loc: Point { x: ox, y: oy + c }, size: Size { w: bw, h: bh_total - 2 * c } },
    ];
    assert(rects@ =~= border_rects(win, radius as int, bw as int));
    let mut elems: Vec<BorderPiece> = Vec::new();
    let mut i: usize = 0;
    while i < 8
        invariant
            0 <= i <= 8,
            win.within(GEO_LIMIT as int),
            0 <= radius <= DECOR_LIMIT,
            0 <= bw <= DECOR_LIMIT,
            ox == x - bw,
            oy == y - bw,
            x == win.loc.x,
            y == win.loc.y,
            outer_size == (Size { w: (win.size.w + 2 * bw) as i32, h: (win.size.h + 2 * bw) as i32 }),
            c == radius + bw,
            rects@ == border_rects(win, radius as int, bw as int),
            elems@ == pieces(rects@.take(i as int), win, radius as int, bw as int, color),
        decreases 8 - i,
    {
        let rect = rects[i];
        proof {
            assert(rects@.take(i + 1).drop_last() =~= rects@.take(i as int));
            assert(rects@.take(i + 1).last() == rect);
        }
        if rect.size.w <= 0 || rect.size.h <= 0 {
        } else {
            elems.push(
                BorderPiece {
                    rect,
                    offset: Point { x: rect.loc.x - ox, y: rect.loc.y - oy },
                    outer_size,
                    border_width: bw,
                    outer_radius: c,
                    color,
                },
            );
        }
        i += 1;
    }
    assert(rects@.take(8) =~= rects@);
    elems
}

} // verus!
