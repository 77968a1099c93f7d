//! Composition of a frame: the order of its elements and the decoration of
//! each window.

pub mod border;
pub mod clipped_surface;
pub mod region;

use crate::config::{
    BORDER_COLOR, BORDER_WIDTH, FLOATING_RADIUS, FOCUS_COLOR, ROOT_COLOR, SHADOW_COLOR,
    SHADOW_OFFSET_X, SHADOW_OFFSET_Y, SHADOW_SOFTNESS, SHADOW_SPREAD, SINGLE_BORDER, TILED_RADIUS,
};
use crate::geometry::{Point, Rect, Size, GEO_LIMIT};
use crate::render::border::{border_of, elements, BorderPiece};
use crate::shell::monitor::MonitorView;
use crate::shell::window::{SurfaceId, WindowElement};
use vstd::prelude::*;

verus! {

/// Largest border width and corner radius that the decoration arithmetic
/// accepts.
pub const DECOR_LIMIT: i32 = 0x1_0000;

/// Colour, corner radius and border width of a window.
#[derive(Clone, Copy, Debug, PartialEq, Eq, Structural)]
pub struct Style {
    pub color: u32,
    pub radius: i32,
    pub border_width: i32,
}

/// The style of a window by placement and focus. Only an unfocused
/// floating window has no border.
pub open spec fn style_of(floating: bool, focused: bool) -> Style {
    if floating {
        if focused {
            Style { color: FOCUS_COLOR, radius: FLOATING_RADIUS, border_width: BORDER_WIDTH }
        } else {
            Style { color: BORDER_COLOR, radius: FLOATING_RADIUS, border_width: 0 }
        }
    } else {
        if focused {
            Style { color: FOCUS_COLOR, radius: TILED_RADIUS, border_width: BORDER_WIDTH }
        } else {
            Style { color: BORDER_COLOR, radius: TILED_RADIUS, border_width: BORDER_WIDTH }
        }
    }
}

pub fn window_style(floating: bool, focused: bool) -> (style: Style)
    ensures
        style == style_of(floating, focused),
{
    if floating {
        if focused {
            Style { color: FOCUS_COLOR, radius: FLOATING_RADIUS, border_width: BORDER_WIDTH }
        } else {
            Style { color: BORDER_COLOR, radius: FLOATING_RADIUS, border_width: 0 }
        }
    } else {
        if focused {
            Style { color: FOCUS_COLOR, radius: TILED_RADIUS, border_width: BORDER_WIDTH }
        } else {
            Style { color: BORDER_COLOR, radius: TILED_RADIUS, border_width: BORDER_WIDTH }
        }
    }
}

/// The rectangle at `(x, y)` of extent `(w, h)`.
pub open spec fn rect_of(x: int, y: int, w: int, h: int) -> Rect {
    Rect { loc: Point { x: x as i32, y: y as i32 }, size: Size { w: w as i32, h: h as i32 } }
}

/// How far the blur of the shadow reaches: three standard deviations,
/// rounded up.
pub open spec fn blur_reach() -> int {
    (3 * SHADOW_SOFTNESS + 1) / 2
}

/// How far the shadow's footprint reaches beyond the window on the left
/// and on the right.
pub open spec fn shadow_pad_x() -> int {
    BORDER_WIDTH + blur_reach() + SHADOW_SPREAD + (if SHADOW_OFFSET_X >= 0 {
        SHADOW_OFFSET_X as int
    } else {
        -SHADOW_OFFSET_X
    })
}

/// How far the shadow's footprint reaches beyond the window above and
/// below.
pub open spec fn shadow_pad_y() -> int {
    BORDER_WIDTH + blur_reach() + SHADOW_SPREAD + (if SHADOW_OFFSET_Y >= 0 {
        SHADOW_OFFSET_Y as int
    } else {
        -SHADOW_OFFSET_Y
    })
}

/// The soft shadow of a floating window.
#[derive(Clone, Copy, Debug, PartialEq, Eq, Structural)]
pub struct Shadow {
    /// Footprint of the shadow element.
    pub rect: Rect,
    /// Extent of the window.
    pub win_size: Size,
    /// The window's corner relative to the footprint's.
    pub win_offset: Point,
    /// Corner radius of the border's outer edge.
    pub outer_radius: i32,
    /// Extent of the box that casts the shadow.
    pub box_size: Size,
    /// The box's corner relative to the footprint's.
    pub box_offset: Point,
    pub color: u32,
}

/// The shadow of the window at `win`. Its footprint is the window's
/// rectangle padded on every side so that the blurred box lies inside.
pub open spec fn shadow_of(win: Rect, radius: int, bw: int) -> Shadow {
    let px = shadow_pad_x();
    let py = shadow_pad_y();
    Shadow {
        rect: rect_of(win.loc.x - px, win.loc.y - py, win.size.w + 2 * px, win.size.h + 2 * py),
        win_size: win.size,
        win_offset: Point { x: px as i32, y: py as i32 },
        outer_radius: (radius + bw) as i32,
        box_size: Size {
            w: (win.size.w + 2 * SHADOW_SPREAD) as i32,
            h: (win.size.h + 2 * SHADOW_SPREAD) as i32,
        },
        box_offset: Point {
            x: (px - SHADOW_SPREAD + SHADOW_OFFSET_X) as i32,
            y: (py - SHADOW_SPREAD + SHADOW_OFFSET_Y) as i32,
        },
        color: SHADOW_COLOR,
    }
}

/// The box that casts the shadow, blurred, lies inside the footprint.
pub proof fn lemma_shadow_footprint(win: Rect, radius: int, bw: int)
    requires
        win.within(GEO_LIMIT as int),
        win.size.w >= 0,
        win.size.h >= 0,
    ensures
        ({
            let s = shadow_of(win, radius, bw);
            &&& s.box_offset.x - blur_reach() >= 0
            &&& s.box_offset.y - blur_reach() >= 0
            &&& s.box_offset.x + s.box_size.w + blur_reach() <= s.rect.size.w
            &&& s.box_offset.y + s.box_size.h + blur_reach() <= s.rect.size.h
            &&& s.rect.loc.x + s.win_offset.x == win.loc.x
            &&& s.rect.loc.y + s.win_offset.y == win.loc.y
        }),
{
}

pub fn shadow(win: Rect, radius: i32, border_width: i32) -> (s: Shadow)
    requires
        win.within(GEO_LIMIT as int),
        0 <= radius <= DECOR_LIMIT,
        0 <= border_width <= DECOR_LIMIT,
    ensures
        s == shadow_of(win, radius as int, border_width as int),
{
    let blur: i32 = (3 * SHADOW_SOFTNESS + 1) / 2;
    let off_x: i32 = if SHADOW_OFFSET_X >= 0 {
        SHADOW_OFFSET_X
    } else {
        -SHADOW_OFFSET_X
    };
    let off_y: i32 = if SHADOW_OFFSET_Y >= 0 {
        SHADOW_OFFSET_Y
    } else {
        -SHADOW_OFFSET_Y
    };
    let pad_x: i32 = BORDER_WIDTH + blur + SHADOW_SPREAD + off_x;
    let pad_y: i32 = BORDER_WIDTH + blur + SHADOW_SPREAD + off_y;
    Shadow {
        rect: Rect {
            loc: Point { x: win.loc.x - pad_x, y: win.loc.y - pad_y },
            size: Size { w: win.size.w + 2 * pad_x, h: win.size.h + 2 * pad_y },
        },
        win_size: win.size,
        win_offset: Point { x: pad_x, y: pad_y },
        outer_radius: radius + border_width,
        box_size: Size { w: win.size.w + 2 * SHADOW_SPREAD, h: win.size.h + 2 * SHADOW_SPREAD },
        box_offset: Point {
            x: pad_x - SHADOW_SPREAD + SHADOW_OFFSET_X,
            y: pad_y - SHADOW_SPREAD + SHADOW_OFFSET_Y,
        },
        color: SHADOW_COLOR,
    }
}

/// The layers of surfaces that are no windows, from the bottom up.
#[derive(Clone, Copy, Debug, PartialEq, Eq, Structural)]
pub enum Layer {
    Background,
    Bottom,
    Top,
    Overlay,
}

/// How the surfaces of a window are clipped.
#[derive(Clone, Copy, Debug, PartialEq, Eq, Structural)]
pub enum Clip {
    /// Not at all: the window fills its rectangle.
    Never,
    /// To the window's rectangle, with rounded corners, each surface that
    /// needs it.
    Window { rect: Rect, radius: i32 },
}

/// A window of the active tag with what the frame needs besides its
/// record.
#[derive(Clone, Copy, Debug, PartialEq, Eq, Structural)]
pub struct Visible {
    pub window: WindowElement,
    /// Where the window's content starts within its surface.
    pub buffer_loc: Point,
}

/// One element of a frame.
#[derive(Clone, Copy, Debug, PartialEq, Eq, Structural)]
pub enum FrameElement {
    /// The popups of every layer surface.
    LayerPopups,
    /// The surfaces of one layer.
    Layer(Layer),
    /// The popups of a window, unclipped.
    Popups { surface: SurfaceId, origin: Point },
    /// The surfaces of a window.
    Surface { surface: SurfaceId, origin: Point, clip: Clip },
    Border(BorderPiece),
    /// The fill behind a window.
    Background { rect: Rect, radius: i32, color: u32 },
    Shadow(Shadow),
}

/// Number of tiled windows among `windows`.
pub open spec fn tiled_count(windows: Seq<Visible>) -> nat
    decreases windows.len(),
{
    if windows.len() == 0 {
        0
    } else {
        tiled_count(windows.drop_last()) + if windows.last().window.floating {
            0nat
        } else {
            1nat
        }
    }
}

/// A lone tiled window fills its rectangle: it is neither clipped nor
/// decorated.
pub open spec fn full_bleed(v: Visible, tiled: nat) -> bool {
    !SINGLE_BORDER && tiled == 1 && !v.window.floating
}

/// The border segments as elements of a frame.
pub open spec fn border_elements(ps: Seq<BorderPiece>) -> Seq<FrameElement> {
    Seq::new(ps.len(), |i: int| FrameElement::Border(ps[i]))
}

/// The elements of one window, topmost first: its popups, its surfaces,
/// its border, the fill behind it and, for a floating window, its shadow.
pub open spec fn window_part(v: Visible, tiled: nat) -> Seq<FrameElement> {
    let win = v.window.active_geo();
    let origin = win.loc.minus(v.buffer_loc);
    let style = style_of(v.window.floating, v.window.focused);
    let bare = full_bleed(v, tiled);
    seq![
        FrameElement::Popups { surface: v.window.surface, origin },
        FrameElement::Surface {
            surface: v.window.surface,
            origin,
            clip: if bare {
                Clip::Never
            } else {
                Clip::Window { rect: win, radius: style.radius }
            },
        },
    ] + (if style.border_width > 0 && !bare {
        border_elements(border_of(win, style.radius as int, style.border_width as int, style.color))
    } else {
        Seq::empty()
    }) + (if bare {
        Seq::empty()
    } else {
        seq![FrameElement::Background { rect: win, radius: style.radius, color: ROOT_COLOR }]
    }) + (if v.window.floating {
        seq![FrameElement::Shadow(shadow_of(win, style.radius as int, style.border_width as int))]
    } else {
        Seq::empty()
    })
}

/// The elements of the windows, the last window's first.
pub open spec fn windows_part(windows: Seq<Visible>, tiled: nat) -> Seq<FrameElement>
    decreases windows.len(),
{
    if windows.len() == 0 {
        Seq::empty()
    } else {
        window_part(windows.last(), tiled) + windows_part(windows.drop_last(), tiled)
    }
}

/// The elements of a frame, topmost first: the popups of the layer
/// surfaces, the overlay and top layers, the windows from the last in paint
/// order to the first, the bottom and background layers.
pub open spec fn frame(windows: Seq<Visible>) -> Seq<FrameElement> {
    seq![
        FrameElement::LayerPopups,
        FrameElement::Layer(Layer::Overlay),
        FrameElement::Layer(Layer::Top),
    ] + windows_part(windows, tiled_count(windows)) + seq![
        FrameElement::Layer(Layer::Bottom),
        FrameElement::Layer(Layer::Background),
    ]
}

fn count_tiled(windows: &Vec<Visible>) -> (n: usize)
    ensures
        n == tiled_count(windows@),
{
    let mut n: usize = 0;
    let mut i: usize = 0;
    while i < windows.len()
        invariant
            0 <= i <= windows.len(),
            n == tiled_count(windows@.take(i as int)),
            n <= i,
        decreases windows.len() - i,
    {
        proof {
            assert(windows@.take(i + 1).drop_last() =~= windows@.take(i as int));
            assert(windows@.take(i + 1).last() == windows@[i as int]);
        }
        if !windows[i].window.floating {
            n += 1;
        }
        i += 1;
    }
    assert(windows@.take(windows.len() as int) =~= windows@);
    n
}

fn decorate(v: &Visible, tiled: usize) -> (elems: Vec<FrameElement>)
    requires
        v.window.active_geo().within(GEO_LIMIT as int),
    ensures
        elems@ == window_part(*v, tiled as nat),
{
    let win = v.window.geo();
    let origin = win.loc.sub(v.buffer_loc);
    let style = window_style(v.window.floating, v.window.focused);
    let bare: bool = !SINGLE_BORDER && tiled == 1 && !v.window.floating;
    let mut elems: Vec<FrameElement> = Vec::new();
    elems.push(FrameElement::Popups { surface: v.window.surface, origin });
    let clip = if bare {
        Clip::Never
    } else {
        Clip::Window { rect: win, radius: style.radius }
    };
    elems.push(FrameElement::Surface { surface: v.window.surface, origin, clip });
    let ghost base = elems@;
    let ghost border: Seq<FrameElement> = Seq::empty();
    if style.border_width > 0 && !bare {
        let pieces = elements(win, style.radius, style.border_width, style.color);
        let mut i: usize = 0;
        while i < pieces.len()
            invariant
                0 <= i <= pieces.len(),
                elems@ == base + border_elements(pieces@).take(i as int),
            decreases pieces.len() - i,
        {
            elems.push(FrameElement::Border(pieces[i]));
            assert(elems@ =~= base + border_elements(pieces@).take(i + 1));
            i += 1;
        }
        proof {
            assert(border_elements(pieces@).take(pieces.len() as int) =~= border_elements(pieces@));
            border = border_elements(pieces@);
        }
    }
    assert(elems@ =~= base + border);
    if !bare {
        elems.push(FrameElement::Background { rect: win, radius: style.radius, color: ROOT_COLOR });
    }
    if v.window.floating {
        elems.push(FrameElement::Shadow(shadow(win, style.radius, style.border_width)));
    }
    assert(elems@ =~= window_part(*v, tiled as nat));
    elems
}

/// Composes a frame from the windows of the active tag, given in paint
/// order.
pub fn render_output(windows: &Vec<Visible>) -> (elems: Vec<FrameElement>)
    requires
        forall|i: int|
            0 <= i < windows.len() ==> (#[trigger] windows[i]).window.active_geo().within(
                GEO_LIMIT as int,
            ),
    ensures
        elems@ == frame(windows@),
{
    let tiled = count_tiled(windows);
    let mut elems: Vec<FrameElement> = Vec::new();
    elems.push(FrameElement::LayerPopups);
    elems.push(FrameElement::Layer(Layer::Overlay));
    elems.push(FrameElement::Layer(Layer::Top));
    let ghost head = elems@;
    let mut i: usize = windows.len();
    assert(windows@.take(i as int) =~= windows@);
    while i > 0
        invariant
            0 <= i <= windows.len(),
            tiled == tiled_count(windows@),
            forall|k: int|
                0 <= k < windows.len() ==> (#[trigger] windows[k]).window.active_geo().within(
                    GEO_LIMIT as int,
                ),
            elems@ + windows_part(windows@.take(i as int), tiled as nat) == head + windows_part(
                windows@,
                tiled as nat,
            ),
        decreases i,
    {
        i -= 1;
        let mut part = decorate(&windows[i], tiled);
        proof {
            assert(windows@.take(i + 1).drop_last() =~= windows@.take(i as int));
            assert(windows@.take(i + 1).last() == windows@[i as int]);
            assert(elems@ + part@ + windows_part(windows@.take(i as int), tiled as nat) =~= elems@ + (
            part@ + windows_part(windows@.take(i as int), tiled as nat)));
        }
        elems.append(&mut part);
    }
    proof {
        assert(windows@.take(0) =~= Seq::<Visible>::empty());
        assert(elems@ =~= head + windows_part(windows@, tiled as nat));
    }
    elems.push(FrameElement::Layer(Layer::Bottom));
    elems.push(FrameElement::Layer(Layer::Background));
    assert(elems@ =~= frame(windows@));
    elems
}

/// Of the visible windows of a well-formed monitor, the first `k` hold as
/// many tiled ones as the active tag has among its first `k` windows in
/// paint order: the tiled windows come first, and they are the windows
/// whose records say tiled.
pub proof fn lemma_visible_tiled(m: MonitorView, windows: Seq<Visible>, k: int)
    requires
        m.wf(),
        windows.len() == m.visible().len(),
        forall|i: int| 0 <= i < windows.len() ==> (#[trigger] windows[i]).window == m.visible()[i],
        0 <= k <= windows.len(),
    ensures
        tiled_count(windows.take(k)) == if k <= m.tag().tiled.len() {
            k
        } else {
            m.tag().tiled.len() as int
        },
    decreases k,
{
    if k > 0 {
        lemma_visible_tiled(m, windows, k - 1);
        let tag = m.tag();
        assert(windows.take(k).drop_last() =~= windows.take(k - 1));
        assert(windows.take(k).last() == windows[k - 1]);
        assert(windows[k - 1].window == m.visible()[k - 1]);
        let id = tag.window_ids()[k - 1];
        if k - 1 < tag.tiled.len() {
            assert(tag.tiled[k - 1] == id);
            assert(m.tags[m.active_tag].tiled.contains(id));
        } else {
            assert(tag.floating[k - 1 - tag.tiled.len()] == id);
            assert(m.tags[m.active_tag].floating.contains(id));
        }
    }
}

/// A frame of the visible windows of a well-formed monitor counts as many
/// tiled windows as the active tag lays out. So the window that the
/// layout gives the whole area, the lone tiled one, is the window that the
/// frame draws without clip and decoration, laid out over that area.
pub proof fn lemma_lone_window(m: MonitorView, windows: Seq<Visible>)
    requires
        m.wf(),
        windows.len() == m.laid_out().visible().len(),
        forall|i: int|
            0 <= i < windows.len() ==> (#[trigger] windows[i]).window == m.laid_out().visible()[i],
    ensures
        tiled_count(windows) == m.tag().tiled.len(),
        !SINGLE_BORDER && m.tag().tiled.len() == 1 ==> full_bleed(windows[0], tiled_count(windows))
            && windows[0].window.active_geo() == m.area,
        forall|i: int|
            0 <= i < windows.len() ==> (full_bleed(#[trigger] windows[i], tiled_count(windows))
                ==> i == 0 && m.tag().tiled.len() == 1),
{
    m.lemma_laid_out();
    let out = m.laid_out();
    lemma_visible_tiled(out, windows, windows.len() as int);
    assert(windows.take(windows.len() as int) =~= windows);
    let tag = m.tag();
    assert(out.tag() == tag);
    if !SINGLE_BORDER && tag.tiled.len() == 1 {
        let id = tag.tiled[0];
        assert(tag.window_ids()[0] == id);
        assert(m.tags[m.active_tag].tiled.contains(id));
        assert(m.tags[m.active_tag].has(id));
        crate::shell::list::lemma_position(tag.tiled, id, 0);
        assert(windows[0].window == out.windows[id]);
    }
    assert forall|i: int| 0 <= i < windows.len() && full_bleed(#[trigger] windows[i], tiled_count(windows)) implies i
        == 0 && tag.tiled.len() == 1 by {
        if i >= tag.tiled.len() {
            let id = tag.window_ids()[i];
            assert(tag.floating[i - tag.tiled.len()] == id);
            assert(out.tags[out.active_tag].floating.contains(id));
            assert(windows[i].window == out.visible()[i]);
        }
    }
}

} // verus!
