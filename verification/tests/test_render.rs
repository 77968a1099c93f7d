use monotile::render::clipped_surface::{clip_rects, ClippedSurface};
use monotile::render::region::subtract_rects;
use monotile::config::{BORDER_COLOR, BORDER_WIDTH, FLOATING_RADIUS, FOCUS_COLOR, ROOT_COLOR, SHADOW_COLOR, TILED_RADIUS};
use monotile::geometry::{Point, Rect, Size};
use monotile::shell::monitor::Monitor;
use monotile::render::border::elements;
use monotile::render::{
    render_output, shadow, window_style, Clip, FrameElement, Layer, Style, Visible,
};

fn rect(x: i32, y: i32, w: i32, h: i32) -> Rect {
    Rect::new(Point::new(x, y), Size::new(w, h))
}

fn visible(mon: &Monitor) -> Vec<Visible> {
    mon.visible_windows()
        .into_iter()
        .map(|window| Visible { window, buffer_loc: Point::new(0, 0) })
        .collect()
}

#[test]
fn style_by_placement_and_focus() {
    assert_eq!(
        window_style(true, true),
        Style { color: FOCUS_COLOR, radius: FLOATING_RADIUS, border_width: BORDER_WIDTH }
    );
    assert_eq!(
        window_style(true, false),
        Style { color: BORDER_COLOR, radius: FLOATING_RADIUS, border_width: 0 }
    );
    assert_eq!(
        window_style(false, true),
        Style { color: FOCUS_COLOR, radius: TILED_RADIUS, border_width: BORDER_WIDTH }
    );
    assert_eq!(
        window_style(false, false),
        Style { color: BORDER_COLOR, radius: TILED_RADIUS, border_width: BORDER_WIDTH }
    );
    assert_eq!(window_style(true, true).radius, 12);
    assert_eq!(window_style(false, false).border_width, 2);
    assert_eq!(window_style(false, true).color, 0x458588ff);
}

#[test]
fn border_of_a_square_cornered_window() {
    // radius 0, width 2: corners are 2x2, edges fill the rest
    let pieces = elements(rect(100, 50, 300, 200), 0, 2, FOCUS_COLOR);
    let rects: Vec<Rect> = pieces.iter().map(|p| p.rect).collect();
    assert_eq!(
        rects,
        vec![
            rect(98, 48, 2, 2),
            rect(100, 48, 300, 2),
            rect(400, 48, 2, 2),
            rect(400, 50, 2, 200),
            rect(400, 250, 2, 2),
            rect(100, 250, 300, 2),
            rect(98, 250, 2, 2),
            rect(98, 50, 2, 200),
        ]
    );
    for p in &pieces {
        assert_eq!(p.outer_size, Size::new(304, 204));
        assert_eq!(p.border_width, 2);
        assert_eq!(p.outer_radius, 2);
        assert_eq!(p.color, FOCUS_COLOR);
        assert_eq!(p.offset, Point::new(p.rect.loc.x - 98, p.rect.loc.y - 48));
    }
}

#[test]
fn border_of_a_rounded_window() {
    // radius 12, width 2: corners are 14x14
    let pieces = elements(rect(0, 0, 100, 60), 12, 2, BORDER_COLOR);
    let rects: Vec<Rect> = pieces.iter().map(|p| p.rect).collect();
    assert_eq!(
        rects,
        vec![
            rect(-2, -2, 14, 14),
            rect(12, -2, 76, 2),
            rect(88, -2, 14, 14),
            rect(100, 12, 2, 36),
            rect(88, 48, 14, 14),
            rect(12, 60, 76, 2),
            rect(-2, 48, 14, 14),
            rect(-2, 12, 2, 36),
        ]
    );
}

#[test]
fn empty_border_segments_are_left_out() {
    // corners of 14 meet: no edge is left between them
    let pieces = elements(rect(0, 0, 24, 24), 12, 2, BORDER_COLOR);
    let rects: Vec<Rect> = pieces.iter().map(|p| p.rect).collect();
    assert_eq!(
        rects,
        vec![rect(-2, -2, 14, 14), rect(12, -2, 14, 14), rect(12, 12, 14, 14), rect(-2, 12, 14, 14)]
    );
    // too small for its corners: the edges have negative length
    assert_eq!(elements(rect(0, 0, 10, 10), 12, 2, BORDER_COLOR).len(), 4);
    // no width and no radius: nothing to draw
    assert!(elements(rect(0, 0, 100, 100), 0, 0, BORDER_COLOR).is_empty());
    // no width, but a radius: the corners alone
    assert_eq!(elements(rect(0, 0, 100, 100), 12, 0, BORDER_COLOR).len(), 4);
}

#[test]
fn shadow_footprint_is_padded() {
    // blur = ceil(3 * 12.5) = 38; pad x = 2 + 38 + 5 + 0, pad y = 2 + 38 + 5 + 5
    let s = shadow(rect(100, 200, 300, 150), 12, 2);
    assert_eq!(s.rect, rect(55, 150, 390, 250));
    assert_eq!(s.win_size, Size::new(300, 150));
    assert_eq!(s.win_offset, Point::new(45, 50));
    assert_eq!(s.outer_radius, 14);
    assert_eq!(s.box_size, Size::new(310, 160));
    assert_eq!(s.box_offset, Point::new(40, 50));
    assert_eq!(s.color, SHADOW_COLOR);
    let blur = (3.0_f32 * (25.0 / 2.0)).ceil() as i32;
    assert_eq!(s.win_offset.x, BORDER_WIDTH + blur + 5);
}

#[test]
fn empty_frame_has_only_layers() {
    let frame = render_output(&Vec::new());
    assert_eq!(
        frame,
        vec![
            FrameElement::LayerPopups,
            FrameElement::Layer(Layer::Overlay),
            FrameElement::Layer(Layer::Top),
            FrameElement::Layer(Layer::Bottom),
            FrameElement::Layer(Layer::Background),
        ]
    );
}

#[test]
fn lone_tiled_window_is_full_bleed() {
    let mut mon = Monitor::new(rect(0, 0, 1000, 800));
    mon.map(1, Size::new(0, 0), false);
    let mut windows = visible(&mon);
    windows[0].buffer_loc = Point::new(10, 20);
    let frame = render_output(&windows);
    assert_eq!(
        frame,
        vec![
            FrameElement::LayerPopups,
            FrameElement::Layer(Layer::Overlay),
            FrameElement::Layer(Layer::Top),
            FrameElement::Popups { surface: 1, origin: Point::new(-10, -20) },
            FrameElement::Surface { surface: 1, origin: Point::new(-10, -20), clip: Clip::Never },
            FrameElement::Layer(Layer::Bottom),
            FrameElement::Layer(Layer::Background),
        ]
    );
}

#[test]
fn frame_of_tiled_and_floating_windows() {
    let mut mon = Monitor::new(rect(0, 0, 1000, 800));
    let a = mon.map(1, Size::new(0, 0), false).0;
    mon.map(2, Size::new(0, 0), false);
    mon.map(3, Size::new(200, 100), true);
    mon.set_focus(Some(a));
    let frame = render_output(&visible(&mon));

    // topmost first: the floating window, then the tiled ones in reverse
    let surfaces: Vec<u64> = frame
        .iter()
        .filter_map(|e| match e {
            FrameElement::Surface { surface, .. } => Some(*surface),
            _ => None,
        })
        .collect();
    assert_eq!(surfaces, vec![3, 2, 1]);
    assert_eq!(frame[0], FrameElement::LayerPopups);
    assert_eq!(frame[1], FrameElement::Layer(Layer::Overlay));
    assert_eq!(frame[2], FrameElement::Layer(Layer::Top));
    assert_eq!(frame[frame.len() - 2], FrameElement::Layer(Layer::Bottom));
    assert_eq!(frame[frame.len() - 1], FrameElement::Layer(Layer::Background));

    // the unfocused floating window: popups, clipped surface, no border, fill, shadow
    let win = rect(400, 350, 200, 100);
    assert_eq!(frame[3], FrameElement::Popups { surface: 3, origin: Point::new(400, 350) });
    assert_eq!(
        frame[4],
        FrameElement::Surface {
            surface: 3,
            origin: Point::new(400, 350),
            clip: Clip::Window { rect: win, radius: 12 },
        }
    );
    assert_eq!(frame[5], FrameElement::Background { rect: win, radius: 12, color: ROOT_COLOR });
    assert_eq!(frame[6], FrameElement::Shadow(shadow(win, 12, 0)));

    // a tiled window among two: popups, surface, eight border segments, fill
    assert!(matches!(frame[7], FrameElement::Popups { surface: 2, .. }));
    assert!(matches!(
        frame[8],
        FrameElement::Surface { surface: 2, clip: Clip::Window { radius: 0, .. }, .. }
    ));
    for i in 9..17 {
        match frame[i] {
            FrameElement::Border(p) => assert_eq!(p.color, BORDER_COLOR),
            _ => panic!("expected a border segment at {i}"),
        }
    }
    assert!(matches!(frame[17], FrameElement::Background { .. }));
    // the focused tiled window has the focus colour
    match frame[20] {
        FrameElement::Border(p) => assert_eq!(p.color, FOCUS_COLOR),
        _ => panic!("expected a border segment"),
    }
    // 3 + (4) + (2 + 8 + 1) * 2 + 2
    assert_eq!(frame.len(), 31);
}

#[test]
fn a_tiled_window_beside_a_floating_one_is_full_bleed() {
    let mut mon = Monitor::new(rect(0, 0, 1000, 800));
    mon.map(1, Size::new(0, 0), false);
    mon.map(2, Size::new(200, 100), true);
    let frame = render_output(&visible(&mon));
    let clips: Vec<Clip> = frame
        .iter()
        .filter_map(|e| match e {
            FrameElement::Surface { clip, .. } => Some(*clip),
            _ => None,
        })
        .collect();
    assert_eq!(clips[1], Clip::Never);
    assert!(matches!(clips[0], Clip::Window { radius: 12, .. }));
    // floating: 2 + fill + shadow; tiled: 2
    assert_eq!(frame.len(), 3 + 4 + 2 + 2);
}

#[test]
fn clip_rects_keeps_the_parts_inside() {
    let clip = rect(0, 0, 100, 100);
    let damage = vec![
        rect(-10, -10, 30, 30),
        rect(200, 200, 10, 10),
        rect(50, 50, 10, 10),
        rect(90, 0, 20, 100),
        rect(100, 0, 20, 20),
    ];
    assert_eq!(
        clip_rects(&damage, clip),
        vec![rect(0, 0, 20, 20), rect(50, 50, 10, 10), rect(90, 0, 10, 100)]
    );
    assert!(clip_rects(&Vec::new(), clip).is_empty());
}

#[test]
fn will_clip_rounded_or_overhanging() {
    let geo = rect(100, 100, 200, 200);
    assert!(ClippedSurface::will_clip(rect(100, 100, 200, 200), geo, 12));
    assert!(!ClippedSurface::will_clip(rect(100, 100, 200, 200), geo, 0));
    assert!(!ClippedSurface::will_clip(rect(150, 150, 10, 10), geo, 0));
    assert!(ClippedSurface::will_clip(rect(90, 100, 200, 200), geo, 0));
    assert!(ClippedSurface::will_clip(rect(100, 100, 201, 200), geo, 0));
}

#[test]
fn clipped_surface_damage_and_opaque_regions() {
    let c = ClippedSurface::new(rect(100, 100, 200, 150), 12, Point::new(90, 95));
    assert!(c.is_wf());
    assert_eq!(c.clip_rect(), rect(10, 5, 200, 150));
    assert_eq!(
        c.damage_since(&vec![rect(0, 0, 50, 50), rect(300, 0, 5, 5)]),
        vec![rect(10, 5, 40, 45)]
    );
    let corners = vec![
        rect(10, 5, 12, 12),
        rect(198, 5, 12, 12),
        rect(198, 143, 12, 12),
        rect(10, 143, 12, 12),
    ];
    assert_eq!(c.corners(), corners);
    // an opaque surface over the whole window: the corners are cut out
    let opaque = c.opaque_regions(&vec![rect(0, 0, 400, 400)]);
    assert_eq!(
        opaque,
        vec![rect(22, 5, 176, 12), rect(10, 17, 200, 126), rect(22, 143, 176, 12)]
    );
    for r in &opaque {
        assert!(c.clip_rect().contains_rect(*r));
        for corner in &corners {
            assert!(!r.overlaps(*corner));
        }
    }
}

fn covered(rects: &[Rect], x: i32, y: i32) -> bool {
    rects.iter().any(|r| r.contains(Point::new(x, y)))
}

#[test]
fn opaque_region_is_the_clipped_region_less_the_corners() {
    let c = ClippedSurface::new(rect(3, 4, 30, 20), 5, Point::new(1, 2));
    let clip = c.clip_rect();
    let corners = c.corners();
    let inner = vec![
        rect(-5, -5, 20, 12),
        rect(10, 0, 40, 9),
        rect(0, 15, 12, 30),
        rect(25, 18, 3, 3),
        rect(100, 100, 5, 5),
        rect(6, 6, 0, 10),
    ];
    let opaque = c.opaque_regions(&inner);
    for y in -10..40 {
        for x in -10..60 {
            let expected = clip.contains(Point::new(x, y))
                && covered(&inner, x, y)
                && !covered(&corners, x, y);
            assert_eq!(covered(&opaque, x, y), expected, "pixel {x},{y}");
        }
    }
    for r in &opaque {
        assert!(r.size.w > 0 && r.size.h > 0);
        assert!(clip.contains_rect(*r));
        assert!(inner.iter().any(|o| o.contains_rect(*r)));
    }
}

#[test]
fn square_corners_take_nothing_away() {
    let c = ClippedSurface::new(rect(0, 0, 100, 100), 0, Point::new(0, 0));
    let inner = vec![rect(-10, -10, 50, 50), rect(200, 0, 5, 5), rect(60, 60, 100, 100)];
    assert_eq!(
        c.opaque_regions(&inner),
        vec![rect(0, 0, 40, 40), rect(60, 60, 40, 40)]
    );
    // nothing opaque beneath: nothing opaque
    assert!(c.opaque_regions(&Vec::new()).is_empty());
}

#[test]
fn a_surface_within_the_corners_is_not_opaque() {
    let c = ClippedSurface::new(rect(0, 0, 100, 100), 10, Point::new(0, 0));
    assert!(c.opaque_regions(&vec![rect(2, 2, 6, 6), rect(92, 91, 8, 9)]).is_empty());
    assert!(!ClippedSurface::new(rect(0, 0, 100, 100), -1, Point::new(0, 0)).is_wf());
    assert!(!ClippedSurface::new(rect(0, 0, 100, 100), 1, Point::new(i32::MAX, 0)).is_wf());
}

#[test]
fn subtract_rects_splits_around_what_is_taken() {
    // a hole in the middle: strips above, left, right and below
    let left = subtract_rects(&vec![rect(0, 0, 30, 30)], &vec![rect(10, 10, 10, 10)]);
    assert_eq!(
        left,
        vec![rect(0, 0, 30, 10), rect(0, 10, 10, 10), rect(20, 10, 10, 10), rect(0, 20, 30, 10)]
    );
    // nothing to take away, a rectangle that covers it all, one that only touches
    assert_eq!(subtract_rects(&vec![rect(0, 0, 5, 5)], &Vec::new()), vec![rect(0, 0, 5, 5)]);
    assert!(subtract_rects(&vec![rect(0, 0, 5, 5)], &vec![rect(-1, -1, 10, 10)]).is_empty());
    assert_eq!(
        subtract_rects(&vec![rect(0, 0, 5, 5)], &vec![rect(5, 0, 5, 5)]),
        vec![rect(0, 0, 5, 5)]
    );
    // rectangles that cover no pixel neither stay nor take away
    assert_eq!(
        subtract_rects(&vec![rect(0, 0, 5, 5), rect(9, 9, 0, 4)], &vec![rect(2, 2, 0, 0), rect(1, 1, -3, 4)]),
        vec![rect(0, 0, 5, 5)]
    );
}
