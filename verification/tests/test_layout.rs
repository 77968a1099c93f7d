use monotile::config::{BORDER_WIDTH, GAP, MASTER_COUNT, MASTER_FACTOR};
use monotile::geometry::{Point, Rect, Size};
use monotile::shell::layout::TilingLayout;

const W: i32 = 1000;
const H: i32 = 800;

/// edge margin
const EDGE: i32 = GAP + BORDER_WIDTH;
/// inner gap
const INNER: i32 = GAP + 2 * BORDER_WIDTH;

fn area() -> Rect {
    Rect::from_size(Size::new(W, H))
}

fn layout(mcount: usize, mfact: f32) -> TilingLayout {
    TilingLayout {
        master_count: mcount,
        master_factor: (mfact * 100.0).round() as u32,
    }
}

#[test]
fn zero_windows() {
    let rects = TilingLayout::default().compute_rects(0, area());
    assert!(rects.is_empty(), "zero windows should produce no rects");
}

#[test]
fn single_window_no_border() {
    // SINGLE_BORDER=false
    let rects = TilingLayout::default().compute_rects(1, area());
    assert_eq!(rects.len(), 1, "single window should produce 1 rect");
    assert_eq!(rects[0], area(), "single window should fill area");
}

#[test]
fn two_windows_even_split() {
    let mfact = 0.5_f32;
    let half = INNER / 2;
    let usable_w = W - 2 * EDGE;
    let usable_h = H - 2 * EDGE;
    let mw = (usable_w as f32 * mfact) as i32;

    let rects = layout(1, mfact).compute_rects(2, area());
    assert_eq!(rects.len(), 2, "two windows should produce 2 rects");

    assert_eq!(rects[0].loc, Point::new(EDGE, EDGE), "master loc");
    assert_eq!(rects[0].size, Size::new(mw - half, usable_h), "master size");

    let stack_x = EDGE + mw + INNER - half;
    let stack_w = usable_w - mw - INNER + half;
    assert_eq!(rects[1].loc, Point::new(stack_x, EDGE), "stack loc");
    assert_eq!(rects[1].size, Size::new(stack_w, usable_h), "stack size");
}

#[test]
fn three_windows_stack_splits_vertically() {
    let mfact = 0.5_f32;
    let half = INNER / 2;
    let usable_w = W - 2 * EDGE;
    let usable_h = H - 2 * EDGE;
    let mw = (usable_w as f32 * mfact) as i32;
    let stack_x = EDGE + mw + INNER - half;
    let stack_w = usable_w - mw - INNER + half;
    let stack_h = (usable_h - INNER) / 2;

    let rects = layout(1, mfact).compute_rects(3, area());
    assert_eq!(rects.len(), 3, "three windows should produce 3 rects");

    // master
    assert_eq!(rects[0].loc, Point::new(EDGE, EDGE), "master loc");
    assert_eq!(rects[0].size, Size::new(mw - half, usable_h), "master size");

    // stack windows split vertically
    assert_eq!(rects[1].loc, Point::new(stack_x, EDGE), "stack[0] loc");
    assert_eq!(rects[1].size, Size::new(stack_w, stack_h), "stack[0] size");

    let y2 = EDGE + stack_h + INNER;
    assert_eq!(rects[2].loc, Point::new(stack_x, y2), "stack[1] loc");
    assert_eq!(rects[2].size, Size::new(stack_w, stack_h), "stack[1] size");
}

#[test]
fn master_count_two() {
    let rects = layout(2, 0.5).compute_rects(3, area());
    assert_eq!(rects.len(), 3, "should produce 3 rects");

    // both masters in left column, split vertically
    assert_eq!(rects[0].loc.x, rects[1].loc.x, "masters should share x");
    assert!(
        rects[0].loc.y < rects[1].loc.y,
        "master[0] should be above master[1]"
    );

    // stack in right column
    assert!(
        rects[2].loc.x > rects[0].loc.x,
        "stack should be right of master"
    );
}

#[test]
fn master_count_exceeds_window_count() {
    // master_count=3 but only 2 windows: all go to master
    let rects = layout(3, 0.5).compute_rects(2, area());
    assert_eq!(rects.len(), 2, "should produce 2 rects");
    assert_eq!(rects[0].loc.x, rects[1].loc.x, "both should share x");
    assert!(
        rects[0].loc.y < rects[1].loc.y,
        "first should be above second"
    );
}

#[test]
fn mfact_extremes() {
    // mfact=0.1: narrow master
    let rects = layout(1, 0.1).compute_rects(2, area());
    let master_w = rects[0].size.w;
    let stack_w = rects[1].size.w;
    assert!(
        stack_w > master_w * 5,
        "stack should be much wider: m={master_w} s={stack_w}",
    );

    // mfact=0.9: wide master
    let rects = layout(1, 0.9).compute_rects(2, area());
    let master_w = rects[0].size.w;
    let stack_w = rects[1].size.w;
    assert!(
        master_w > stack_w * 5,
        "master should be much wider: m={master_w} s={stack_w}",
    );
}

#[test]
fn windows_cover_area_without_overlap() {
    let rects = layout(1, 0.5).compute_rects(4, area());
    assert_eq!(rects.len(), 4, "should produce 4 rects");

    for i in 0..rects.len() {
        for j in (i + 1)..rects.len() {
            let a = rects[i];
            let b = rects[j];
            let overlap = a.intersection(b);
            assert!(
                overlap.is_none() || overlap.unwrap().is_empty(),
                "rects {i} and {j} overlap: {a:?} âˆ© {b:?}",
            );
        }
    }
}

#[test]
fn all_rects_fit_within_area() {
    for count in 1..=6 {
        let rects = layout(1, 0.5).compute_rects(count, area());
        for (i, r) in rects.iter().enumerate() {
            assert!(
                r.loc.x >= 0 && r.loc.y >= 0,
                "count={count} rect {i} has negative loc: {r:?}",
            );
            assert!(
                r.loc.x + r.size.w <= W && r.loc.y + r.size.h <= H,
                "count={count} rect {i} exceeds area: {r:?}",
            );
        }
    }
}

#[test]
fn default_layout_is_configured() {
    let l = TilingLayout::default();
    assert_eq!(l.master_count, MASTER_COUNT);
    assert_eq!(l.master_factor, MASTER_FACTOR);
    assert_eq!(l.master_factor, 54);
}

#[test]
fn default_factor_exact_rects() {
    // usable: 996 x 796 at (2, 2); split at 996 * 54 / 100 = 537
    let rects = TilingLayout::default().compute_rects(3, area());
    assert_eq!(rects[0], Rect::new(Point::new(2, 2), Size::new(535, 796)));
    assert_eq!(rects[1], Rect::new(Point::new(541, 2), Size::new(457, 396)));
    assert_eq!(rects[2], Rect::new(Point::new(541, 402), Size::new(457, 396)));
}

#[test]
fn row_remainder_stays_below_last_row() {
    // usable height 796, three rows, two gaps of 4: (796 - 8) / 3 = 262 rem 2
    let rects = layout(3, 0.5).compute_rects(3, area());
    assert_eq!(rects[0].size.h, 262);
    assert_eq!(rects[1].loc.y, 2 + 266);
    assert_eq!(rects[2].loc.y, 2 + 532);
    assert_eq!(rects[2].loc.y + rects[2].size.h, 796);
}

#[test]
fn single_window_ignores_master_count() {
    let rects = layout(0, 0.5).compute_rects(1, area());
    assert_eq!(rects, vec![area()]);
    let rects = layout(5, 0.9).compute_rects(1, area());
    assert_eq!(rects, vec![area()]);
}

#[test]
fn no_master_puts_all_in_stack_column() {
    let rects = layout(0, 0.5).compute_rects(2, area());
    assert_eq!(rects.len(), 2);
    assert_eq!(rects[0], Rect::new(Point::new(502, 2), Size::new(496, 396)));
    assert_eq!(rects[1], Rect::new(Point::new(502, 402), Size::new(496, 396)));
}

#[test]
fn larger_factor_widens_master_and_narrows_stack() {
    let mut last_master = i32::MIN;
    let mut last_stack = i32::MAX;
    for f in 10..=90u32 {
        let l = TilingLayout { master_count: 1, master_factor: f };
        let rects = l.compute_rects(2, area());
        assert!(rects[0].size.w > last_master);
        assert!(rects[1].size.w < last_stack);
        last_master = rects[0].size.w;
        last_stack = rects[1].size.w;
    }
}

#[test]
fn columns_are_one_inner_gap_apart() {
    for f in [10u32, 33, 54, 77, 90] {
        let l = TilingLayout { master_count: 1, master_factor: f };
        let rects = l.compute_rects(2, area());
        assert_eq!(rects[1].loc.x - (rects[0].loc.x + rects[0].size.w), INNER);
    }
}

#[test]
fn rects_disjoint_and_inside_for_many_counts() {
    for mc in 0..4usize {
        for count in 0..12usize {
            let l = TilingLayout { master_count: mc, master_factor: 54 };
            let rects = l.compute_rects(count, area());
            assert_eq!(rects.len(), count);
            for i in 0..count {
                assert!(area().contains_rect(rects[i]));
                for j in (i + 1)..count {
                    assert!(!rects[i].overlaps(rects[j]));
                }
            }
        }
    }
}

#[test]
fn cramped_area_still_yields_disjoint_rects() {
    // too low for the gaps of a stack of four: the last row leaves the area
    let cramped = Rect::from_size(Size::new(1000, 13));
    let l = TilingLayout { master_count: 1, master_factor: 50 };
    let rects = l.compute_rects(5, cramped);
    assert_eq!(rects.len(), 5);
    for i in 0..5 {
        for j in (i + 1)..5 {
            assert!(!rects[i].overlaps(rects[j]));
        }
    }
    assert!(!cramped.contains_rect(rects[4]));
}

#[test]
fn negative_origin_area() {
    let a = Rect::new(Point::new(-500, -300), Size::new(1000, 800));
    let rects = layout(1, 0.5).compute_rects(2, a);
    assert_eq!(rects[0], Rect::new(Point::new(-498, -298), Size::new(496, 796)));
    assert_eq!(rects[1], Rect::new(Point::new(2, -298), Size::new(496, 796)));
}

#[test]
fn limits_of_a_monitor() {
    let l = TilingLayout::default();
    assert!(l.in_limits(0, area()));
    assert!(l.in_limits(1 << 20, area()));
    assert!(!l.in_limits((1 << 20) + 1, area()));
    assert!(!l.in_limits(2, Rect::from_size(Size::new((1 << 24) + 1, 10))));
    assert!(!TilingLayout { master_count: 1, master_factor: 9 }.in_limits(2, area()));
    assert!(!TilingLayout { master_count: 1, master_factor: 91 }.in_limits(2, area()));
}

#[test]
fn a_lone_window_fills_any_area_under_any_layout() {
    let far = Rect::new(Point::new(i32::MAX, i32::MIN), Size::new(i32::MAX, -5));
    for l in [
        TilingLayout { master_count: 0, master_factor: 0 },
        TilingLayout { master_count: usize::MAX, master_factor: u32::MAX },
        TilingLayout::default(),
    ] {
        assert_eq!(l.compute_rects(1, far), vec![far]);
        assert!(l.compute_rects(0, far).is_empty());
    }
}

#[test]
fn layout_of_an_area_beyond_the_limits_of_a_monitor() {
    // coordinates of a thousand million: every rectangle still has values of i32
    let a = Rect::new(
        Point::new(1_000_000_000, -1_500_000_000),
        Size::new(1_000_000_000, 600_000_000),
    );
    let rects = layout(1, 0.5).compute_rects(3, a);
    assert_eq!(
        rects,
        vec![
            Rect::new(Point::new(1_000_000_002, -1_499_999_998), Size::new(499_999_996, 599_999_996)),
            Rect::new(Point::new(1_500_000_002, -1_499_999_998), Size::new(499_999_996, 299_999_996)),
            Rect::new(Point::new(1_500_000_002, -1_199_999_998), Size::new(499_999_996, 299_999_996)),
        ]
    );
    assert_eq!(rects[0].size.w + rects[2].size.w + INNER, a.size.w - 2 * EDGE);
}

#[test]
fn layout_of_more_windows_than_a_monitor_holds() {
    // two million rows in 796 pixels: the gaps alone are taller, so each row has a
    // negative height and starts one pixel below the one before
    let count = 2_000_000;
    let rects = layout(count, 0.5).compute_rects(count, area());
    assert_eq!(rects.len(), count);
    assert_eq!(rects[0], Rect::new(Point::new(2, 2), Size::new(996, -3)));
    assert_eq!(rects[1], Rect::new(Point::new(2, 3), Size::new(996, -3)));
    assert_eq!(
        rects[count - 1],
        Rect::new(Point::new(2, 2 + 1_999_999), Size::new(996, -3))
    );
}
