use monotile::geometry::{Rect, Size};
use monotile::shell::layout::TilingLayout;
use monotile::shell::monitor::Monitor;
use monotile::shell::tag::Tag;
use monotile::shell::window::WindowId;

/// Distinct keys, taken from a monitor that maps as many windows.
fn ids(n: usize) -> Vec<WindowId> {
    let mut mon = Monitor::new(Rect::from_size(Size::new(1000, 800)));
    (0..n).map(|i| mon.map(i as u64, Size::new(0, 0), false).0).collect()
}

#[test]
fn default_tag_is_empty() {
    let tag = Tag::default();
    assert!(tag.tiled.is_empty());
    assert!(tag.floating.is_empty());
    assert!(tag.focus_stack.is_empty());
    assert_eq!(tag.layout, TilingLayout::default());
    assert_eq!(tag.head(), None);
    assert_eq!(tag.focus_cycle(1), None);
}

#[test]
fn add_appends_and_fronts_the_focus_stack() {
    let k = ids(3);
    let mut tag = Tag::default();
    tag.add(k[0], false);
    tag.add(k[1], true);
    tag.add(k[2], false);
    assert_eq!(tag.tiled, vec![k[0], k[2]]);
    assert_eq!(tag.floating, vec![k[1]]);
    assert_eq!(tag.focus_stack, vec![k[2], k[1], k[0]]);
    assert_eq!(tag.window_ids(), vec![k[0], k[2], k[1]]);
    assert!(tag.contains(k[1]));
}

#[test]
fn add_moves_a_window_that_is_there() {
    let k = ids(3);
    let mut tag = Tag::default();
    tag.add(k[0], false);
    tag.add(k[1], false);
    tag.add(k[2], false);
    // again as tiled: goes last, and to the front of the focus stack
    tag.add(k[0], false);
    assert_eq!(tag.tiled, vec![k[1], k[2], k[0]]);
    assert_eq!(tag.focus_stack, vec![k[0], k[2], k[1]]);
    // as floating: leaves the tiled list
    tag.add(k[1], true);
    assert_eq!(tag.tiled, vec![k[2], k[0]]);
    assert_eq!(tag.floating, vec![k[1]]);
    assert_eq!(tag.focus_stack, vec![k[1], k[0], k[2]]);
}

#[test]
fn remove_takes_out_of_all_lists() {
    let k = ids(3);
    let mut tag = Tag::default();
    tag.add(k[0], false);
    tag.add(k[1], true);
    tag.remove(k[0]);
    assert!(tag.tiled.is_empty());
    assert_eq!(tag.floating, vec![k[1]]);
    assert_eq!(tag.focus_stack, vec![k[1]]);
    assert!(!tag.contains(k[0]));
    // absent: nothing happens
    tag.remove(k[2]);
    assert_eq!(tag.floating, vec![k[1]]);
    assert_eq!(tag.focus_stack, vec![k[1]]);
}

#[test]
fn raise_moves_to_the_top_of_floating() {
    let k = ids(4);
    let mut tag = Tag::default();
    tag.add(k[0], true);
    tag.add(k[1], true);
    tag.add(k[2], true);
    tag.add(k[3], false);
    tag.raise(k[0]);
    assert_eq!(tag.floating, vec![k[1], k[2], k[0]]);
    tag.raise(k[0]);
    assert_eq!(tag.floating, vec![k[1], k[2], k[0]]);
    // a tiled window is not raised
    tag.raise(k[3]);
    assert_eq!(tag.floating, vec![k[1], k[2], k[0]]);
    assert_eq!(tag.tiled, vec![k[3]]);
}

#[test]
fn move_in_stack_swaps_cyclically() {
    let k = ids(4);
    let mut tag = Tag::default();
    tag.add(k[0], false);
    tag.add(k[1], false);
    tag.add(k[2], false);
    tag.add(k[3], true);
    tag.move_in_stack(k[0], 1);
    assert_eq!(tag.tiled, vec![k[1], k[0], k[2]]);
    tag.move_in_stack(k[1], -1);
    assert_eq!(tag.tiled, vec![k[2], k[0], k[1]]);
    tag.move_in_stack(k[1], 1);
    assert_eq!(tag.tiled, vec![k[1], k[0], k[2]]);
    tag.move_in_stack(k[0], 3);
    assert_eq!(tag.tiled, vec![k[1], k[0], k[2]]);
    tag.move_in_stack(k[1], -7);
    assert_eq!(tag.tiled, vec![k[2], k[0], k[1]]);
    // floating windows are left alone
    tag.move_in_stack(k[3], 1);
    assert_eq!(tag.tiled, vec![k[2], k[0], k[1]]);
    assert_eq!(tag.floating, vec![k[3]]);
}

#[test]
fn move_in_stack_with_extreme_steps() {
    let k = ids(3);
    let mut tag = Tag::default();
    tag.add(k[0], false);
    tag.add(k[1], false);
    tag.add(k[2], false);
    // i32::MAX = 3 * 715827882 + 1
    tag.move_in_stack(k[0], i32::MAX);
    assert_eq!(tag.tiled, vec![k[1], k[0], k[2]]);
    // i32::MIN = -3 * 715827883 + 1
    tag.move_in_stack(k[1], i32::MIN);
    assert_eq!(tag.tiled, vec![k[0], k[1], k[2]]);
}

#[test]
fn zoom_promotes_to_master() {
    let k = ids(3);
    let mut tag = Tag::default();
    tag.add(k[0], false);
    tag.add(k[1], false);
    tag.add(k[2], false);
    tag.zoom(k[2]);
    assert_eq!(tag.tiled, vec![k[2], k[1], k[0]]);
    tag.zoom(k[2]);
    assert_eq!(tag.tiled, vec![k[2], k[1], k[0]]);
    tag.zoom(k[1]);
    assert_eq!(tag.tiled, vec![k[1], k[2], k[0]]);
}

#[test]
fn focus_cycle_walks_the_tiled_ring() {
    let k = ids(4);
    let mut tag = Tag::default();
    tag.add(k[0], false);
    tag.add(k[1], false);
    tag.add(k[2], false);
    // head of the focus stack is k[2], the last tiled window
    assert_eq!(tag.focus_cycle(1), Some(k[0]));
    assert_eq!(tag.focus_cycle(-1), Some(k[1]));
    assert_eq!(tag.focus_cycle(0), Some(k[2]));
    assert_eq!(tag.focus_cycle(3), Some(k[2]));
    assert_eq!(tag.focus_cycle(-4), Some(k[1]));
    // with a floating window at the head there is nothing to cycle from
    tag.add(k[3], true);
    assert_eq!(tag.focus_cycle(1), None);
    tag.promote(k[0]);
    assert_eq!(tag.focus_stack, vec![k[0], k[3], k[2], k[1]]);
    assert_eq!(tag.focus_cycle(1), Some(k[1]));
}

#[test]
fn master_factor_stays_within_bounds() {
    let mut tag = Tag::default();
    tag.adjust_mfact(1);
    assert_eq!(tag.layout.master_factor, 55);
    tag.adjust_mfact(-10);
    assert_eq!(tag.layout.master_factor, 45);
    tag.adjust_mfact(100);
    assert_eq!(tag.layout.master_factor, 90);
    tag.adjust_mfact(i32::MIN);
    assert_eq!(tag.layout.master_factor, 10);
    tag.adjust_mfact(i32::MAX);
    assert_eq!(tag.layout.master_factor, 90);
}

#[test]
fn master_count_stays_at_one_or_more() {
    let mut tag = Tag::default();
    tag.adjust_nmaster(2);
    assert_eq!(tag.layout.master_count, 3);
    tag.adjust_nmaster(-1);
    assert_eq!(tag.layout.master_count, 2);
    tag.adjust_nmaster(-5);
    assert_eq!(tag.layout.master_count, 1);
    tag.adjust_nmaster(i32::MIN);
    assert_eq!(tag.layout.master_count, 1);
}
