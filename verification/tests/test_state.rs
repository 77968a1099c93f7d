use monotile::geometry::{Point, Rect, Size, GEO_LIMIT};
use monotile::grabs::{bounds_ok, constrain, MoveSurfaceGrab, ResizeSurfaceGrab};
use monotile::input::{
    mouse_bindings, KeyAction, Mods, MouseAction, BTN_LEFT, BTN_MIDDLE, BTN_RIGHT, LOGO, PREVIOUS_TAG,
};
use monotile::shell::monitor::Monitor;
use monotile::state::{
    should_float, unconstrain_popup, ButtonOutcome, Command, CommitOutcome, CommitProbe, Grab, State,
};
use monotile::shell::window::{Effect, WindowId};

fn area() -> Rect {
    Rect::from_size(Size::new(1000, 800))
}

fn probe(configured: bool, has_buffer: bool) -> CommitProbe {
    CommitProbe {
        configured,
        has_buffer,
        has_parent: false,
        min_size: Size::new(0, 0),
        max_size: Size::new(0, 0),
        size: Size::new(0, 0),
    }
}

fn off(surface: u64) -> Effect {
    Effect::Activate { surface, active: false }
}

fn on(surface: u64) -> Effect {
    Effect::Activate { surface, active: true }
}

fn state() -> State {
    let mut s = State::new();
    s.add_monitor(area());
    s
}

fn open(s: &mut State, surface: u64) -> WindowId {
    s.new_toplevel(surface);
    match s.handle_commit(surface, probe(true, true)) {
        CommitOutcome::Mapped { id, .. } => id,
        other => panic!("not mapped: {other:?}"),
    }
}

#[test]
fn windows_with_a_parent_or_a_fixed_extent_float() {
    let z = Size::new(0, 0);
    assert!(!should_float(false, z, z));
    assert!(should_float(true, z, z));
    assert!(should_float(false, Size::new(300, 200), Size::new(300, 0)));
    assert!(should_float(false, Size::new(300, 200), Size::new(0, 200)));
    assert!(should_float(false, Size::new(300, 200), Size::new(300, 200)));
    assert!(!should_float(false, Size::new(300, 200), Size::new(400, 300)));
    // a fixed width counts only with a least height
    assert!(!should_float(false, Size::new(300, 0), Size::new(300, 0)));
    assert!(!should_float(false, Size::new(0, 200), Size::new(0, 200)));
}

#[test]
fn state_starts_without_monitors() {
    let mut s = State::new();
    assert!(!s.has_monitor());
    s.add_monitor(area());
    assert!(s.has_monitor());
    assert_eq!(s.mon().area(), area());
    assert_eq!(s.mon().window_count(), 0);
}

#[test]
fn commit_of_a_stranger_is_ignored() {
    let mut s = state();
    assert!(matches!(s.handle_commit(9, probe(true, true)), CommitOutcome::Ignored));
    assert_eq!(s.mon().window_count(), 0);
}

#[test]
fn commit_configures_then_maps() {
    let mut s = state();
    s.new_toplevel(5);
    s.new_toplevel(6);
    assert_eq!(s.find_pending(5), Some(0));
    assert_eq!(s.find_pending(6), Some(1));
    assert_eq!(s.find_pending(7), None);
    assert!(matches!(s.handle_commit(6, probe(false, false)), CommitOutcome::Configure));
    assert!(matches!(s.handle_commit(6, probe(false, true)), CommitOutcome::Configure));
    assert!(matches!(s.handle_commit(6, probe(true, false)), CommitOutcome::Ignored));
    assert_eq!(s.find_pending(6), Some(1));
    match s.handle_commit(6, probe(true, true)) {
        CommitOutcome::Mapped { id, floating, effects } => {
            assert!(!floating);
            assert_eq!(s.mon().get(id).unwrap().surface, 6);
            assert_eq!(effects, vec![Effect::Resize { surface: 6, size: Size::new(1000, 800) }]);
        }
        other => panic!("not mapped: {other:?}"),
    }
    assert_eq!(s.find_pending(6), None);
    assert_eq!(s.find_pending(5), Some(0));
    // mapped windows commit without effect
    assert!(matches!(s.handle_commit(6, probe(true, true)), CommitOutcome::Ignored));
    assert_eq!(s.mon().window_count(), 1);
}

#[test]
fn commit_maps_a_dialog_floating_at_its_size() {
    let mut s = state();
    s.new_toplevel(1);
    let p = CommitProbe { has_parent: true, size: Size::new(400, 300), ..probe(true, true) };
    match s.handle_commit(1, p) {
        CommitOutcome::Mapped { id, floating, effects } => {
            assert!(floating);
            assert!(effects.is_empty());
            let we = *s.mon().get(id).unwrap();
            assert!(we.floating);
            assert_eq!(we.float_geo, Rect::new(Point::new(300, 250), Size::new(400, 300)));
        }
        other => panic!("not mapped: {other:?}"),
    }
}

#[test]
fn destroyed_window_is_unmapped_and_focus_moves_on() {
    let mut s = state();
    let a = open(&mut s, 1);
    let _b = open(&mut s, 2);
    s.update_focus(None);
    s.new_toplevel(2);
    let (focus, effects) = s.toplevel_destroyed(2, None).unwrap();
    assert_eq!(focus, Some(1));
    assert_eq!(
        effects,
        vec![Effect::Resize { surface: 1, size: Size::new(1000, 800) }, off(1), on(1)]
    );
    assert_eq!(s.mon().window_count(), 1);
    assert!(s.mon().get(a).unwrap().focused);
    assert_eq!(s.find_pending(2), None);
    // a window that only waited
    s.new_toplevel(3);
    assert!(s.toplevel_destroyed(3, None).is_none());
    assert_eq!(s.find_pending(3), None);
    assert_eq!(s.mon().window_count(), 1);
}

#[test]
fn an_exclusive_layer_surface_takes_the_focus() {
    let mut s = state();
    let a = open(&mut s, 1);
    s.update_focus(None);
    assert!(s.mon().get(a).unwrap().focused);
    let (focus, effects) = s.set_focus(Some(77), Some(a));
    assert_eq!(focus, Some(77));
    assert_eq!(effects, vec![off(1)]);
    assert!(!s.mon().get(a).unwrap().focused);
    let (focus, effects) = s.update_focus(None);
    assert_eq!(focus, Some(1));
    assert_eq!(effects, vec![off(1), on(1)]);
}

#[test]
fn actions_are_dispatched() {
    let mut s = state();
    let a = open(&mut s, 1);
    let b = open(&mut s, 2);

    let r = s.handle_action(KeyAction::Quit, None);
    assert_eq!(r.command, Command::Quit);
    assert_eq!(r.focus, Some(2));
    assert_eq!(r.effects, vec![off(1), off(2), on(2)]);

    let r = s.handle_action(KeyAction::Spawn("foot", &["--log-level", "error"]), None);
    assert_eq!(r.command, Command::Spawn("foot", &["--log-level", "error"]));

    let r = s.handle_action(KeyAction::FocusStack(1), None);
    assert_eq!(r.command, Command::Nothing);
    assert_eq!(r.focus, Some(1));
    assert!(s.mon().get(a).unwrap().focused);
    assert!(!s.mon().get(b).unwrap().focused);
    // the cycle's transfer, then the one that follows every action
    assert_eq!(
        r.effects,
        vec![off(1), off(2), on(1), off(1), off(2), on(1)]
    );

    let r = s.handle_action(KeyAction::KillClient, None);
    assert_eq!(r.effects[0], Effect::Close { surface: 1 });

    s.handle_action(KeyAction::Zoom, None);
    assert_eq!(s.mon().tag().tiled, vec![a, b]);
    s.handle_action(KeyAction::MoveStack(1), None);
    assert_eq!(s.mon().tag().tiled, vec![b, a]);
    s.handle_action(KeyAction::IncNMaster(1), None);
    assert_eq!(s.mon().tag().layout.master_count, 2);
    s.handle_action(KeyAction::SetMFact(-1), None);
    assert_eq!(s.mon().tag().layout.master_factor, 53);

    s.handle_action(KeyAction::ToggleFloating, None);
    assert!(s.mon().get(a).unwrap().floating);

    s.handle_action(KeyAction::ToggleTag(4), None);
    s.handle_action(KeyAction::View(4), None);
    assert_eq!(s.mon().active_tag(), 4);
    assert_eq!(s.mon().active_id(), Some(a));
    s.handle_action(KeyAction::Tag(6), None);
    assert_eq!(s.mon().active_id(), None);
    let r = s.handle_action(KeyAction::View(PREVIOUS_TAG), None);
    assert_eq!(s.mon().active_tag(), 0);
    assert_eq!(s.mon().prev_tag(), 4);
    // a was moved to tag 6 alone
    assert_eq!(s.mon().tag().window_ids(), vec![b]);
    assert_eq!(r.focus, Some(2));
    s.handle_action(KeyAction::View(99), None);
    assert_eq!(s.mon().active_tag(), 0);

    for action in [KeyAction::ToggleFullscreen, KeyAction::FocusMon(1), KeyAction::TagMon(-1)] {
        let r = s.handle_action(action, None);
        assert_eq!(r.command, Command::Nothing);
        assert_eq!(s.mon().active_tag(), 0);
    }
}

#[test]
fn mouse_actions_grab_floating_windows_only() {
    let mut mon = Monitor::new(area());
    mon.map(1, Size::new(0, 0), false);
    let f = mon.map(2, Size::new(200, 100), true).0;
    let geo = Rect::new(Point::new(400, 350), Size::new(200, 100));
    assert_eq!(
        mon.handle_mouse_action(MouseAction::Move, Point::new(450, 400)),
        Some(Grab::Move { window: f, initial_location: geo.loc })
    );
    assert_eq!(
        mon.handle_mouse_action(MouseAction::Resize, Point::new(450, 400)),
        Some(Grab::Resize { window: f, initial_rect: geo })
    );
    assert_eq!(mon.handle_mouse_action(MouseAction::ToggleFloating, Point::new(450, 400)), None);
    assert_eq!(mon.handle_mouse_action(MouseAction::Move, Point::new(10, 10)), None);
    assert_eq!(mon.handle_mouse_action(MouseAction::Resize, Point::new(-5, 10)), None);
}

#[test]
fn extents_are_held_within_the_bounds() {
    // zero stands for no bound
    assert_eq!(constrain(500, 0, 0), 500);
    assert_eq!(constrain(-20, 0, 0), 1);
    assert_eq!(constrain(0, 0, 0), 1);
    assert_eq!(constrain(i64::MAX, 0, 0), i32::MAX);
    assert_eq!(constrain(i64::MIN, 0, 0), 1);
    assert_eq!(constrain(50, 100, 300), 100);
    assert_eq!(constrain(500, 100, 300), 300);
    assert_eq!(constrain(200, 100, 300), 200);
    assert_eq!(constrain(200, -5, 300), 200);
    assert_eq!(constrain(0, -5, 300), 1);
    assert!(bounds_ok(0, 0));
    assert!(bounds_ok(100, 100));
    assert!(bounds_ok(100, 0));
    assert!(!bounds_ok(100, 50));
    assert!(!bounds_ok(0, -1));
}

#[test]
fn move_grab_moves_the_floating_rectangle() {
    let mut mon = Monitor::new(area());
    let f = mon.map(1, Size::new(200, 100), true).0;
    let grab = MoveSurfaceGrab { window_id: f, initial_location: Point::new(400, 350) };
    assert!(grab.motion(&mut mon, Point::new(-30, 40)));
    assert_eq!(mon.get(f).unwrap().float_geo, Rect::new(Point::new(-30, 40), Size::new(200, 100)));
    // beyond the limit for window rectangles
    assert!(!grab.motion(&mut mon, Point::new(i32::MAX, 0)));
    assert_eq!(mon.get(f).unwrap().float_geo.loc, Point::new(-30, 40));
    mon.unmap(f);
    assert!(!grab.motion(&mut mon, Point::new(0, 0)));
}

#[test]
fn resize_grab_resizes_within_the_bounds() {
    let mut mon = Monitor::new(area());
    let f = mon.map(7, Size::new(200, 100), true).0;
    let geo = mon.get(f).unwrap().float_geo;
    let grab = ResizeSurfaceGrab::start(f, geo);
    let none = Size::new(0, 0);
    assert_eq!(
        grab.motion(&mut mon, Point::new(50, -20), none, none),
        Some(Effect::Resize { surface: 7, size: Size::new(250, 80) })
    );
    assert_eq!(mon.get(f).unwrap().float_geo, Rect::new(geo.loc, Size::new(250, 80)));
    // the change is counted from where the resize began
    assert_eq!(
        grab.motion(&mut mon, Point::new(-500, -500), none, none),
        Some(Effect::Resize { surface: 7, size: Size::new(1, 1) })
    );
    assert_eq!(
        grab.motion(&mut mon, Point::new(500, 500), Size::new(100, 50), Size::new(300, 0)),
        Some(Effect::Resize { surface: 7, size: Size::new(300, 600) })
    );
    assert_eq!(grab.release(&mon), Some(Effect::Resize { surface: 7, size: Size::new(300, 600) }));
    // beyond the limit for window rectangles: nothing changes
    assert_eq!(grab.motion(&mut mon, Point::new(i32::MAX, 0), none, none), None);
    assert_eq!(mon.get(f).unwrap().float_geo.size, Size::new(300, 600));
    mon.unmap(f);
    assert_eq!(grab.motion(&mut mon, Point::new(1, 1), none, none), None);
    assert_eq!(grab.release(&mon), None);
}

#[test]
fn popup_bounds_are_relative_to_the_popup() {
    let output = Rect::from_size(Size::new(1000, 800));
    assert_eq!(
        unconstrain_popup(output, Point::new(100, 50), Point::new(20, 30)),
        Rect::new(Point::new(-120, -80), Size::new(1000, 800))
    );
    assert_eq!(
        unconstrain_popup(output, Point::new(i32::MAX, 0), Point::new(i32::MAX, 0)),
        Rect::new(Point::new(i32::MIN, 0), Size::new(1000, 800))
    );
}

#[test]
fn pointer_motion_focuses_the_window_under_it() {
    let mut mon = Monitor::new(area());
    let a = mon.map(1, Size::new(0, 0), false).0;
    let b = mon.map(2, Size::new(0, 0), false).0;
    // a is the master on the left, b the stack on the right
    let (focus, effects) = mon.pointer_motion(None, Point::new(10, 10)).unwrap();
    assert_eq!(focus, Some(1));
    assert_eq!(effects, vec![off(1), off(2), on(1)]);
    assert!(mon.get(a).unwrap().focused);
    let (focus, _) = mon.pointer_motion(None, Point::new(900, 10)).unwrap();
    assert_eq!(focus, Some(2));
    assert!(mon.get(b).unwrap().focused);
    assert!(!mon.get(a).unwrap().focused);
    // between the windows: nothing changes
    assert!(mon.pointer_motion(None, Point::new(538, 10)).is_none());
    assert!(mon.get(b).unwrap().focused);
    // an exclusive layer surface keeps the keyboard
    let (focus, _) = mon.pointer_motion(Some(50), Point::new(10, 10)).unwrap();
    assert_eq!(focus, Some(50));
    assert!(!mon.get(a).unwrap().focused);
    assert!(!mon.get(b).unwrap().focused);
}

#[test]
fn pointer_button_grabs_or_raises() {
    let table = mouse_bindings();
    let logo = Mods::from_bits(LOGO);
    let mut mon = Monitor::new(area());
    let t = mon.map(1, Size::new(0, 0), false).0;
    let f = mon.map(2, Size::new(200, 100), true).0;
    let g = mon.map(3, Size::new(200, 100), true).0;
    let geo = Rect::new(Point::new(400, 350), Size::new(200, 100));
    let at = Point::new(450, 400);

    // bound presses are not passed on; they grab the topmost floating window
    match mon.pointer_button(&table, logo, BTN_LEFT, at, None) {
        ButtonOutcome::Bound(grab) => {
            assert_eq!(grab, Some(Grab::Move { window: g, initial_location: geo.loc }))
        }
        other => panic!("{other:?}"),
    }
    match mon.pointer_button(&table, logo, BTN_RIGHT, at, None) {
        ButtonOutcome::Bound(grab) => {
            assert_eq!(grab, Some(Grab::Resize { window: g, initial_rect: geo }))
        }
        other => panic!("{other:?}"),
    }
    match mon.pointer_button(&table, logo, BTN_MIDDLE, at, None) {
        ButtonOutcome::Bound(grab) => assert_eq!(grab, None),
        other => panic!("{other:?}"),
    }
    match mon.pointer_button(&table, logo, BTN_LEFT, Point::new(10, 10), None) {
        ButtonOutcome::Bound(grab) => assert_eq!(grab, None),
        other => panic!("{other:?}"),
    }
    assert_eq!(mon.tag().floating, vec![f, g]);

    // an unbound press raises and focuses
    mon.raise(f);
    assert_eq!(mon.tag().floating, vec![g, f]);
    match mon.pointer_button(&table, Mods::default(), BTN_LEFT, at, None) {
        ButtonOutcome::Forward(Some((focus, effects))) => {
            assert_eq!(focus, Some(2));
            assert_eq!(effects, vec![off(1), off(2), off(3), on(2)]);
        }
        other => panic!("{other:?}"),
    }
    assert_eq!(mon.tag().floating, vec![g, f]);
    assert!(mon.get(f).unwrap().focused);
    match mon.pointer_button(&table, Mods::default(), BTN_LEFT, Point::new(10, 10), None) {
        ButtonOutcome::Forward(Some((focus, _))) => assert_eq!(focus, Some(1)),
        other => panic!("{other:?}"),
    }
    assert!(mon.get(t).unwrap().focused);
    assert_eq!(mon.tag().focus_stack, vec![t, f, g]);
    match mon.pointer_button(&table, Mods::default(), BTN_LEFT, Point::new(-10, 10), None) {
        ButtonOutcome::Forward(None) => {}
        other => panic!("{other:?}"),
    }
    assert!(mon.get(t).unwrap().focused);
}

#[test]
fn mapping_is_refused_beyond_the_limits() {
    let mut s = state();
    assert!(s.can_map(probe(true, true)));
    let huge = CommitProbe { size: Size::new(GEO_LIMIT + 1, 10), ..probe(true, true) };
    assert!(!s.can_map(huge));
    let mut mon = Monitor::new(area());
    assert!(mon.can_map(Size::new(GEO_LIMIT, GEO_LIMIT)));
    assert!(!mon.can_map(Size::new(10, GEO_LIMIT + 1)));
    assert!(mon.try_map(1, Size::new(10, GEO_LIMIT + 1), true).is_none());
    assert_eq!(mon.window_count(), 0);
    let (id, effects) = mon.try_map(1, Size::new(10, 20), false).unwrap();
    assert_eq!(mon.get(id).unwrap().surface, 1);
    assert_eq!(effects, vec![Effect::Resize { surface: 1, size: Size::new(1000, 800) }]);
    assert_eq!(mon.window_count(), 1);
}
