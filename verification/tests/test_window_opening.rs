use std::collections::HashMap;

use monotile::geometry::{Point, Rect, Size};
use monotile::state::{CommitOutcome, CommitProbe, State};
use monotile::shell::window::{Effect, SurfaceId, WindowId};

/// A configure event as a client sees it.
#[derive(Debug, Clone, PartialEq)]
struct Configure {
    width: i32,
    height: i32,
    activated: bool,
}

/// What a client knows of one of its windows.
#[derive(Debug, Default)]
struct ClientWindow {
    configured: bool,
    has_buffer: bool,
    width: i32,
    height: i32,
    activated: bool,
    closed: bool,
    configures: Vec<Configure>,
}

/// The manager with one 1000x800 output and the clients' side of the
/// protocol, as far as the tests look at it.
struct Fixture {
    state: State,
    windows: HashMap<SurfaceId, ClientWindow>,
    next_surface: SurfaceId,
}

impl Fixture {
    fn new() -> Self {
        let mut state = State::new();
        state.add_monitor(Rect::from_size(Size::new(1000, 800)));
        Fixture {
            state,
            windows: HashMap::new(),
            next_surface: 1,
        }
    }

    fn create_window(&mut self) -> SurfaceId {
        let surface = self.next_surface;
        self.next_surface += 1;
        self.windows.insert(surface, ClientWindow::default());
        self.state.new_toplevel(surface);
        surface
    }

    fn apply(&mut self, effects: Vec<Effect>) {
        for effect in effects {
            match effect {
                Effect::Resize { surface, size } => {
                    let w = self.windows.get_mut(&surface).unwrap();
                    if w.width != size.w || w.height != size.h {
                        w.width = size.w;
                        w.height = size.h;
                        let cfg = Configure { width: w.width, height: w.height, activated: w.activated };
                        w.configures.push(cfg);
                    }
                }
                Effect::Activate { surface, active } => {
                    let w = self.windows.get_mut(&surface).unwrap();
                    if w.activated != active {
                        w.activated = active;
                        let cfg = Configure { width: w.width, height: w.height, activated: w.activated };
                        w.configures.push(cfg);
                    }
                }
                Effect::Close { surface } => {
                    self.windows.get_mut(&surface).unwrap().closed = true;
                }
            }
        }
    }

    fn commit(&mut self, surface: SurfaceId) {
        let w = &self.windows[&surface];
        let probe = CommitProbe {
            configured: w.configured,
            has_buffer: w.has_buffer,
            has_parent: false,
            min_size: Size::new(0, 0),
            max_size: Size::new(0, 0),
            size: Size::new(0, 0),
        };
        match self.state.handle_commit(surface, probe) {
            CommitOutcome::Ignored => {}
            CommitOutcome::Configure => {
                let w = self.windows.get_mut(&surface).unwrap();
                w.configured = true;
                w.configures.push(Configure { width: 0, height: 0, activated: false });
            }
            CommitOutcome::Mapped { effects, .. } => {
                self.apply(effects);
                self.update_focus();
            }
        }
    }

    fn ack_and_commit(&mut self, surface: SurfaceId) {
        self.windows.get_mut(&surface).unwrap().has_buffer = true;
        self.commit(surface);
    }

    fn update_focus(&mut self) {
        let (_, effects) = self.state.update_focus(None);
        self.apply(effects);
    }

    fn set_focus(&mut self, id: Option<WindowId>) {
        let (_, effects) = self.state.set_focus(None, id);
        self.apply(effects);
    }

    fn take_configures(&mut self, surface: SurfaceId) -> Vec<Configure> {
        std::mem::take(&mut self.windows.get_mut(&surface).unwrap().configures)
    }
}

fn open_window(f: &mut Fixture) -> SurfaceId {
    let w = f.create_window();
    f.commit(w);
    f.ack_and_commit(w);
    assert!(
        f.state.mon().active_id().is_some(),
        "window {w} should be mapped after open_window",
    );
    w
}

#[test]
fn two_windows() {
    let mut f = Fixture::new();

    let w1 = open_window(&mut f);
    f.take_configures(w1); // drain

    let w2 = open_window(&mut f);
    assert_eq!(
        f.state.mon().visible_windows().len(),
        2,
        "compositor should have 2 visible windows",
    );

    // w1 should be reconfigured (full -> master)
    let cfgs1 = f.take_configures(w1);
    // w2 got its initial configure during open_window
    let cfgs2 = f.take_configures(w2);

    assert!(!cfgs1.is_empty(), "master should be reconfigured",);
    assert!(!cfgs2.is_empty(), "stack window should get a configure",);

    // master and stack should have different widths
    let last1 = cfgs1.last().unwrap();
    let last2 = cfgs2.last().unwrap();
    assert_ne!(
        last1.width, last2.width,
        "master and stack should differ: \
         {}x{} vs {}x{}",
        last1.width, last1.height, last2.width, last2.height,
    );
}

#[test]
fn close_window() {
    let mut f = Fixture::new();

    let _w1 = open_window(&mut f);
    let w2 = open_window(&mut f);

    // close the active window (w2) via the server
    let close = f.state.mon().kill_active();
    f.apply(close.into_iter().collect());

    let ws = &f.windows[&w2];
    assert!(ws.closed, "expected close event on second window",);
}

#[test]
fn tag_switch() {
    let mut f = Fixture::new();

    let w = open_window(&mut f);
    f.take_configures(w); // drain

    let effects = f.state.mon_mut().set_active_tag(1);
    f.apply(effects);

    // window is on tag 0, not visible on tag 1
    let cfgs = f.take_configures(w);
    assert!(
        cfgs.is_empty(),
        "no configures expected after switching \
         away from window's tag, got {}",
        cfgs.len(),
    );
    assert_eq!(
        f.state.mon().visible_windows().len(),
        0,
        "tag 1 should have no visible windows",
    );

    // switch back — window should be visible again
    f.state.mon_mut().set_active_tag(0);
    assert_eq!(
        f.state.mon().visible_windows().len(),
        1,
        "tag 0 should have 1 visible window",
    );
}

/// Check that the last configure for a window has the Activated state.
fn is_activated(f: &mut Fixture, w: SurfaceId) -> bool {
    let cfgs = f.take_configures(w);
    assert!(
        !cfgs.is_empty(),
        "expected at least one configure for window {w}"
    );
    cfgs.last().unwrap().activated
}

#[test]
fn first_window_activated() {
    let mut f = Fixture::new();

    let w = open_window(&mut f);
    f.take_configures(w); // drain initial

    // trigger focus sync
    f.update_focus();

    assert!(is_activated(&mut f, w), "sole window should be activated");
}

#[test]
fn second_window_steals_focus() {
    let mut f = Fixture::new();

    let w1 = open_window(&mut f);
    f.take_configures(w1); // drain

    let w2 = open_window(&mut f);
    f.update_focus();

    assert!(
        !is_activated(&mut f, w1),
        "first window should not be activated"
    );
    assert!(
        is_activated(&mut f, w2),
        "second window should be activated"
    );
}

#[test]
fn focus_cycle() {
    let mut f = Fixture::new();

    let w1 = open_window(&mut f);
    let w2 = open_window(&mut f);
    f.take_configures(w1);
    f.take_configures(w2);

    // cycle focus to w1
    if let Some(id) = f.state.mon().tag().focus_cycle(1) {
        f.set_focus(Some(id));
    }

    assert!(
        is_activated(&mut f, w1),
        "w1 should be activated after focus cycle"
    );
    assert!(
        !is_activated(&mut f, w2),
        "w2 should not be activated after focus cycle"
    );
}

#[test]
fn focus_after_remove() {
    let mut f = Fixture::new();

    let w1 = open_window(&mut f);
    let _w2 = open_window(&mut f);
    f.take_configures(w1);

    // remove the active window and re-sync focus
    let active = f.state.mon().active_id().unwrap();
    let effects = f.state.mon_mut().unmap(active);
    f.apply(effects);
    f.update_focus();

    assert_eq!(
        f.state.mon().visible_windows().len(),
        1,
        "should have 1 visible window after remove",
    );
    assert!(
        is_activated(&mut f, w1),
        "remaining window should be activated"
    );
}

#[test]
fn float_geo_preserved_across_toggle() {
    let mut f = Fixture::new();

    let w = open_window(&mut f);
    f.take_configures(w);

    let id = f.state.mon().active_id().unwrap();

    // toggle to floating, should get a centered float_geo
    f.state.mon_mut().toggle_active_floating();
    let geo1 = f.state.mon().get(id).unwrap().float_geo;
    assert!(
        geo1.size.w > 0 && geo1.size.h > 0,
        "float_geo should have nonzero size"
    );

    // modify float_geo to simulate a move
    let moved = Rect::new(Point::new(100, 200), geo1.size);
    f.state.mon_mut().set_float_geo(id, moved);

    // toggle to tiled and back to floating
    f.state.mon_mut().toggle_active_floating();
    f.state.mon_mut().toggle_active_floating();

    let geo2 = f.state.mon().get(id).unwrap().float_geo;
    assert_eq!(
        geo2, moved,
        "float_geo should be preserved across tiled round-trip"
    );
}

#[test]
fn master_takes_the_master_rectangle() {
    let mut f = Fixture::new();
    let w1 = open_window(&mut f);
    let w2 = open_window(&mut f);
    let visible = f.state.mon().visible_windows();
    assert_eq!(visible[0].surface, w1);
    assert_eq!(visible[1].surface, w2);
    // factor 54: usable 996 wide, split at 537
    assert_eq!(visible[0].tiled_geo, Rect::new(Point::new(2, 2), Size::new(535, 796)));
    assert_eq!(visible[1].tiled_geo, Rect::new(Point::new(541, 2), Size::new(457, 796)));
    assert_ne!(visible[0].tiled_geo.size.w, visible[1].tiled_geo.size.w);
}

#[test]
fn first_configure_precedes_mapping() {
    let mut f = Fixture::new();
    let w = f.create_window();
    f.commit(w);
    assert!(f.state.mon().active_id().is_none());
    assert_eq!(f.take_configures(w), vec![Configure { width: 0, height: 0, activated: false }]);
    // a commit without a buffer maps nothing
    f.commit(w);
    assert!(f.state.mon().active_id().is_none());
    f.ack_and_commit(w);
    assert!(f.state.mon().active_id().is_some());
    assert_eq!(f.state.find_pending(w), None);
}
