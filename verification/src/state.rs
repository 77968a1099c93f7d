//! The state around the monitors: windows that wait to be mapped, the
//! routing of focus, and the dispatch of key and button actions.

use crate::geometry::{Point, Rect, Size, AREA_LIMIT};
use crate::input::{
    find_mouse_action, mouse_action, KeyAction, Mods, MouseAction, MouseButton, PREVIOUS_TAG,
};
use crate::shell::monitor::{Monitor, MonitorView};
use crate::shell::window::{Effect, SurfaceId, WindowId};
use vstd::prelude::*;

verus! {

/// Whether a new window opens floating: one with a parent does, and one
/// whose width or height is fixed.
pub open spec fn floats(has_parent: bool, min: Size, max: Size) -> bool {
    has_parent || (min.w > 0 && min.h > 0 && (min.w == max.w || min.h == max.h))
}

pub fn should_float(has_parent: bool, min: Size, max: Size) -> (b: bool)
    ensures
        b == floats(has_parent, min, max),
{
    if has_parent {
        return true;
    }
    min.w > 0 && min.h > 0 && (min.w == max.w || min.h == max.h)
}

/// What is known of a surface when it commits.
#[derive(Clone, Copy, Debug, PartialEq, Eq, Structural)]
pub struct CommitProbe {
    /// The first configure has been sent.
    pub configured: bool,
    /// A buffer is attached.
    pub has_buffer: bool,
    pub has_parent: bool,
    pub min_size: Size,
    pub max_size: Size,
    /// The size that the window asks for. Not positive where it asks for
    /// none.
    pub size: Size,
}

/// What a commit of a surface leads to.
#[derive(Debug)]
pub enum CommitOutcome {
    /// Nothing: the surface is no waiting window, or has no buffer yet.
    Ignored,
    /// The first configure is to be sent.
    Configure,
    /// The window was mapped.
    Mapped { id: WindowId, floating: bool, effects: Vec<Effect> },
}

/// What the program around the manager is to do after a key action.
#[derive(Clone, Copy, Debug, PartialEq)]
pub enum Command {
    Nothing,
    Quit,
    Spawn(&'static str, &'static [&'static str]),
}

/// What a key action leads to.
#[derive(Debug)]
pub struct Reaction {
    pub command: Command,
    /// The requests of the action, then those of the focus transfer that
    /// follows it.
    pub effects: Vec<Effect>,
    /// The surface that keyboard input is to go to.
    pub focus: Option<SurfaceId>,
}

/// The interactive change that a button action starts.
#[derive(Clone, Copy, Debug, PartialEq, Eq, Structural)]
pub enum Grab {
    Move { window: WindowId, initial_location: Point },
    Resize { window: WindowId, initial_rect: Rect },
}

impl MonitorView {
    /// The monitor after a focus transfer past the layer surfaces: where
    /// one of them takes all keyboard input, no window is focused.
    pub open spec fn routed(self, exclusive: Option<SurfaceId>, id: Option<WindowId>) -> MonitorView {
        if exclusive is Some {
            self.focused_on(None)
        } else {
            self.focused_on(id)
        }
    }

    /// The requests that go with `routed`.
    pub open spec fn route_effects(self, exclusive: Option<SurfaceId>, id: Option<WindowId>) -> Seq<
        Effect,
    > {
        if exclusive is Some {
            self.focus_effects(None)
        } else {
            self.focus_effects(id)
        }
    }

    /// The surface that keyboard input goes to after `routed`.
    pub open spec fn route_target(self, exclusive: Option<SurfaceId>, id: Option<WindowId>) -> Option<
        SurfaceId,
    > {
        if exclusive is Some {
            exclusive
        } else {
            self.focus_surface(id)
        }
    }

    /// The monitor after a key action, before the focus transfer that
    /// follows every action.
    pub open spec fn acted(self, action: KeyAction, exclusive: Option<SurfaceId>) -> MonitorView {
        match action {
            KeyAction::FocusStack(delta) => match self.tag().cycle(delta as int) {
                Some(id) => self.routed(exclusive, Some(id)),
                None => self,
            },
            KeyAction::View(tag) => if tag == PREVIOUS_TAG {
                self.viewing_previous()
            } else {
                self.viewing(tag as int)
            },
            KeyAction::Tag(tag) => self.moved_to_tag(tag as int),
            KeyAction::ToggleTag(tag) => self.toggled_tag(tag as int),
            KeyAction::ToggleFloating => self.float_toggled(),
            KeyAction::MoveStack(delta) => self.stack_moved(delta as int),
            KeyAction::Zoom => self.zoomed(),
            KeyAction::IncNMaster(delta) => self.masters_stepped(delta as int),
            KeyAction::SetMFact(delta) => self.factor_stepped(delta as int),
            _ => self,
        }
    }

    /// The requests of a key action, before those of the focus transfer
    /// that follows it.
    pub open spec fn act_effects(self, action: KeyAction, exclusive: Option<SurfaceId>) -> Seq<Effect> {
        match action {
            KeyAction::FocusStack(delta) => match self.tag().cycle(delta as int) {
                Some(id) => self.route_effects(exclusive, Some(id)),
                None => Seq::empty(),
            },
            KeyAction::View(tag) => if tag == PREVIOUS_TAG || tag < crate::config::TAGCOUNT {
                self.acted(action, exclusive).resize_requests()
            } else {
                Seq::empty()
            },
            KeyAction::Tag(tag) => if self.acts_on(tag as int) {
                self.acted(action, exclusive).resize_requests()
            } else {
                Seq::empty()
            },
            KeyAction::ToggleTag(tag) => if self.acts_on(tag as int) {
                self.acted(action, exclusive).resize_requests()
            } else {
                Seq::empty()
            },
            KeyAction::KillClient => match self.focused_window() {
                Some(we) => seq![Effect::Close { surface: we.surface }],
                None => Seq::empty(),
            },
            KeyAction::ToggleFloating => self.float_toggle_effects(),
            KeyAction::MoveStack(delta) => if self.active_id() is Some {
                self.acted(action, exclusive).resize_requests()
            } else {
                Seq::empty()
            },
            KeyAction::Zoom => if self.active_id() is Some {
                self.acted(action, exclusive).resize_requests()
            } else {
                Seq::empty()
            },
            KeyAction::IncNMaster(delta) => self.acted(action, exclusive).resize_requests(),
            KeyAction::SetMFact(delta) => self.acted(action, exclusive).resize_requests(),
            _ => Seq::empty(),
        }
    }

    /// The monitor after a key action and the focus transfer that follows
    /// it, which gives the focus to the active window.
    pub open spec fn handled(self, action: KeyAction, exclusive: Option<SurfaceId>) -> MonitorView {
        let acted = self.acted(action, exclusive);
        acted.routed(exclusive, acted.active_id())
    }

    /// The interactive change that a button action starts at the pixel
    /// `p`: a move or a resize of the topmost window there, if it floats.
    pub open spec fn grab_for(self, action: MouseAction, p: Point) -> Option<Grab> {
        match self.window_at(p) {
            Some(we) => if !we.floating {
                None
            } else {
                match action {
                    MouseAction::Move => Some(
                        Grab::Move { window: we.id, initial_location: we.active_geo().loc },
                    ),
                    MouseAction::Resize => Some(
                        Grab::Resize { window: we.id, initial_rect: we.active_geo() },
                    ),
                    MouseAction::ToggleFloating => None,
                }
            },
            None => None,
        }
    }

    /// The monitor after a move of the pointer to the pixel `p`: the
    /// topmost window there has the focus, where focus follows the pointer.
    pub open spec fn hovered(self, exclusive: Option<SurfaceId>, p: Point) -> MonitorView {
        match self.window_at(p) {
            Some(we) => if crate::config::FOCUS_FOLLOWS_CURSOR {
                self.routed(exclusive, Some(we.id))
            } else {
                self
            },
            None => self,
        }
    }

    /// The monitor after a press of a button at the pixel `p`. A press
    /// that meets a binding changes nothing. Any other press raises the
    /// topmost window at `p` and gives it the focus.
    pub open spec fn pressed(
        self,
        bound: Option<MouseAction>,
        exclusive: Option<SurfaceId>,
        p: Point,
    ) -> MonitorView {
        match self.window_at(p) {
            Some(we) => if bound is Some {
                self
            } else {
                self.raised(we.id).routed(exclusive, Some(we.id))
            },
            None => self,
        }
    }
}

/// The command that a key action asks of the program around the manager.
pub open spec fn command_of(action: KeyAction) -> Command {
    match action {
        KeyAction::Quit => Command::Quit,
        KeyAction::Spawn(cmd, args) => Command::Spawn(cmd, args),
        _ => Command::Nothing,
    }
}

impl Monitor {
    /// Transfers the focus past the layer surfaces: where one of them
    /// takes all keyboard input, every window loses the focus and input
    /// goes to that surface; otherwise the focus goes to `id`.
    pub fn route_focus(&mut self, exclusive: Option<SurfaceId>, id: Option<WindowId>) -> (r: (
        Option<SurfaceId>,
        Vec<Effect>,
    ))
        requires
            old(self)@.wf(),
        ensures
            final(self)@ == old(self)@.routed(exclusive, id),
            final(self)@.wf(),
            r.0 == old(self)@.route_target(exclusive, id),
            r.1@ == old(self)@.route_effects(exclusive, id),
    {
        match exclusive {
            Some(surface) => {
                let (_, effects) = self.set_focus(None);
                (Some(surface), effects)
            },
            None => self.set_focus(id),
        }
    }

    /// Gives the focus to the active window.
    pub fn update_focus(&mut self, exclusive: Option<SurfaceId>) -> (r: (Option<SurfaceId>, Vec<Effect>))
        requires
            old(self)@.wf(),
        ensures
            final(self)@ == old(self)@.routed(exclusive, old(self)@.active_id()),
            final(self)@.wf(),
            r.0 == old(self)@.route_target(exclusive, old(self)@.active_id()),
            r.1@ == old(self)@.route_effects(exclusive, old(self)@.active_id()),
    {
        let id = self.active_id();
        self.route_focus(exclusive, id)
    }

    /// Carries out a key action, then gives the focus to the active
    /// window.
    pub fn handle_action(&mut self, action: KeyAction, exclusive: Option<SurfaceId>) -> (r: Reaction)
        requires
            old(self)@.wf(),
        ensures
            final(self)@ == old(self)@.handled(action, exclusive),
            final(self)@.wf(),
            r.command == command_of(action),
            r.effects@ == old(self)@.act_effects(action, exclusive) + old(self)@.acted(
                action,
                exclusive,
            ).route_effects(exclusive, old(self)@.acted(action, exclusive).active_id()),
            r.focus == old(self)@.acted(action, exclusive).route_target(
                exclusive,
                old(self)@.acted(action, exclusive).active_id(),
            ),
    {
        let mut command = Command::Nothing;
        let mut effects: Vec<Effect> = Vec::new();
        match action {
            KeyAction::Quit => {
                command = Command::Quit;
            },
            KeyAction::Spawn(cmd, args) => {
                command = Command::Spawn(cmd, args);
            },
            KeyAction::FocusStack(delta) => {
                match self.tag().focus_cycle(delta) {
                    Some(id) => {
                        let (_, moved) = self.route_focus(exclusive, Some(id));
                        effects = moved;
                    },
                    None => {},
                }
            },
            KeyAction::View(tag) => {
                if tag == PREVIOUS_TAG {
                    effects = self.toggle_prev_tag();
                } else {
                    effects = self.set_active_tag(tag);
                }
            },
            KeyAction::Tag(tag) => {
                effects = self.move_active_to_tag(tag);
            },
            KeyAction::ToggleTag(tag) => {
                effects = self.toggle_active_tag(tag);
            },
            KeyAction::KillClient => {
                match self.kill_active() {
                    Some(close) => {
                        effects.push(close);
                    },
                    None => {},
                }
            },
            KeyAction::ToggleFloating => {
                effects = self.toggle_active_floating();
            },
            KeyAction::MoveStack(delta) => {
                effects = self.move_in_stack(delta);
            },
            KeyAction::Zoom => {
                effects = self.zoom();
            },
            KeyAction::IncNMaster(delta) => {
                effects = self.adjust_nmaster(delta);
            },
            KeyAction::SetMFact(delta) => {
                effects = self.adjust_mfact(delta);
            },
            KeyAction::ToggleFullscreen => {},
            KeyAction::FocusMon(_) => {},
            KeyAction::TagMon(_) => {},
        }
        assert(self@ == old(self)@.acted(action, exclusive));
        assert(effects@ =~= old(self)@.act_effects(action, exclusive));
        let (focus, mut moved) = self.update_focus(exclusive);
        effects.append(&mut moved);
        Reaction { command, effects, focus }
    }

    /// The interactive change that a button action starts at the pixel
    /// `p`: a move or a resize of the topmost window there, if it floats.
    pub fn handle_mouse_action(&self, action: MouseAction, p: Point) -> (grab: Option<Grab>)
        requires
            self@.wf(),
        ensures
            grab == self@.grab_for(action, p),
    {
        match self.window_under(p) {
            Some(we) => {
                if !we.floating {
                    return None;
                }
                match action {
                    MouseAction::Move => Some(
                        Grab::Move { window: we.id, initial_location: we.geo().loc },
                    ),
                    MouseAction::Resize => Some(Grab::Resize { window: we.id, initial_rect: we.geo() }),
                    MouseAction::ToggleFloating => None,
                }
            },
            None => None,
        }
    }
}

/// What a press of a pointer button leads to.
#[derive(Debug)]
pub enum ButtonOutcome {
    /// The press met a binding and is not passed on to a client. It may
    /// start an interactive change.
    Bound(Option<Grab>),
    /// The press met no binding and is passed on. The window under the
    /// pointer, if any, was raised and took the focus.
    Forward(Option<(Option<SurfaceId>, Vec<Effect>)>),
}

impl Monitor {
    /// Reacts to a move of the pointer to the pixel `p`: the topmost
    /// window there takes the focus, where focus follows the pointer.
    /// Returns the focus target and the requests of the transfer, if there
    /// was one.
    pub fn pointer_motion(&mut self, exclusive: Option<SurfaceId>, p: Point) -> (r: Option<
        (Option<SurfaceId>, Vec<Effect>),
    >)
        requires
            old(self)@.wf(),
        ensures
            final(self)@ == old(self)@.hovered(exclusive, p),
            final(self)@.wf(),
            r is Some <==> crate::config::FOCUS_FOLLOWS_CURSOR && old(self)@.window_at(p) is Some,
            (match (old(self)@.window_at(p), r) {
                (Some(we), Some((focus, effects))) => {
                    &&& focus == old(self)@.route_target(exclusive, Some(we.id))
                    &&& effects@ == old(self)@.route_effects(exclusive, Some(we.id))
                },
                _ => true,
            }),
    {
        if !crate::config::FOCUS_FOLLOWS_CURSOR {
            return None;
        }
        match self.window_under(p) {
            Some(we) => Some(self.route_focus(exclusive, Some(we.id))),
            None => None,
        }
    }

    /// Reacts to a press of `button` with the modifiers `mods` at the
    /// pixel `p`, while no interactive change is under way. A press that
    /// meets a binding starts what the binding says. Any other press raises
    /// the topmost window at `p` and gives it the focus.
    pub fn pointer_button(
        &mut self,
        bindings: &Vec<MouseButton>,
        mods: Mods,
        button: u32,
        p: Point,
        exclusive: Option<SurfaceId>,
    ) -> (outcome: ButtonOutcome)
        requires
            old(self)@.wf(),
        ensures
            final(self)@ == old(self)@.pressed(mouse_action(bindings@, mods, button), exclusive, p),
            final(self)@.wf(),
            (match (mouse_action(bindings@, mods, button), outcome) {
                (Some(action), ButtonOutcome::Bound(grab)) => grab == old(self)@.grab_for(action, p),
                (None, ButtonOutcome::Forward(moved)) => match (old(self)@.window_at(p), moved) {
                    (Some(we), Some((focus, effects))) => {
                        &&& focus == old(self)@.raised(we.id).route_target(exclusive, Some(we.id))
                        &&& effects@ == old(self)@.raised(we.id).route_effects(exclusive, Some(we.id))
                    },
                    (None, None) => true,
                    _ => false,
                },
                _ => false,
            }),
    {
        match find_mouse_action(bindings, mods, button) {
            Some(action) => {
                return ButtonOutcome::Bound(self.handle_mouse_action(action, p));
            },
            None => {},
        }
        match self.window_under(p) {
            Some(we) => {
                self.raise(we.id);
                ButtonOutcome::Forward(Some(self.route_focus(exclusive, Some(we.id))))
            },
            None => ButtonOutcome::Forward(None),
        }
    }
}

/// The list with every occurrence of `surface` taken out, the rest in
/// order.
pub open spec fn others(s: Seq<SurfaceId>, surface: SurfaceId) -> Seq<SurfaceId>
    decreases s.len(),
{
    if s.len() == 0 {
        s
    } else if s.last() == surface {
        others(s.drop_last(), surface)
    } else {
        others(s.drop_last(), surface).push(s.last())
    }
}

/// `i` is the place of the first occurrence of `surface`.
pub open spec fn first_at(s: Seq<SurfaceId>, surface: SurfaceId, i: int) -> bool {
    &&& 0 <= i < s.len()
    &&& s[i] == surface
    &&& forall|j: int| 0 <= j < i ==> s[j] != surface
}

/// Place of the first occurrence of `surface`, if there is one.
pub open spec fn place_of(s: Seq<SurfaceId>, surface: SurfaceId) -> Option<int> {
    if s.contains(surface) {
        Some(choose|i: int| first_at(s, surface, i))
    } else {
        None
    }
}

/// The first occurrence is the place, and there is none other.
pub proof fn lemma_place_of(s: Seq<SurfaceId>, surface: SurfaceId, i: int)
    requires
        first_at(s, surface, i),
    ensures
        place_of(s, surface) == Some(i),
{
    assert(s.contains(surface));
    let c = choose|c: int| first_at(s, surface, c);
    assert(first_at(s, surface, c));
    if c < i {
    } else if i < c {
    }
}

/// The monitors, the index of the active one, and the surfaces of the
/// windows that wait to be mapped.
pub struct State {
    monitors: Vec<Monitor>,
    active_monitor: usize,
    pending: Vec<SurfaceId>,
}

/// The state as a sequence of monitors, the index of the active one, and
/// the sequence of waiting surfaces.
#[verifier::ext_equal]
pub struct StateView {
    pub monitors: Seq<MonitorView>,
    pub active_monitor: int,
    pub pending: Seq<SurfaceId>,
}

impl View for State {
    type V = StateView;

    closed spec fn view(&self) -> StateView {
        StateView {
            monitors: Seq::new(self.monitors@.len(), |i: int| self.monitors@[i]@),
            active_monitor: self.active_monitor as int,
            pending: self.pending@,
        }
    }
}

impl StateView {
    /// Every monitor is well formed.
    pub open spec fn wf(self) -> bool {
        forall|i: int| 0 <= i < self.monitors.len() ==> (#[trigger] self.monitors[i]).wf()
    }

    /// There is an active monitor.
    pub open spec fn has_monitor(self) -> bool {
        0 <= self.active_monitor < self.monitors.len()
    }

    /// The active monitor.
    pub open spec fn mon(self) -> MonitorView {
        self.monitors[self.active_monitor]
    }

    /// The state with the active monitor replaced.
    pub open spec fn with_mon(self, m: MonitorView) -> StateView {
        StateView { monitors: self.monitors.update(self.active_monitor, m), ..self }
    }

    /// A waiting window can be mapped on the active monitor.
    pub open spec fn can_map(self, probe: CommitProbe) -> bool {
        self.mon().takes(probe.size)
    }

    /// A commit of `surface` maps a window: the surface waits, its first
    /// configure has been sent, and it has a buffer.
    pub open spec fn maps(self, surface: SurfaceId, probe: CommitProbe) -> bool {
        self.pending.contains(surface) && probe.configured && probe.has_buffer
    }

    /// The state after a commit has mapped the waiting window `surface`
    /// under the key `id`: the window waits no longer, and it is mapped on
    /// the active monitor, floating or tiled as its parent and its size
    /// bounds say.
    pub open spec fn committed(self, surface: SurfaceId, probe: CommitProbe, id: WindowId) -> StateView {
        StateView {
            pending: self.pending.remove(place_of(self.pending, surface)->0),
            ..self.with_mon(
                self.mon().mapped(
                    id,
                    surface,
                    probe.size,
                    floats(probe.has_parent, probe.min_size, probe.max_size),
                ),
            )
        }
    }
}

impl State {
    /// A state without monitors and without waiting windows.
    pub fn new() -> (s: State)
        ensures
            s@ == (StateView { monitors: Seq::empty(), active_monitor: 0, pending: Seq::empty() }),
            s@.wf(),
    {
        let s = State { monitors: Vec::new(), active_monitor: 0, pending: Vec::new() };
        assert(s@ =~~= (StateView { monitors: Seq::empty(), active_monitor: 0, pending: Seq::empty() }));
        s
    }

    /// Adds a monitor for an output with the usable area `area`.
    pub fn add_monitor(&mut self, area: Rect)
        requires
            old(self)@.wf(),
            area.within(AREA_LIMIT as int),
        ensures
            final(self)@ == (StateView {
                monitors: old(self)@.monitors.push(MonitorView::fresh(area)),
                ..old(self)@
            }),
            final(self)@.wf(),
    {
        self.monitors.push(Monitor::new(area));
        proof {
            assert(self@.monitors =~= old(self)@.monitors.push(MonitorView::fresh(area)));
            assert(self@ =~~= (StateView {
                monitors: old(self)@.monitors.push(MonitorView::fresh(area)),
                ..old(self)@
            }));
            assert forall|i: int|
                0 <= i < self@.monitors.len()
                implies (#[trigger] self@.monitors[i]).wf() by {
                if i < old(self)@.monitors.len() {
                    assert(old(self)@.monitors[i].wf());
                }
            }
        }
    }

    /// Index of the active monitor.
    pub fn active_monitor(&self) -> (i: usize)
        ensures
            i == self@.active_monitor,
    {
        self.active_monitor
    }

    /// Whether there is an active monitor.
    pub fn has_monitor(&self) -> (b: bool)
        ensures
            b == self@.has_monitor(),
    {
        self.active_monitor < self.monitors.len()
    }

    /// The active monitor.
    pub fn mon(&self) -> (m: &Monitor)
        requires
            self@.has_monitor(),
        ensures
            m@ == self@.mon(),
    {
        &self.monitors[self.active_monitor]
    }

    /// The active monitor, to change it.
    pub fn mon_mut(&mut self) -> (m: &mut Monitor)
        requires
            old(self)@.has_monitor(),
        ensures
            m@ == old(self)@.mon(),
            final(self)@ == old(self)@.with_mon(final(m)@),
    {
        let active = self.active_monitor;
        &mut self.monitors[active]
    }

    /// Notes a new window that waits to be mapped.
    pub fn new_toplevel(&mut self, surface: SurfaceId)
        ensures
            final(self)@ == (StateView { pending: old(self)@.pending.push(surface), ..old(self)@ }),
    {
        self.pending.push(surface);
        proof {
            assert(self@.monitors =~= old(self)@.monitors);
            assert(self@ =~~= (StateView { pending: old(self)@.pending.push(surface), ..old(self)@ }));
        }
    }

    /// Place of `surface` among the waiting windows.
    pub fn find_pending(&self, surface: SurfaceId) -> (r: Option<usize>)
        ensures
            (match r {
                Some(i) => Some(i as int),
                None => None,
            }) == place_of(self@.pending, surface),
            r is Some <==> self@.pending.contains(surface),
            r is Some ==> first_at(self@.pending, surface, r->0 as int),
    {
        let mut i: usize = 0;
        while i < self.pending.len()
            invariant
                0 <= i <= self.pending.len(),
                forall|j: int| 0 <= j < i ==> self.pending@[j] != surface,
            decreases self.pending.len() - i,
        {
            if self.pending[i] == surface {
                proof {
                    lemma_place_of(self.pending@, surface, i as int);
                }
                return Some(i);
            }
            i += 1;
        }
        None
    }
    /// Whether a waiting window can be mapped on the active monitor.
    pub fn can_map(&self, probe: CommitProbe) -> (b: bool)
        requires
            self@.has_monitor(),
        ensures
            b == self@.can_map(probe),
    {
        self.monitors[self.active_monitor].can_map(probe.size)
    }

    /// Takes every occurrence of `surface` out of the waiting windows.
    fn forget(&mut self, surface: SurfaceId)
        ensures
            final(self)@ == (StateView { pending: others(old(self)@.pending, surface), ..old(self)@ }),
    {
        let mut kept: Vec<SurfaceId> = Vec::new();
        let mut i: usize = 0;
        while i < self.pending.len()
            invariant
                0 <= i <= self.pending.len(),
                self.pending == old(self).pending,
                kept@ == others(self.pending@.take(i as int), surface),
            decreases self.pending.len() - i,
        {
            proof {
                assert(self.pending@.take(i + 1).drop_last() =~= self.pending@.take(i as int));
                assert(self.pending@.take(i + 1).last() == self.pending@[i as int]);
            }
            if self.pending[i] != surface {
                kept.push(self.pending[i]);
            }
            i += 1;
        }
        proof {
            assert(self.pending@.take(self.pending.len() as int) =~= self.pending@);
        }
        self.pending = kept;
        proof {
            assert(self@.monitors =~= old(self)@.monitors);
            assert(self@ =~~= (StateView { pending: others(old(self)@.pending, surface), ..old(self)@ }));
        }
    }

    /// Reacts to a commit of `surface`. A waiting window gets its first
    /// configure if none was sent; once it has a buffer it is mapped on the
    /// active monitor, floating or tiled as `should_float` says, and waits
    /// no longer. Any other commit is ignored.
    pub fn handle_commit(&mut self, surface: SurfaceId, probe: CommitProbe) -> (outcome: CommitOutcome)
        requires
            old(self)@.wf(),
            old(self)@.has_monitor(),
            old(self)@.maps(surface, probe) ==> old(self)@.can_map(probe),
        ensures
            final(self)@.wf(),
            !old(self)@.maps(surface, probe) ==> final(self)@ == old(self)@,
            !old(self)@.pending.contains(surface) ==> outcome is Ignored,
            old(self)@.pending.contains(surface) && !probe.configured ==> outcome is Configure,
            old(self)@.pending.contains(surface) && probe.configured && !probe.has_buffer
                ==> outcome is Ignored,
            old(self)@.maps(surface, probe) ==> (match outcome {
                CommitOutcome::Mapped { id, floating, effects } => {
                    &&& floating == floats(probe.has_parent, probe.min_size, probe.max_size)
                    &&& !old(self)@.mon().windows.contains_key(id)
                    &&& final(self)@ == old(self)@.committed(surface, probe, id)
                    &&& effects@ == final(self)@.mon().resize_requests()
                },
                _ => false,
            }),
    {
        let at = match self.find_pending(surface) {
            Some(at) => at,
            None => {
                return CommitOutcome::Ignored;
            },
        };
        if !probe.configured {
            return CommitOutcome::Configure;
        }
        if !probe.has_buffer {
            return CommitOutcome::Ignored;
        }
        let floating = should_float(probe.has_parent, probe.min_size, probe.max_size);
        let _ = self.pending.remove(at);
        let active = self.active_monitor;
        assert(self.monitors@[active as int]@ == old(self)@.mon());
        let (id, effects) = self.monitors[active].map(surface, probe.size, floating);
        proof {
            let next = old(self)@.committed(surface, probe, id);
            assert(self@.monitors =~= next.monitors);
            assert(self@ =~~= next);
            assert forall|i: int|
                0 <= i < self@.monitors.len()
                implies (#[trigger] self@.monitors[i]).wf() by {
                if i != active {
                    assert(old(self)@.monitors[i].wf());
                }
            }
        }
        CommitOutcome::Mapped { id, floating, effects }
    }

    /// Reacts to the destruction of the window with the surface
    /// `surface`: it waits no longer, and if it is mapped on the active
    /// monitor it is unmapped and the focus goes to the active window.
    /// Returns the focus target and the requests where a window was
    /// unmapped.
    pub fn toplevel_destroyed(&mut self, surface: SurfaceId, exclusive: Option<SurfaceId>) -> (r: Option<
        (Option<SurfaceId>, Vec<Effect>),
    >)
        requires
            old(self)@.wf(),
            old(self)@.has_monitor(),
        ensures
            final(self)@.wf(),
            final(self)@.pending == others(old(self)@.pending, surface),
            final(self)@.active_monitor == old(self)@.active_monitor,
            (match (old(self)@.mon().owner(surface), r) {
                (Some(id), Some((focus, effects))) => {
                    let gone = old(self)@.mon().unmapped(id);
                    &&& final(self)@.monitors == old(self)@.with_mon(
                        gone.routed(exclusive, gone.active_id()),
                    ).monitors
                    &&& focus == gone.route_target(exclusive, gone.active_id())
                    &&& effects@ == gone.resize_requests() + gone.route_effects(
                        exclusive,
                        gone.active_id(),
                    )
                },
                (None, None) => final(self)@.monitors == old(self)@.monitors,
                _ => false,
            }),
    {
        self.forget(surface);
        let active = self.active_monitor;
        assert(self.monitors@[active as int]@ == old(self)@.mon());
        let id = match self.monitors[active].find_by_surface(surface) {
            Some(id) => id,
            None => {
                return None;
            },
        };
        let mut effects = self.monitors[active].unmap(id);
        let (focus, mut moved) = self.monitors[active].update_focus(exclusive);
        effects.append(&mut moved);
        proof {
            let gone = old(self)@.mon().unmapped(id);
            assert(self@.monitors =~= old(self)@.with_mon(gone.routed(exclusive, gone.active_id())).monitors);
            assert forall|i: int|
                0 <= i < self@.monitors.len()
                implies (#[trigger] self@.monitors[i]).wf() by {
                if i != active {
                    assert(old(self)@.monitors[i].wf());
                }
            }
        }
        Some((focus, effects))
    }

    /// Transfers the focus on the active monitor past the layer surfaces.
    pub fn set_focus(&mut self, exclusive: Option<SurfaceId>, id: Option<WindowId>) -> (r: (
        Option<SurfaceId>,
        Vec<Effect>,
    ))
        requires
            old(self)@.wf(),
            old(self)@.has_monitor(),
        ensures
            final(self)@ == old(self)@.with_mon(old(self)@.mon().routed(exclusive, id)),
            final(self)@.wf(),
            r.0 == old(self)@.mon().route_target(exclusive, id),
            r.1@ == old(self)@.mon().route_effects(exclusive, id),
    {
        let active = self.active_monitor;
        assert(self.monitors@[active as int]@ == old(self)@.mon());
        let r = self.monitors[active].route_focus(exclusive, id);
        proof {
            let next = old(self)@.with_mon(old(self)@.mon().routed(exclusive, id));
            assert(self@.monitors =~= next.monitors);
            assert(self@ =~~= next);
            assert forall|i: int|
                0 <= i < self@.monitors.len()
                implies (#[trigger] self@.monitors[i]).wf() by {
                if i != active {
                    assert(old(self)@.monitors[i].wf());
                }
            }
        }
        r
    }

    /// Gives the focus to the active window of the active monitor.
    pub fn update_focus(&mut self, exclusive: Option<SurfaceId>) -> (r: (Option<SurfaceId>, Vec<Effect>))
        requires
            old(self)@.wf(),
            old(self)@.has_monitor(),
        ensures
            final(self)@ == old(self)@.with_mon(
                old(self)@.mon().routed(exclusive, old(self)@.mon().active_id()),
            ),
            final(self)@.wf(),
            r.0 == old(self)@.mon().route_target(exclusive, old(self)@.mon().active_id()),
            r.1@ == old(self)@.mon().route_effects(exclusive, old(self)@.mon().active_id()),
    {
        assert(self.monitors@[self.active_monitor as int]@ == old(self)@.mon());
        let id = self.monitors[self.active_monitor].active_id();
        self.set_focus(exclusive, id)
    }

    /// Carries out a key action on the active monitor, then gives the
    /// focus to its active window.
    pub fn handle_action(&mut self, action: KeyAction, exclusive: Option<SurfaceId>) -> (r: Reaction)
        requires
            old(self)@.wf(),
            old(self)@.has_monitor(),
        ensures
            final(self)@ == old(self)@.with_mon(old(self)@.mon().handled(action, exclusive)),
            final(self)@.wf(),
            r.command == command_of(action),
            r.effects@ == old(self)@.mon().act_effects(action, exclusive) + old(self)@.mon().acted(
                action,
                exclusive,
            ).route_effects(exclusive, old(self)@.mon().acted(action, exclusive).active_id()),
            r.focus == old(self)@.mon().acted(action, exclusive).route_target(
                exclusive,
                old(self)@.mon().acted(action, exclusive).active_id(),
            ),
    {
        let active = self.active_monitor;
        assert(self.monitors@[active as int]@ == old(self)@.mon());
        let r = self.monitors[active].handle_action(action, exclusive);
        proof {
            let next = old(self)@.with_mon(old(self)@.mon().handled(action, exclusive));
            assert(self@.monitors =~= next.monitors);
            assert(self@ =~~= next);
            assert forall|i: int|
                0 <= i < self@.monitors.len()
                implies (#[trigger] self@.monitors[i]).wf() by {
                if i != active {
                    assert(old(self)@.monitors[i].wf());
                }
            }
        }
        r
    }
}

/// The rectangle within which a popup is kept, in the popup's own
/// coordinates: the output's rectangle seen from the popup's origin, which
/// lies at `popup_offset` from its parent at `parent_loc`.
pub open spec fn popup_bounds(output: Rect, parent_loc: Point, popup_offset: Point) -> Rect {
    Rect { loc: output.loc.minus(parent_loc).minus(popup_offset), size: output.size }
}

pub fn unconstrain_popup(output: Rect, parent_loc: Point, popup_offset: Point) -> (target: Rect)
    ensures
        target == popup_bounds(output, parent_loc, popup_offset),
{
    Rect { loc: output.loc.sub(parent_loc).sub(popup_offset), size: output.size }
}

} // verus!
