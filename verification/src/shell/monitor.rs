//! A monitor: the registry of its windows, its tags, and the usable area in
//! which the active tag is laid out.

use crate::config::{MAX_WINDOWS, TAGCOUNT};
use crate::geometry::{Point, Rect, Size, AREA_LIMIT, GEO_LIMIT};
use crate::shell::layout::{div_trunc, lemma_trunc_div_bounds, trunc_div};
use crate::shell::list::{key_order, lemma_key_order, lemma_position_some, position};
use crate::shell::registry::{
    records, registry_get, registry_get_mut, registry_insert, registry_keys, registry_len,
    registry_new, registry_remove, Registry,
};
use crate::shell::tag::{Tag, TagView};
use crate::shell::window::{Effect, SurfaceId, WindowElement, WindowId};
use vstd::prelude::*;

verus! {

/// Per-monitor state with its own tags and windows.
pub struct Monitor {
    windows: Registry,
    tags: Vec<Tag>,
    active_tag: usize,
    prev_tag: usize,
    area: Rect,
}

/// A monitor as a map of window records, a sequence of tags, the indices
/// of the active and the previous tag, and the usable area.
#[verifier::ext_equal]
pub struct MonitorView {
    pub windows: Map<WindowId, WindowElement>,
    pub tags: Seq<TagView>,
    pub active_tag: int,
    pub prev_tag: int,
    pub area: Rect,
}

/// The views of a sequence of tags.
pub open spec fn tag_views(tags: Seq<Tag>) -> Seq<TagView> {
    Seq::new(tags.len(), |t: int| tags[t]@)
}

impl View for Monitor {
    type V = MonitorView;

    closed spec fn view(&self) -> MonitorView {
        MonitorView {
            windows: records(self.windows),
            tags: tag_views(self.tags@),
            active_tag: self.active_tag as int,
            prev_tag: self.prev_tag as int,
            area: self.area,
        }
    }
}

impl MonitorView {
    /// `id` is a window of at least one tag.
    pub open spec fn placed(self, id: WindowId) -> bool {
        exists|t: int| 0 <= t < self.tags.len() && (#[trigger] self.tags[t]).has(id)
    }

    /// On every tag the tiled windows are those whose record says tiled,
    /// and the floating ones those whose record says floating.
    pub open spec fn placement_agrees(self) -> bool {
        &&& forall|t: int, id: WindowId|
            0 <= t < self.tags.len() && (#[trigger] self.tags[t].tiled.contains(id))
                ==> !self.windows[id].floating
        &&& forall|t: int, id: WindowId|
            0 <= t < self.tags.len() && (#[trigger] self.tags[t].floating.contains(id))
                ==> self.windows[id].floating
    }

    /// The invariant of a monitor: valid tag indices and tags; every window
    /// of a tag is registered, placed there as its record says, and every
    /// registered window is a window of some tag; the registry is within
    /// its bound and every record sound; the area is within its limit; at
    /// most one window is focused.
    pub open spec fn wf(self) -> bool {
        &&& self.tags.len() == TAGCOUNT
        &&& 0 <= self.active_tag < TAGCOUNT
        &&& 0 <= self.prev_tag < TAGCOUNT
        &&& forall|t: int| 0 <= t < self.tags.len() ==> (#[trigger] self.tags[t]).wf()
        &&& forall|t: int, id: WindowId|
            0 <= t < self.tags.len() && (#[trigger] self.tags[t].has(id))
                ==> self.windows.contains_key(id)
        &&& forall|id: WindowId| #[trigger] self.windows.contains_key(id) ==> self.placed(id)
        &&& self.placement_agrees()
        &&& forall|id: WindowId| #[trigger]
            self.windows.contains_key(id) ==> self.windows[id].sound(id)
        &&& self.windows.dom().finite()
        &&& self.windows.dom().len() <= MAX_WINDOWS
        &&& self.area.within(AREA_LIMIT as int)
        &&& forall|a: WindowId, b: WindowId|
            #![trigger self.windows[a], self.windows[b]]
            self.windows.contains_key(a) && self.windows.contains_key(b)
                && self.windows[a].focused && self.windows[b].focused ==> a == b
    }

    /// The monitor of an output that has just been added.
    pub open spec fn fresh(area: Rect) -> MonitorView {
        MonitorView {
            windows: Map::empty(),
            tags: Seq::new(
                TAGCOUNT as nat,
                |t: int|
                    TagView::empty(
                        crate::shell::layout::TilingLayout {
                            master_count: crate::config::MASTER_COUNT,
                            master_factor: crate::config::MASTER_FACTOR,
                        },
                    ),
            ),
            active_tag: 0,
            prev_tag: 0,
            area,
        }
    }

    /// The active tag.
    pub open spec fn tag(self) -> TagView {
        self.tags[self.active_tag]
    }

    /// The window focused last on the active tag.
    pub open spec fn active_id(self) -> Option<WindowId> {
        self.tag().head()
    }

    /// Rectangle of the `i`-th tiled window of the active tag.
    pub open spec fn tiled_rect(self, i: int) -> Rect {
        self.tag().layout.rect_at(self.tag().tiled.len() as int, self.area, i)
    }

    /// The record of `id` once the active tag is laid out.
    pub open spec fn laid_out_record(self, id: WindowId) -> WindowElement {
        match position(self.tag().tiled, id) {
            Some(i) => WindowElement { tiled_geo: self.tiled_rect(i), ..self.windows[id] },
            None => self.windows[id],
        }
    }

    /// The monitor with the tiled windows of the active tag given their
    /// rectangles.
    pub open spec fn laid_out(self) -> MonitorView {
        MonitorView {
            windows: Map::new(
                |id: WindowId| self.windows.contains_key(id),
                |id: WindowId| self.laid_out_record(id),
            ),
            ..self
        }
    }

    /// The resize requests that go with a layout of the active tag: one
    /// for each tiled window, in layout order.
    pub open spec fn resize_requests(self) -> Seq<Effect> {
        Seq::new(
            self.tag().tiled.len(),
            |i: int|
                Effect::Resize {
                    surface: self.windows[self.tag().tiled[i]].surface,
                    size: self.tiled_rect(i).size,
                },
        )
    }

    /// A monitor with another usable area.
    pub open spec fn with_area(self, area: Rect) -> MonitorView {
        MonitorView { area, ..self }
    }

    /// The rectangle that a newly mapped window floats in: of its own size
    /// where it has one, else of three quarters of the area, and centred
    /// in the area.
    pub open spec fn float_rect(self, size: Size) -> Rect {
        let fw = if size.w > 0 {
            size.w as int
        } else {
            trunc_div(self.area.size.w * 3, 4)
        };
        let fh = if size.h > 0 {
            size.h as int
        } else {
            trunc_div(self.area.size.h * 3, 4)
        };
        Rect {
            loc: Point {
                x: (self.area.loc.x + trunc_div(self.area.size.w - fw, 2)) as i32,
                y: (self.area.loc.y + trunc_div(self.area.size.h - fh, 2)) as i32,
            },
            size: Size { w: fw as i32, h: fh as i32 },
        }
    }

    /// The monitor can map a window that asks for `size`: the registry has
    /// room, and the size is within the limit for window rectangles.
    pub open spec fn takes(self, size: Size) -> bool {
        &&& self.windows.dom().len() < MAX_WINDOWS
        &&& size.w <= GEO_LIMIT
        &&& size.h <= GEO_LIMIT
    }

    /// The monitor before the layout that ends the mapping of a window.
    pub open spec fn inserted(
        self,
        id: WindowId,
        surface: SurfaceId,
        size: Size,
        floating: bool,
    ) -> MonitorView {
        MonitorView {
            windows: self.windows.insert(
                id,
                WindowElement::fresh(id, surface, self.float_rect(size), floating),
            ),
            tags: self.tags.update(self.active_tag, self.tag().added(id, floating)),
            ..self
        }
    }

    /// The monitor with a new window under the key `id`, added to the
    /// active tag, and the active tag laid out.
    pub open spec fn mapped(
        self,
        id: WindowId,
        surface: SurfaceId,
        size: Size,
        floating: bool,
    ) -> MonitorView {
        self.inserted(id, surface, size, floating).laid_out()
    }

    /// The tags with `id` taken out of each.
    pub open spec fn purged(self, id: WindowId) -> Seq<TagView> {
        Seq::new(self.tags.len(), |t: int| self.tags[t].removed(id))
    }

    /// The monitor before the layout that ends the unmapping of a window.
    pub open spec fn deleted(self, id: WindowId) -> MonitorView {
        MonitorView { windows: self.windows.remove(id), tags: self.purged(id), ..self }
    }

    /// The monitor with `id` taken out of every tag and of the registry,
    /// and the active tag laid out.
    pub open spec fn unmapped(self, id: WindowId) -> MonitorView {
        self.deleted(id).laid_out()
    }

    /// The records of the windows of the active tag, in paint order.
    pub open spec fn visible(self) -> Seq<WindowElement> {
        Seq::new(self.tag().window_ids().len(), |i: int| self.windows[self.tag().window_ids()[i]])
    }

    /// The `i`-th visible window holds the pixel `p`, and none above it
    /// does.
    pub open spec fn topmost_at(self, p: Point, i: int) -> bool {
        &&& 0 <= i < self.visible().len()
        &&& self.visible()[i].active_geo().has_point(p)
        &&& forall|j: int| i < j < self.visible().len() ==> !self.visible()[j].active_geo().has_point(p)
    }

    /// The place in paint order of the topmost visible window that holds
    /// the pixel `p`.
    pub open spec fn under(self, p: Point) -> Option<int> {
        if exists|i: int| self.topmost_at(p, i) {
            Some(choose|i: int| self.topmost_at(p, i))
        } else {
            None
        }
    }

    /// The record of the topmost visible window that holds the pixel `p`.
    pub open spec fn window_at(self, p: Point) -> Option<WindowElement> {
        match self.under(p) {
            Some(i) => Some(self.visible()[i]),
            None => None,
        }
    }

    /// There is one topmost window at a pixel, if there is any.
    pub proof fn lemma_under(self, p: Point, i: int)
        requires
            self.topmost_at(p, i),
        ensures
            self.under(p) == Some(i),
    {
        let c = choose|c: int| self.topmost_at(p, c);
        assert(self.topmost_at(p, c));
        if c < i {
            assert(!self.visible()[i].active_geo().has_point(p));
        } else if i < c {
            assert(!self.visible()[c].active_geo().has_point(p));
        }
    }

    /// The record of the window focused last on the active tag.
    pub open spec fn focused_window(self) -> Option<WindowElement> {
        match self.active_id() {
            Some(id) => if self.windows.contains_key(id) {
                Some(self.windows[id])
            } else {
                None
            },
            None => None,
        }
    }

    /// The monitor with another floating rectangle for `id`.
    pub open spec fn with_float_geo(self, id: WindowId, geo: Rect) -> MonitorView {
        if self.windows.contains_key(id) {
            MonitorView {
                windows: self.windows.insert(id, WindowElement { float_geo: geo, ..self.windows[id] }),
                ..self
            }
        } else {
            self
        }
    }

    /// The floating rectangle of a new window lies within the limit for
    /// window rectangles.
    pub proof fn lemma_float_rect(self, size: Size)
        requires
            self.area.within(AREA_LIMIT as int),
            size.w <= GEO_LIMIT,
            size.h <= GEO_LIMIT,
        ensures
            self.float_rect(size).within(GEO_LIMIT as int),
            -0x400_0000 <= trunc_div(self.area.size.w * 3, 4) <= 0x400_0000,
            -0x400_0000 <= trunc_div(self.area.size.h * 3, 4) <= 0x400_0000,
            self.float_rect(size).size.w == if size.w > 0 {
                size.w as int
            } else {
                trunc_div(self.area.size.w * 3, 4)
            },
            self.float_rect(size).size.h == if size.h > 0 {
                size.h as int
            } else {
                trunc_div(self.area.size.h * 3, 4)
            },
            self.float_rect(size).loc.x == self.area.loc.x + trunc_div(
                self.area.size.w - self.float_rect(size).size.w,
                2,
            ),
            self.float_rect(size).loc.y == self.area.loc.y + trunc_div(
                self.area.size.h - self.float_rect(size).size.h,
                2,
            ),
    {
        lemma_trunc_div_bounds(self.area.size.w * 3, 4);
        lemma_trunc_div_bounds(self.area.size.h * 3, 4);
        let fw = if size.w > 0 {
            size.w as int
        } else {
            trunc_div(self.area.size.w * 3, 4)
        };
        let fh = if size.h > 0 {
            size.h as int
        } else {
            trunc_div(self.area.size.h * 3, 4)
        };
        lemma_trunc_div_bounds(self.area.size.w - fw, 2);
        lemma_trunc_div_bounds(self.area.size.h - fh, 2);
    }

    /// Mapping keeps a monitor well formed. The new window is registered,
    /// it is the active window of the active tag, and it is on no other
    /// tag.
    pub proof fn lemma_inserted(self, id: WindowId, surface: SurfaceId, size: Size, floating: bool)
        requires
            self.wf(),
            !self.windows.contains_key(id),
            self.takes(size),
        ensures
            self.inserted(id, surface, size, floating).wf(),
            self.mapped(id, surface, size, floating).wf(),
            self.mapped(id, surface, size, floating).windows.contains_key(id),
            self.mapped(id, surface, size, floating).active_id() == Some(id),
            forall|t: int|
                0 <= t < self.tags.len() ==> ((#[trigger] self.mapped(
                    id,
                    surface,
                    size,
                    floating,
                ).tags[t]).has(id) <==> t == self.active_tag),
    {
        let next = self.inserted(id, surface, size, floating);
        self.lemma_float_rect(size);
        assert(self.tag().wf());
        self.tag().lemma_added(id, floating);
        assert forall|t: int| 0 <= t < next.tags.len() implies (#[trigger] next.tags[t]).wf() by {
            assert(self.tags[t].wf());
        }
        assert forall|t: int, x: WindowId|
            0 <= t < next.tags.len() && (#[trigger] next.tags[t].has(x))
            implies next.windows.contains_key(x) by {
            if t == self.active_tag {
                assert(self.tag().added(id, floating).has(x) <==> self.tag().has(x) || x == id);
                if x != id {
                    assert(self.tags[t].has(x));
                }
            } else {
                assert(self.tags[t].has(x));
            }
        }
        assert forall|x: WindowId|
            #[trigger] next.windows.contains_key(x)
            implies next.placed(x) by {
            if x == id {
                assert(self.tag().added(id, floating).has(x) <==> self.tag().has(x) || x == id);
                assert(next.tags[self.active_tag].has(x));
            } else {
                assert(self.windows.contains_key(x));
                assert(self.placed(x));
                let t = choose|t: int| 0 <= t < self.tags.len() && (#[trigger] self.tags[t]).has(x);
                if t == self.active_tag {
                    assert(self.tag().added(id, floating).has(x) <==> self.tag().has(x) || x == id);
                }
                assert(next.tags[t].has(x));
            }
        }
        assert forall|x: WindowId|
            #[trigger] next.windows.contains_key(x)
            implies next.windows[x].sound(x) by {
            if x != id {
                assert(self.windows.contains_key(x));
            }
        }
        assert forall|a: WindowId, b: WindowId|
            #![trigger next.windows[a], next.windows[b]]
            next.windows.contains_key(a) && next.windows.contains_key(b) && next.windows[a].focused
                && next.windows[b].focused implies a == b by {
            assert(self.windows.contains_key(a) && self.windows[a].focused);
            assert(self.windows.contains_key(b) && self.windows[b].focused);
        }
        assert forall|t: int| 0 <= t < next.tags.len()
            implies #[trigger] next.tags[t] == self.tags[t] && !self.tags[t].has(id) || next.tags[t]
            == self.tags[t].added(id, next.windows[id].floating) by {
            if t != self.active_tag && self.tags[t].has(id) {
                assert(self.windows.contains_key(id));
            }
        }
        self.lemma_placement_moved(next, id);
        next.lemma_laid_out();
        assert forall|t: int| 0 <= t < self.tags.len()
            implies ((#[trigger] self.mapped(id, surface, size, floating).tags[t]).has(id) <==> t
            == self.active_tag) by {
            if t != self.active_tag && self.tags[t].has(id) {
                assert(self.windows.contains_key(id));
            }
        }
    }

    /// Unmapping keeps a monitor well formed and leaves `id` in no tag.
    pub proof fn lemma_deleted(self, id: WindowId)
        requires
            self.wf(),
        ensures
            self.deleted(id).wf(),
            self.unmapped(id).wf(),
            !self.unmapped(id).windows.contains_key(id),
            forall|t: int| 0 <= t < self.tags.len() ==> !(#[trigger] self.unmapped(id).tags[t]).has(id),
    {
        let next = self.deleted(id);
        assert forall|t: int| 0 <= t < next.tags.len() implies (#[trigger] next.tags[t]).wf()
            && !next.tags[t].has(id) by {
            assert(self.tags[t].wf());
            self.tags[t].lemma_removed(id);
            assert(next.tags[t].has(id) <==> self.tags[t].has(id) && id != id);
        }
        assert forall|t: int, x: WindowId|
            0 <= t < next.tags.len() && (#[trigger] next.tags[t].has(x))
            implies next.windows.contains_key(x) by {
            assert(self.tags[t].wf());
            self.tags[t].lemma_removed(id);
            assert(self.tags[t].removed(id).has(x) <==> self.tags[t].has(x) && x != id);
            assert(self.tags[t].has(x));
        }
        assert forall|x: WindowId|
            #[trigger] next.windows.contains_key(x)
            implies next.placed(x) by {
            assert(self.windows.contains_key(x));
            assert(self.placed(x));
            let t = choose|t: int| 0 <= t < self.tags.len() && (#[trigger] self.tags[t]).has(x);
            assert(self.tags[t].wf());
            self.tags[t].lemma_removed(id);
            assert(self.tags[t].removed(id).has(x) <==> self.tags[t].has(x) && x != id);
            assert(next.tags[t].has(x));
        }
        assert forall|x: WindowId|
            #[trigger] next.windows.contains_key(x)
            implies next.windows[x].sound(x) by {
            assert(self.windows.contains_key(x));
        }
        assert forall|a: WindowId, b: WindowId|
            #![trigger next.windows[a], next.windows[b]]
            next.windows.contains_key(a) && next.windows.contains_key(b) && next.windows[a].focused
                && next.windows[b].focused implies a == b by {
            assert(self.windows.contains_key(a) && self.windows[a].focused);
            assert(self.windows.contains_key(b) && self.windows[b].focused);
        }
        assert(next.windows.dom().len() <= self.windows.dom().len());
        self.lemma_placement_moved(next, id);
        next.lemma_laid_out();
        assert forall|t: int|
            0 <= t < self.tags.len()
            implies !(#[trigger] self.unmapped(id).tags[t]).has(id) by {
            assert(!next.tags[t].has(id));
        }
    }

    /// A change of one floating rectangle keeps a monitor well formed.
    pub proof fn lemma_with_float_geo(self, id: WindowId, geo: Rect)
        requires
            self.wf(),
            geo.within(GEO_LIMIT as int),
        ensures
            self.with_float_geo(id, geo).wf(),
    {
        let next = self.with_float_geo(id, geo);
        if self.windows.contains_key(id) {
            self.lemma_placement_kept(next);
            assert(next.windows.dom() =~= self.windows.dom());
            assert forall|x: WindowId|
                #[trigger] next.windows.contains_key(x)
                implies next.placed(x) by {
                assert(self.windows.contains_key(x));
                assert(self.placed(x));
                let t = choose|t: int| 0 <= t < self.tags.len() && (#[trigger] self.tags[t]).has(x);
                assert(next.tags[t].has(x));
            }
            assert forall|x: WindowId|
                #[trigger] next.windows.contains_key(x)
                implies next.windows[x].sound(x) by {
                assert(self.windows.contains_key(x));
            }
            assert forall|a: WindowId, b: WindowId|
                #![trigger next.windows[a], next.windows[b]]
                next.windows.contains_key(a) && next.windows.contains_key(b) && next.windows[a].focused
                    && next.windows[b].focused implies a == b by {
                assert(self.windows.contains_key(a) && self.windows[a].focused);
                assert(self.windows.contains_key(b) && self.windows[b].focused);
            }
        }
    }

    /// `id` names a window that can take focus: a mapped one.
    pub open spec fn focusable(self, id: Option<WindowId>) -> bool {
        id is Some && self.windows.contains_key(id->0)
    }

    /// `id` names a window of the active tag, whose focus stack a focus
    /// transfer reorders.
    pub open spec fn promotable(self, id: Option<WindowId>) -> bool {
        id is Some && self.tag().has(id->0)
    }

    /// The focused window, if there is one.
    pub open spec fn focused_id(self) -> Option<WindowId> {
        if exists|k: WindowId| self.windows.contains_key(k) && self.windows[k].focused {
            Some(choose|k: WindowId| self.windows.contains_key(k) && self.windows[k].focused)
        } else {
            None
        }
    }

    /// The monitor with no window focused.
    pub open spec fn unfocused(self) -> MonitorView {
        MonitorView {
            windows: Map::new(
                |k: WindowId| self.windows.contains_key(k),
                |k: WindowId| WindowElement { focused: false, ..self.windows[k] },
            ),
            ..self
        }
    }

    /// The keys of the mapped windows in the order of the registry.
    pub open spec fn order(self) -> Seq<WindowId> {
        key_order(self.windows.dom())
    }

    /// The requests that take the focus from every window: each mapped
    /// window is told that it is not active, in the order of the registry.
    pub open spec fn unfocus_effects(self) -> Seq<Effect> {
        Seq::new(
            self.order().len(),
            |i: int| Effect::Activate { surface: self.windows[self.order()[i]].surface, active: false },
        )
    }

    /// The `i`-th window in the order of the registry has the surface
    /// `surface`, and none before it has.
    pub open spec fn owns_at(self, surface: SurfaceId, i: int) -> bool {
        &&& 0 <= i < self.order().len()
        &&& self.windows[self.order()[i]].surface == surface
        &&& forall|j: int| 0 <= j < i ==> self.windows[self.order()[j]].surface != surface
    }

    /// The first window in the order of the registry whose surface is
    /// `surface`.
    pub open spec fn owner(self, surface: SurfaceId) -> Option<WindowId> {
        if exists|i: int| self.owns_at(surface, i) {
            Some(self.order()[choose|i: int| self.owns_at(surface, i)])
        } else {
            None
        }
    }

    /// The first window with a surface is its owner, and a surface that
    /// no window has has no owner.
    pub proof fn lemma_owner(self, surface: SurfaceId, i: int)
        requires
            self.owns_at(surface, i),
        ensures
            self.owner(surface) == Some(self.order()[i]),
    {
        let c = choose|c: int| self.owns_at(surface, c);
        assert(self.owns_at(surface, c));
        if c < i {
        } else if i < c {
        }
    }

    /// The monitor with `id` focused, where `id` can take focus, and with
    /// no window focused otherwise. A window of the active tag becomes the
    /// first of the tag's focus stack; a window of other tags only leaves
    /// the stack as it is, which orders the windows of the tag alone.
    pub open spec fn focused_on(self, id: Option<WindowId>) -> MonitorView {
        MonitorView {
            windows: Map::new(
                |k: WindowId| self.windows.contains_key(k),
                |k: WindowId|
                    WindowElement {
                        focused: self.focusable(id) && id == Some(k),
                        ..self.windows[k]
                    },
            ),
            tags: if self.promotable(id) {
                self.tags.update(self.active_tag, self.tag().promoted(id->0))
            } else {
                self.tags
            },
            ..self
        }
    }

    /// The requests of a focus transfer: every window is told that it is
    /// not active, then the new one that it is.
    pub open spec fn focus_effects(self, id: Option<WindowId>) -> Seq<Effect> {
        self.unfocus_effects() + (if self.focusable(id) {
            seq![Effect::Activate { surface: self.windows[id->0].surface, active: true }]
        } else {
            Seq::empty()
        })
    }

    /// The surface that keyboard input goes to after a focus transfer.
    pub open spec fn focus_surface(self, id: Option<WindowId>) -> Option<SurfaceId> {
        if self.focusable(id) {
            Some(self.windows[id->0].surface)
        } else {
            None
        }
    }

    /// In a well-formed monitor a focused window is the focused window.
    pub proof fn lemma_focused_id(self, k: WindowId)
        requires
            self.wf(),
            self.windows.contains_key(k),
            self.windows[k].focused,
        ensures
            self.focused_id() == Some(k),
    {
        let c = choose|c: WindowId| self.windows.contains_key(c) && self.windows[c].focused;
        assert(self.windows[c].focused && self.windows[k].focused);
    }

    /// A focus transfer keeps a monitor well formed. After it at most one
    /// window is focused: the one asked for, where it can take focus, and
    /// none otherwise.
    pub proof fn lemma_focused_on(self, id: Option<WindowId>)
        requires
            self.wf(),
        ensures
            self.focused_on(id).wf(),
            forall|k: WindowId| #[trigger]
                self.focused_on(id).windows.contains_key(k) ==> (self.focused_on(id).windows[k].focused
                    <==> self.focusable(id) && id == Some(k)),
            self.focusable(id) ==> self.focused_on(id).windows.contains_key(id->0)
                && self.focused_on(id).focused_id() == id,
            self.promotable(id) ==> self.focusable(id) && self.focused_on(id).active_id() == id,
            !self.promotable(id) ==> self.focused_on(id).tags == self.tags,
            !self.focusable(id) ==> self.focused_on(id).focused_id() is None,
            forall|t: int, k: WindowId|
                0 <= t < self.tags.len() ==> (#[trigger] self.focused_on(id).tags[t].has(k)
                    <==> self.tags[t].has(k)),
    {
        let next = self.focused_on(id);
        assert(self.tag().wf());
        if self.promotable(id) {
            self.tag().lemma_promoted(id->0);
            assert(self.tags[self.active_tag].has(id->0));
        }
        assert forall|t: int, x: WindowId|
            0 <= t < next.tags.len() && (#[trigger] next.tags[t].tiled.contains(x)) implies self.tags[t].tiled.contains(
            x,
        ) && next.windows[x].floating == self.windows[x].floating by {
            assert(self.tags[t].has(x));
        }
        assert forall|t: int, x: WindowId|
            0 <= t < next.tags.len() && (#[trigger] next.tags[t].floating.contains(x)) implies self.tags[t].floating.contains(
            x,
        ) && next.windows[x].floating == self.windows[x].floating by {
            assert(self.tags[t].has(x));
        }
        self.lemma_placement_kept(next);
        assert(next.windows.dom() =~= self.windows.dom());
        assert forall|t: int| 0 <= t < next.tags.len() implies (#[trigger] next.tags[t]).wf() by {
            assert(self.tags[t].wf());
        }
        assert forall|t: int, k: WindowId| 0 <= t < self.tags.len() implies (#[trigger] next.tags[t].has(k)
            <==> self.tags[t].has(k)) by {
        }
        assert forall|t: int, x: WindowId|
            0 <= t < next.tags.len() && (#[trigger] next.tags[t].has(x))
            implies next.windows.contains_key(x) by {
            assert(self.tags[t].has(x));
        }
        assert forall|x: WindowId|
            #[trigger] next.windows.contains_key(x)
            implies next.placed(x) by {
            assert(self.windows.contains_key(x));
            assert(self.placed(x));
            let t = choose|t: int| 0 <= t < self.tags.len() && (#[trigger] self.tags[t]).has(x);
            assert(next.tags[t].has(x));
        }
        assert forall|x: WindowId|
            #[trigger] next.windows.contains_key(x)
            implies next.windows[x].sound(x) by {
            assert(self.windows.contains_key(x));
        }
        if self.focusable(id) {
            assert(next.windows.contains_key(id->0));
            assert(next.windows[id->0].focused);
            next.lemma_focused_id(id->0);
        }
    }

    /// The monitor with tag `t` replaced.
    pub open spec fn with_tag(self, t: int, tag: TagView) -> MonitorView {
        MonitorView { tags: self.tags.update(t, tag), ..self }
    }

    /// Whether the window under `id` floats. False where none is mapped
    /// under `id`.
    pub open spec fn floating_of(self, id: WindowId) -> bool {
        self.windows.contains_key(id) && self.windows[id].floating
    }

    /// `id` is a window of a tag other than `tag`.
    pub open spec fn elsewhere(self, id: WindowId, tag: int) -> bool {
        exists|t: int| 0 <= t < self.tags.len() && t != tag && (#[trigger] self.tags[t]).has(id)
    }

    /// A command on the active window and the tag `tag` has something to
    /// act on.
    pub open spec fn acts_on(self, tag: int) -> bool {
        0 <= tag < TAGCOUNT && self.active_id() is Some
    }

    /// The tags with the active window on `tag` and on no other tag.
    pub open spec fn sent(self, tag: int) -> MonitorView {
        let id = self.active_id()->0;
        MonitorView {
            tags: self.purged(id).update(tag, self.tags[tag].added(id, self.floating_of(id))),
            ..self
        }
    }

    /// The monitor with the active window moved to `tag` and the active
    /// tag laid out; unchanged where `tag` is no tag or no window is
    /// active.
    pub open spec fn moved_to_tag(self, tag: int) -> MonitorView {
        if self.acts_on(tag) {
            self.sent(tag).laid_out()
        } else {
            self
        }
    }

    /// The tags with the active window put on `tag` if it was not there,
    /// and taken off it if it is on another tag too.
    pub open spec fn flipped(self, tag: int) -> MonitorView {
        let id = self.active_id()->0;
        if !self.tags[tag].has(id) {
            self.with_tag(tag, self.tags[tag].added(id, self.floating_of(id)))
        } else if self.elsewhere(id, tag) {
            self.with_tag(tag, self.tags[tag].removed(id))
        } else {
            self
        }
    }

    /// The monitor with the active window toggled on `tag` and the active
    /// tag laid out; unchanged where `tag` is no tag or no window is
    /// active.
    pub open spec fn toggled_tag(self, tag: int) -> MonitorView {
        if self.acts_on(tag) {
            self.flipped(tag).laid_out()
        } else {
            self
        }
    }

    /// `id` is mapped and its placement differs from `floating`.
    pub open spec fn refloats(self, id: WindowId, floating: bool) -> bool {
        self.windows.contains_key(id) && self.windows[id].floating != floating
    }

    /// The monitor with the placement of `id` changed, on every tag that
    /// it is a window of, before the layout.
    pub open spec fn replaced(self, id: WindowId, floating: bool) -> MonitorView {
        MonitorView {
            windows: self.windows.insert(id, WindowElement { floating, ..self.windows[id] }),
            tags: Seq::new(
                self.tags.len(),
                |t: int|
                    if self.tags[t].has(id) {
                        self.tags[t].added(id, floating)
                    } else {
                        self.tags[t]
                    },
            ),
            ..self
        }
    }

    /// The monitor with `id` floating or tiled as asked and the active
    /// tag laid out; unchanged where `id` is not mapped or is placed so
    /// already.
    pub open spec fn refloated(self, id: WindowId, floating: bool) -> MonitorView {
        if self.refloats(id, floating) {
            self.replaced(id, floating).laid_out()
        } else {
            self
        }
    }

    /// The requests of a change of placement: the window is asked to take
    /// the size of its floating rectangle where it starts to float, then
    /// the active tag's windows are asked to take theirs.
    pub open spec fn refloat_effects(self, id: WindowId, floating: bool) -> Seq<Effect> {
        if self.refloats(id, floating) {
            (if floating {
                seq![
                    Effect::Resize {
                        surface: self.windows[id].surface,
                        size: self.windows[id].float_geo.size,
                    },
                ]
            } else {
                Seq::empty()
            }) + self.replaced(id, floating).resize_requests()
        } else {
            Seq::empty()
        }
    }

    /// The monitor with the placement of the active window changed from
    /// tiled to floating or back; unchanged where no window is active.
    pub open spec fn float_toggled(self) -> MonitorView {
        match self.active_id() {
            Some(id) => self.refloated(id, !self.floating_of(id)),
            None => self,
        }
    }

    /// The requests that go with `float_toggled`.
    pub open spec fn float_toggle_effects(self) -> Seq<Effect> {
        match self.active_id() {
            Some(id) => self.refloat_effects(id, !self.floating_of(id)),
            None => Seq::empty(),
        }
    }

    /// The monitor with `tag` active and laid out; unchanged where `tag`
    /// is no tag.
    pub open spec fn viewing(self, tag: int) -> MonitorView {
        if 0 <= tag < TAGCOUNT {
            (MonitorView { prev_tag: self.active_tag, active_tag: tag, ..self }).laid_out()
        } else {
            self
        }
    }

    /// The monitor with the active and the previous tag exchanged and the
    /// active tag laid out.
    pub open spec fn viewing_previous(self) -> MonitorView {
        (MonitorView { prev_tag: self.active_tag, active_tag: self.prev_tag, ..self }).laid_out()
    }

    /// The monitor with the active window moved `delta` places along the
    /// ring of tiled windows and the active tag laid out.
    pub open spec fn stack_moved(self, delta: int) -> MonitorView {
        match self.active_id() {
            Some(current) => self.with_tag(self.active_tag, self.tag().moved(current, delta)).laid_out(),
            None => self,
        }
    }

    /// The monitor with the active window made the first tiled window and
    /// the active tag laid out.
    pub open spec fn zoomed(self) -> MonitorView {
        match self.active_id() {
            Some(current) => self.with_tag(self.active_tag, self.tag().zoomed(current)).laid_out(),
            None => self,
        }
    }

    /// The monitor with the active tag's master factor changed and the
    /// tag laid out.
    pub open spec fn factor_stepped(self, delta: int) -> MonitorView {
        self.with_tag(self.active_tag, self.tag().with_factor_step(delta)).laid_out()
    }

    /// The monitor with the active tag's master count changed and the tag
    /// laid out.
    pub open spec fn masters_stepped(self, delta: int) -> MonitorView {
        self.with_tag(self.active_tag, self.tag().with_master_step(delta)).laid_out()
    }

    /// The monitor with the floating window `id` on top on the active tag.
    pub open spec fn raised(self, id: WindowId) -> MonitorView {
        self.with_tag(self.active_tag, self.tag().raised(id))
    }

    /// A tag may be replaced by a well-formed one with the same tiled and
    /// the same floating windows.
    pub proof fn lemma_with_tag(self, t: int, tag: TagView)
        requires
            self.wf(),
            0 <= t < self.tags.len(),
            tag.wf(),
            forall|x: WindowId| #[trigger] tag.tiled.contains(x) <==> self.tags[t].tiled.contains(x),
            forall|x: WindowId| #[trigger]
                tag.floating.contains(x) <==> self.tags[t].floating.contains(x),
        ensures
            self.with_tag(t, tag).wf(),
    {
        let next = self.with_tag(t, tag);
        assert forall|x: WindowId| tag.has(x) <==> self.tags[t].has(x) by {
            assert(tag.tiled.contains(x) <==> self.tags[t].tiled.contains(x));
            assert(tag.floating.contains(x) <==> self.tags[t].floating.contains(x));
        }
        self.lemma_placement_kept(next);
        assert forall|k: int| 0 <= k < next.tags.len() implies (#[trigger] next.tags[k]).wf() by {
            assert(self.tags[k].wf());
        }
        assert forall|k: int, x: WindowId|
            0 <= k < next.tags.len() && (#[trigger] next.tags[k].has(x))
            implies next.windows.contains_key(x) by {
            assert(self.tags[k].has(x));
        }
        assert forall|x: WindowId|
            #[trigger] next.windows.contains_key(x)
            implies next.placed(x) by {
            assert(self.placed(x));
            let k = choose|k: int| 0 <= k < self.tags.len() && (#[trigger] self.tags[k]).has(x);
            assert(next.tags[k].has(x));
        }
    }

    /// The active window of a well-formed monitor is a registered window
    /// of the active tag.
    pub proof fn lemma_active_id(self)
        requires
            self.wf(),
            self.active_id() is Some,
        ensures
            self.tag().has(self.active_id()->0),
            self.windows.contains_key(self.active_id()->0),
    {
        let id = self.active_id()->0;
        assert(self.tag().wf());
        assert(self.tag().focus_stack[0] == id);
        assert(self.tag().focus_stack.contains(id));
        assert(self.tags[self.active_tag].has(id));
    }

    /// Moving the active window to a tag keeps a monitor well formed and
    /// leaves the window on that tag alone.
    pub proof fn lemma_sent(self, tag: int)
        requires
            self.wf(),
            self.acts_on(tag),
        ensures
            self.sent(tag).wf(),
            self.moved_to_tag(tag).wf(),
            forall|t: int|
                0 <= t < self.tags.len() ==> ((#[trigger] self.moved_to_tag(tag).tags[t]).has(
                    self.active_id()->0,
                ) <==> t == tag),
    {
        let id = self.active_id()->0;
        let fl = self.floating_of(id);
        let next = self.sent(tag);
        self.lemma_active_id();
        assert(self.tags[tag].wf());
        self.tags[tag].lemma_added(id, fl);
        assert forall|t: int| 0 <= t < next.tags.len() implies (#[trigger] next.tags[t]).wf() by {
            assert(self.tags[t].wf());
            self.tags[t].lemma_removed(id);
        }
        assert forall|t: int, x: WindowId|
            0 <= t < next.tags.len() && (#[trigger] next.tags[t].has(x))
            implies next.windows.contains_key(x) by {
            assert(self.tags[t].wf());
            self.tags[t].lemma_removed(id);
            if t == tag {
                assert(self.tags[t].added(id, fl).has(x) <==> self.tags[t].has(x) || x == id);
            } else {
                assert(self.tags[t].removed(id).has(x) <==> self.tags[t].has(x) && x != id);
            }
            if x != id {
                assert(self.tags[t].has(x));
            }
        }
        assert forall|x: WindowId|
            #[trigger] next.windows.contains_key(x)
            implies next.placed(x) by {
            if x == id {
                assert(self.tags[tag].added(id, fl).has(x) <==> self.tags[tag].has(x) || x == id);
                assert(next.tags[tag].has(x));
            } else {
                assert(self.placed(x));
                let t = choose|t: int| 0 <= t < self.tags.len() && (#[trigger] self.tags[t]).has(x);
                assert(self.tags[t].wf());
                self.tags[t].lemma_removed(id);
                if t == tag {
                    assert(self.tags[t].added(id, fl).has(x) <==> self.tags[t].has(x) || x == id);
                } else {
                    assert(self.tags[t].removed(id).has(x) <==> self.tags[t].has(x) && x != id);
                }
                assert(next.tags[t].has(x));
            }
        }
        self.lemma_placement_moved(next, id);
        next.lemma_laid_out();
        assert forall|t: int| 0 <= t < self.tags.len() implies ((#[trigger] self.moved_to_tag(tag).tags[t]).has(id)
            <==> t == tag) by {
            assert(self.tags[t].wf());
            self.tags[t].lemma_removed(id);
            if t == tag {
                assert(self.tags[t].added(id, fl).has(id) <==> self.tags[t].has(id) || id == id);
            } else {
                assert(self.tags[t].removed(id).has(id) <==> self.tags[t].has(id) && id != id);
            }
        }
    }

    /// Toggling the active window on a tag keeps a monitor well formed.
    /// The window comes onto a tag that it was not on; it leaves a tag that
    /// it was on if it is on another one too, and stays on its last tag.
    /// No other tag gains or loses it.
    pub proof fn lemma_flipped(self, tag: int)
        requires
            self.wf(),
            self.acts_on(tag),
        ensures
            self.flipped(tag).wf(),
            self.toggled_tag(tag).wf(),
            !self.tags[tag].has(self.active_id()->0) ==> self.toggled_tag(tag).tags[tag].has(
                self.active_id()->0,
            ),
            self.tags[tag].has(self.active_id()->0) && self.elsewhere(self.active_id()->0, tag)
                ==> !self.toggled_tag(tag).tags[tag].has(self.active_id()->0),
            self.tags[tag].has(self.active_id()->0) && !self.elsewhere(self.active_id()->0, tag)
                ==> self.toggled_tag(tag).tags == self.tags,
            forall|t: int|
                0 <= t < self.tags.len() && t != tag ==> (#[trigger] self.toggled_tag(tag).tags[t])
                    == self.tags[t],
            self.toggled_tag(tag).placed(self.active_id()->0),
    {
        let id = self.active_id()->0;
        let fl = self.floating_of(id);
        let next = self.flipped(tag);
        self.lemma_active_id();
        assert(self.tags[tag].wf());
        self.tags[tag].lemma_added(id, fl);
        self.tags[tag].lemma_removed(id);
        assert(self.tags[tag].added(id, fl).has(id) <==> self.tags[tag].has(id) || id == id);
        assert(self.tags[tag].removed(id).has(id) <==> self.tags[tag].has(id) && id != id);
        assert forall|t: int| 0 <= t < next.tags.len() implies (#[trigger] next.tags[t]).wf() by {
            assert(self.tags[t].wf());
        }
        assert forall|t: int, x: WindowId|
            0 <= t < next.tags.len() && (#[trigger] next.tags[t].has(x))
            implies next.windows.contains_key(x) by {
            if t == tag {
                assert(self.tags[t].added(id, fl).has(x) <==> self.tags[t].has(x) || x == id);
                assert(self.tags[t].removed(id).has(x) <==> self.tags[t].has(x) && x != id);
            }
            if x != id {
                assert(self.tags[t].has(x));
            }
        }
        assert forall|x: WindowId|
            #[trigger] next.windows.contains_key(x)
            implies next.placed(x) by {
            assert(self.placed(x));
            if x == id && self.tags[tag].has(id) && self.elsewhere(id, tag) {
                let t = choose|t: int| 0 <= t < self.tags.len() && t != tag && (#[trigger] self.tags[t]).has(id);
                assert(next.tags[t].has(x));
            } else if x == id && !self.tags[tag].has(id) {
                assert(next.tags[tag].has(x));
            } else {
                let t = choose|t: int| 0 <= t < self.tags.len() && (#[trigger] self.tags[t]).has(x);
                if t == tag {
                    assert(self.tags[t].added(id, fl).has(x) <==> self.tags[t].has(x) || x == id);
                    assert(self.tags[t].removed(id).has(x) <==> self.tags[t].has(x) && x != id);
                }
                assert(next.tags[t].has(x));
            }
        }
        self.lemma_placement_moved(next, id);
        next.lemma_laid_out();
        assert(self.toggled_tag(tag).tags == next.tags);
        assert(next.placed(id));
        let w = choose|t: int| 0 <= t < next.tags.len() && (#[trigger] next.tags[t]).has(id);
        assert(self.toggled_tag(tag).tags[w].has(id));
        if self.tags[tag].has(id) && !self.elsewhere(id, tag) {
            assert(next.tags =~= self.tags);
        }
    }

    /// A window on tag `a` that is toggled onto tag `b` and then off tag
    /// `a` is on `b` and no longer on `a`. A window that is toggled off its
    /// only tag stays on it.
    pub proof fn lemma_toggle_membership(self, a: int, b: int)
        requires
            self.wf(),
            self.active_id() is Some,
            0 <= a < TAGCOUNT,
            0 <= b < TAGCOUNT,
            self.tags[a].has(self.active_id()->0),
            !self.tags[b].has(self.active_id()->0),
        ensures
            self.toggled_tag(b).toggled_tag(a).wf(),
            self.toggled_tag(b).toggled_tag(a).tags[b].has(self.active_id()->0),
            !self.toggled_tag(b).toggled_tag(a).tags[a].has(self.active_id()->0),
            !self.elsewhere(self.active_id()->0, a) ==> self.toggled_tag(a).tags == self.tags
                && self.toggled_tag(a).tags[a].has(self.active_id()->0),
    {
        let id = self.active_id()->0;
        self.lemma_active_id();
        self.lemma_flipped(b);
        self.lemma_flipped(a);
        let one = self.toggled_tag(b);
        assert(self.active_tag != b);
        assert(one.tags[self.active_tag] == self.tags[self.active_tag]);
        assert(one.active_id() == Some(id));
        assert(one.tags[a] == self.tags[a]);
        assert(one.tags[b].has(id));
        assert(one.elsewhere(id, a));
        one.lemma_flipped(a);
    }

    /// A change of placement keeps a monitor well formed and every window
    /// on its tags.
    pub proof fn lemma_replaced(self, id: WindowId, floating: bool)
        requires
            self.wf(),
            self.windows.contains_key(id),
        ensures
            self.replaced(id, floating).wf(),
            self.replaced(id, floating).laid_out().wf(),
            forall|t: int, x: WindowId|
                0 <= t < self.tags.len() ==> (#[trigger] self.replaced(id, floating).tags[t].has(x)
                    <==> self.tags[t].has(x)),
    {
        let next = self.replaced(id, floating);
        assert(next.windows.dom() =~= self.windows.dom());
        assert forall|t: int, x: WindowId| 0 <= t < self.tags.len() implies (#[trigger] next.tags[t].has(x)
            <==> self.tags[t].has(x)) by {
            assert(self.tags[t].wf());
            self.tags[t].lemma_added(id, floating);
            if self.tags[t].has(id) {
                assert(self.tags[t].added(id, floating).has(x) <==> self.tags[t].has(x) || x == id);
            }
        }
        assert forall|t: int| 0 <= t < next.tags.len() implies (#[trigger] next.tags[t]).wf() by {
            assert(self.tags[t].wf());
            self.tags[t].lemma_added(id, floating);
        }
        assert forall|t: int, x: WindowId|
            0 <= t < next.tags.len() && (#[trigger] next.tags[t].has(x))
            implies next.windows.contains_key(x) by {
            assert(self.tags[t].has(x));
        }
        assert forall|x: WindowId|
            #[trigger] next.windows.contains_key(x)
            implies next.placed(x) by {
            assert(self.windows.contains_key(x));
            assert(self.placed(x));
            let t = choose|t: int| 0 <= t < self.tags.len() && (#[trigger] self.tags[t]).has(x);
            assert(next.tags[t].has(x));
        }
        assert forall|x: WindowId|
            #[trigger] next.windows.contains_key(x)
            implies next.windows[x].sound(x) by {
            assert(self.windows.contains_key(x));
        }
        assert forall|a: WindowId, b: WindowId|
            #![trigger next.windows[a], next.windows[b]]
            next.windows.contains_key(a) && next.windows.contains_key(b) && next.windows[a].focused
                && next.windows[b].focused implies a == b by {
            assert(self.windows.contains_key(a) && self.windows[a].focused);
            assert(self.windows.contains_key(b) && self.windows[b].focused);
        }
        self.lemma_placement_moved(next, id);
        next.lemma_laid_out();
    }

    /// A change of the active tag keeps a monitor well formed.
    pub proof fn lemma_viewing(self, active: int, prev: int)
        requires
            self.wf(),
            0 <= active < TAGCOUNT,
            0 <= prev < TAGCOUNT,
        ensures
            (MonitorView { active_tag: active, prev_tag: prev, ..self }).wf(),
            (MonitorView { active_tag: active, prev_tag: prev, ..self }).laid_out().wf(),
    {
        let next = MonitorView { active_tag: active, prev_tag: prev, ..self };
        assert forall|x: WindowId|
            #[trigger] next.windows.contains_key(x)
            implies next.placed(x) by {
            assert(self.placed(x));
            let t = choose|t: int| 0 <= t < self.tags.len() && (#[trigger] self.tags[t]).has(x);
            assert(next.tags[t].has(x));
        }
        self.lemma_placement_kept(next);
        next.lemma_laid_out();
    }

    /// The visible windows of a well-formed monitor are registered, each
    /// has a sound record, and none is listed twice.
    pub proof fn lemma_visible(self)
        requires
            self.wf(),
        ensures
            self.tag().window_ids().no_duplicates(),
            self.visible().len() == self.tag().window_ids().len(),
            forall|i: int|
                0 <= i < self.visible().len() ==> self.windows.contains_key(
                    #[trigger] self.tag().window_ids()[i],
                ) && self.visible()[i].sound(self.tag().window_ids()[i]),
    {
        let tag = self.tag();
        assert(tag.wf());
        let ids = tag.window_ids();
        assert forall|i: int, j: int| 0 <= i < ids.len() && 0 <= j < ids.len() && i != j
            implies ids[i] != ids[j] by {
            if i < tag.tiled.len() {
                assert(tag.tiled.contains(ids[i]));
            } else {
                assert(tag.floating[i - tag.tiled.len()] == ids[i]);
                assert(tag.floating.contains(ids[i]));
            }
            if j < tag.tiled.len() {
                assert(tag.tiled.contains(ids[j]));
            } else {
                assert(tag.floating[j - tag.tiled.len()] == ids[j]);
                assert(tag.floating.contains(ids[j]));
            }
        }
        assert forall|i: int| 0 <= i < self.visible().len()
            implies self.windows.contains_key(#[trigger] ids[i]) && self.visible()[i].sound(ids[i]) by {
            if i < tag.tiled.len() {
                assert(tag.tiled[i] == ids[i]);
                assert(tag.tiled.contains(ids[i]));
            } else {
                assert(tag.floating[i - tag.tiled.len()] == ids[i]);
                assert(tag.floating.contains(ids[i]));
            }
            assert(self.tags[self.active_tag].has(ids[i]));
        }
    }

    /// Placement carries over where every window but `id` keeps its
    /// record, and every tag stays as it was, loses `id`, or gets `id` in the
    /// list that its record names.
    pub proof fn lemma_placement_moved(self, next: MonitorView, id: WindowId)
        requires
            self.wf(),
            next.tags.len() == self.tags.len(),
            forall|x: WindowId|
                x != id ==> (#[trigger] next.windows[x]).floating == self.windows[x].floating,
            forall|t: int|
                0 <= t < next.tags.len() ==> {
                    ||| #[trigger] next.tags[t] == self.tags[t] && (self.tags[t].has(id)
                        ==> next.windows[id].floating == self.windows[id].floating)
                    ||| next.tags[t] == self.tags[t].removed(id)
                    ||| next.tags[t] == self.tags[t].added(id, next.windows[id].floating)
                },
        ensures
            next.placement_agrees(),
    {
        assert forall|t: int, x: WindowId|
            0 <= t < next.tags.len() && (#[trigger] next.tags[t].tiled.contains(x))
            implies !next.windows[x].floating by {
            assert(self.tags[t].wf());
            self.tags[t].lemma_removed(id);
            self.tags[t].lemma_added(id, next.windows[id].floating);
            if x != id {
                assert(self.tags[t].tiled.contains(x));
            }
        }
        assert forall|t: int, x: WindowId|
            0 <= t < next.tags.len() && (#[trigger] next.tags[t].floating.contains(x))
            implies next.windows[x].floating by {
            assert(self.tags[t].wf());
            self.tags[t].lemma_removed(id);
            self.tags[t].lemma_added(id, next.windows[id].floating);
            if x != id {
                assert(self.tags[t].floating.contains(x));
            }
        }
    }

    /// Placement carries over to a monitor whose tags hold their windows
    /// in the lists that held them before, with records that say the same.
    pub proof fn lemma_placement_kept(self, next: MonitorView)
        requires
            self.placement_agrees(),
            next.tags.len() == self.tags.len(),
            forall|t: int, id: WindowId|
                0 <= t < next.tags.len() && (#[trigger] next.tags[t].tiled.contains(id))
                    ==> self.tags[t].tiled.contains(id) && next.windows[id].floating
                    == self.windows[id].floating,
            forall|t: int, id: WindowId|
                0 <= t < next.tags.len() && (#[trigger] next.tags[t].floating.contains(id))
                    ==> self.tags[t].floating.contains(id) && next.windows[id].floating
                    == self.windows[id].floating,
        ensures
            next.placement_agrees(),
    {
        assert forall|t: int, id: WindowId|
            0 <= t < next.tags.len() && (#[trigger] next.tags[t].tiled.contains(id))
            implies !next.windows[id].floating by {
            assert(self.tags[t].tiled.contains(id));
        }
        assert forall|t: int, id: WindowId|
            0 <= t < next.tags.len() && (#[trigger] next.tags[t].floating.contains(id))
            implies next.windows[id].floating by {
            assert(self.tags[t].floating.contains(id));
        }
    }

    /// A well-formed monitor has no more tiled windows on a tag than the
    /// registry has records.
    pub proof fn lemma_tiled_count(self, t: int)
        requires
            self.wf(),
            0 <= t < self.tags.len(),
        ensures
            self.tags[t].tiled.len() <= MAX_WINDOWS,
            self.tags[t].floating.len() <= MAX_WINDOWS,
            self.tags[t].focus_stack.len() <= MAX_WINDOWS,
    {
        let tag = self.tags[t];
        assert(tag.wf());
        assert forall|x: WindowId| tag.tiled.contains(x) implies self.windows.dom().contains(x) by {
            assert(self.tags[t].has(x));
        }
        lemma_list_count(tag.tiled, self.windows.dom());
        assert forall|x: WindowId|
            tag.floating.contains(x)
            implies self.windows.dom().contains(x) by {
            assert(self.tags[t].has(x));
        }
        lemma_list_count(tag.floating, self.windows.dom());
        assert forall|x: WindowId|
            tag.focus_stack.contains(x)
            implies self.windows.dom().contains(x) by {
            assert(tag.focus_stack.contains(x) <==> tag.has(x));
            assert(self.tags[t].has(x));
        }
        lemma_list_count(tag.focus_stack, self.windows.dom());
    }

    /// Laying out keeps a monitor well formed, changes no record but in
    /// its tiled rectangle, and changes nothing when done again.
    pub proof fn lemma_laid_out(self)
        requires
            self.wf(),
        ensures
            self.laid_out().wf(),
            self.laid_out().laid_out() == self.laid_out(),
            self.laid_out().resize_requests() == self.resize_requests(),
            forall|id: WindowId| #[trigger]
                self.windows.contains_key(id) ==> self.laid_out().windows[id] == (WindowElement {
                    tiled_geo: self.laid_out().windows[id].tiled_geo,
                    ..self.windows[id]
                }),
    {
        let out = self.laid_out();
        self.lemma_tiled_count(self.active_tag);
        let tag = self.tag();
        assert(tag.wf());
        assert(out.windows.dom() =~= self.windows.dom());
        assert forall|id: WindowId|
            #[trigger] out.windows.contains_key(id)
            implies out.windows[id].sound(id) by {
            assert(self.windows.contains_key(id));
            assert(self.windows[id].sound(id));
            lemma_position_some(tag.tiled, id);
            match position(tag.tiled, id) {
                Some(i) => {
                    tag.layout.lemma_rect_bounded(tag.tiled.len() as int, self.area, i);
                },
                None => {},
            }
        }
        assert forall|id: WindowId|
            #[trigger] out.windows.contains_key(id)
            implies out.placed(id) by {
            assert(self.windows.contains_key(id));
            assert(self.placed(id));
            let t = choose|t: int| 0 <= t < self.tags.len() && (#[trigger] self.tags[t]).has(id);
            assert(out.tags[t].has(id));
        }
        assert forall|a: WindowId, b: WindowId|
            #![trigger out.windows[a], out.windows[b]]
            out.windows.contains_key(a) && out.windows.contains_key(b) && out.windows[a].focused
                && out.windows[b].focused implies a == b by {
            assert(self.windows[a].focused && self.windows[b].focused);
        }
        assert forall|t: int, id: WindowId|
            0 <= t < out.tags.len() && (#[trigger] out.tags[t].tiled.contains(id)) implies self.tags[t].tiled.contains(
            id,
        ) && out.windows[id].floating == self.windows[id].floating by {
            assert(self.tags[t].has(id));
        }
        assert forall|t: int, id: WindowId|
            0 <= t < out.tags.len() && (#[trigger] out.tags[t].floating.contains(id)) implies self.tags[t].floating.contains(
            id,
        ) && out.windows[id].floating == self.windows[id].floating by {
            assert(self.tags[t].has(id));
        }
        self.lemma_placement_kept(out);
        assert(out.laid_out().windows =~= out.windows);
        assert(out.laid_out() =~~= out);
        assert(out.resize_requests() =~= self.resize_requests()) by {
            assert forall|i: int| 0 <= i < tag.tiled.len() implies out.windows[tag.tiled[i]].surface
                == self.windows[tag.tiled[i]].surface by {
                assert(self.tags[self.active_tag].has(tag.tiled[i]));
            }
        }
    }
}

/// A list without repetition whose entries all lie in a finite set is no
/// longer than the set is large.
pub proof fn lemma_list_count(s: Seq<WindowId>, dom: Set<WindowId>)
    requires
        s.no_duplicates(),
        dom.finite(),
        forall|x: WindowId| s.contains(x) ==> dom.contains(x),
    ensures
        s.len() <= dom.len(),
{
    s.unique_seq_to_set();
    assert(s.to_set().subset_of(dom)) by {
        assert forall|x: WindowId| s.to_set().contains(x) implies dom.contains(x) by {
            assert(s.contains(x));
        }
    }
    vstd::set_lib::lemma_len_subset(s.to_set(), dom);
}

impl Monitor {
    /// A monitor with `TAGCOUNT` empty tags, the first of them active.
    pub fn new(area: Rect) -> (m: Monitor)
        requires
            area.within(AREA_LIMIT as int),
        ensures
            m@ == MonitorView::fresh(area),
            m@.wf(),
    {
        let mut tags: Vec<Tag> = Vec::new();
        let mut t: usize = 0;
        while t < TAGCOUNT
            invariant
                0 <= t <= TAGCOUNT,
                tags.len() == t,
                forall|k: int| 0 <= k < t ==> tags[k]@ == MonitorView::fresh(area).tags[k] && tags[k]@.wf(),
            decreases TAGCOUNT - t,
        {
            tags.push(Tag::default());
            t += 1;
        }
        let m = Monitor { windows: registry_new(), tags, active_tag: 0, prev_tag: 0, area };
        proof {
            assert(m@.windows =~= Map::empty());
            assert(m@.tags =~= MonitorView::fresh(area).tags);
            assert(m@ =~~= MonitorView::fresh(area));
            assert forall|t: int, id: WindowId|
                0 <= t < m@.tags.len()
                implies !(#[trigger] m@.tags[t].has(id)) by {
                assert(m@.tags[t] == tags[t]@);
            }
        }
        m
    }

    /// The usable area in which the active tag is laid out.
    pub fn area(&self) -> (area: Rect)
        ensures
            area == self@.area,
    {
        self.area
    }

    /// Index of the active tag.
    pub fn active_tag(&self) -> (t: usize)
        ensures
            t == self@.active_tag,
    {
        self.active_tag
    }

    /// Index of the tag that was active before the active one.
    pub fn prev_tag(&self) -> (t: usize)
        ensures
            t == self@.prev_tag,
    {
        self.prev_tag
    }

    /// Number of mapped windows.
    pub fn window_count(&self) -> (n: usize)
        ensures
            n == self@.windows.dom().len(),
    {
        registry_len(&self.windows)
    }

    /// The active tag.
    pub fn tag(&self) -> (tag: &Tag)
        requires
            self@.wf(),
        ensures
            tag@ == self@.tag(),
    {
        &self.tags[self.active_tag]
    }

    /// Sets the usable area of the output. The windows keep their
    /// rectangles until the next layout.
    pub fn set_area(&mut self, area: Rect)
        requires
            old(self)@.wf(),
            area.within(AREA_LIMIT as int),
        ensures
            final(self)@ == old(self)@.with_area(area),
            final(self)@.wf(),
    {
        self.area = area;
        proof {
            assert(self@.tags =~= old(self)@.tags);
            assert(self@ =~~= old(self)@.with_area(area));
            assert forall|id: WindowId|
                #[trigger] self@.windows.contains_key(id)
                implies self@.placed(id) by {
                assert(old(self)@.placed(id));
            }
        }
    }

    /// Gives the tiled windows of the active tag their rectangles, in
    /// layout order, and returns one resize request for each of them.
    pub fn recompute_layout(&mut self) -> (effects: Vec<Effect>)
        requires
            old(self)@.wf(),
        ensures
            final(self)@ == old(self)@.laid_out(),
            final(self)@.wf(),
            effects@ == old(self)@.resize_requests(),
    {
        proof {
            old(self)@.lemma_tiled_count(old(self)@.active_tag);
            old(self)@.lemma_laid_out();
            assert(old(self)@.tag().wf());
        }
        let count: usize = self.tags[self.active_tag].tiled.len();
        proof {
            old(self)@.tag().layout.lemma_computable(count as int, self.area);
        }
        let rects = self.tags[self.active_tag].layout.compute_rects(count, self.area);
        let mut effects: Vec<Effect> = Vec::new();
        let ghost before = self@;
        proof {
            assert forall|id: WindowId| #[trigger] before.windows.contains_key(id) implies (match position(
                before.tag().tiled,
                id,
            ) {
                Some(p) => p >= 0,
                None => true,
            }) by {
                lemma_position_some(before.tag().tiled, id);
            }
        }
        let mut i: usize = 0;
        while i < count
            invariant
                0 <= i <= count,
                before == old(self)@,
                before.wf(),
                before.tag().wf(),
                count == before.tag().tiled.len(),
                rects@ == before.tag().layout.rects(count as int, before.area),
                self@.tags == before.tags,
                self@.active_tag == before.active_tag,
                self@.prev_tag == before.prev_tag,
                self@.area == before.area,
                self@.windows.dom() == before.windows.dom(),
                forall|id: WindowId| #[trigger]
                    before.windows.contains_key(id) ==> self@.windows[id] == (match position(
                        before.tag().tiled,
                        id,
                    ) {
                        Some(p) => if p < i {
                            before.laid_out_record(id)
                        } else {
                            before.windows[id]
                        },
                        None => before.windows[id],
                    }),
                effects@ == before.resize_requests().take(i as int),
            decreases count - i,
        {
            let id = self.tags[self.active_tag].tiled[i];
            let rect = rects[i];
            proof {
                assert(self@.tags[self@.active_tag] == self.tags@[self.active_tag as int]@);
                assert(before.tag().tiled[i as int] == id);
                assert(before.tags[before.active_tag].has(id));
                assert(before.windows.contains_key(id));
                crate::shell::list::lemma_position(before.tag().tiled, id, i as int);
                assert(rect == before.tiled_rect(i as int));
            }
            let ghost mid = self@;
            proof {
                use_type_invariant(&id);
            }
            match registry_get_mut(&mut self.windows, id) {
                Some(we) => {
                    we.tiled_geo = rect;
                    effects.push(Effect::Resize { surface: we.surface, size: rect.size });
                },
                None => {},
            }
            proof {
                assert(self@.tags =~= before.tags);
                assert(self@.windows.dom() =~= before.windows.dom());
                assert forall|k: WindowId| #[trigger] before.windows.contains_key(k) implies self@.windows[k]
                    == (match position(before.tag().tiled, k) {
                    Some(p) => if p < i + 1 {
                        before.laid_out_record(k)
                    } else {
                        before.windows[k]
                    },
                    None => before.windows[k],
                }) by {
                    lemma_position_some(before.tag().tiled, k);
                    if k != id {
                        assert(self@.windows[k] == mid.windows[k]);
                        match position(before.tag().tiled, k) {
                            Some(p) => {
                                assert(p != i);
                            },
                            None => {},
                        }
                    }
                }
                assert(effects@ =~= before.resize_requests().take(i + 1));
            }
            i += 1;
        }
        proof {
            assert(effects@ =~= before.resize_requests());
            assert(self@.windows =~= before.laid_out().windows) by {
                assert forall|k: WindowId| before.windows.contains_key(k) implies self@.windows[k]
                    == before.laid_out().windows[k] by {
                    lemma_position_some(before.tag().tiled, k);
                }
            }
            assert(self@ =~~= before.laid_out());
        }
        effects
    }
    /// Maps a window: registers it with its floating rectangle, adds it to
    /// the active tag and lays the tag out. Returns the window's key and
    /// the resize requests of the layout.
    pub fn map(&mut self, surface: SurfaceId, size: Size, floating: bool) -> (r: (WindowId, Vec<Effect>))
        requires
            old(self)@.wf(),
            old(self)@.takes(size),
        ensures
            !old(self)@.windows.contains_key(r.0),
            final(self)@ == old(self)@.mapped(r.0, surface, size, floating),
            final(self)@.wf(),
            r.1@ == final(self)@.resize_requests(),
    {
        let area = self.area;
        proof {
            old(self)@.lemma_float_rect(size);
        }
        let fw: i32 = if size.w > 0 {
            size.w
        } else {
            div_trunc(area.size.w as i64 * 3, 4) as i32
        };
        let fh: i32 = if size.h > 0 {
            size.h
        } else {
            div_trunc(area.size.h as i64 * 3, 4) as i32
        };
        let x: i32 = (area.loc.x as i64 + div_trunc(area.size.w as i64 - fw as i64, 2)) as i32;
        let y: i32 = (area.loc.y as i64 + div_trunc(area.size.h as i64 - fh as i64, 2)) as i32;
        let float_geo = Rect { loc: Point { x, y }, size: Size { w: fw, h: fh } };
        assert(float_geo == old(self)@.float_rect(size));
        let id = registry_insert(&mut self.windows, surface, float_geo, floating);
        let active = self.active_tag;
        self.tags[active].add(id, floating);
        proof {
            old(self)@.lemma_inserted(id, surface, size, floating);
            assert(self@.tags =~= old(self)@.inserted(id, surface, size, floating).tags);
            assert(self@ =~~= old(self)@.inserted(id, surface, size, floating));
            self@.lemma_laid_out();
        }
        let effects = self.recompute_layout();
        (id, effects)
    }

    /// Whether the monitor can map a window that asks for `size`.
    pub fn can_map(&self, size: Size) -> (b: bool)
        ensures
            b == self@.takes(size),
    {
        registry_len(&self.windows) < MAX_WINDOWS && size.w <= GEO_LIMIT && size.h <= GEO_LIMIT
    }

    /// Maps a window where the monitor can, and does nothing where it
    /// cannot.
    pub fn try_map(&mut self, surface: SurfaceId, size: Size, floating: bool) -> (r: Option<
        (WindowId, Vec<Effect>),
    >)
        requires
            old(self)@.wf(),
        ensures
            final(self)@.wf(),
            r is Some == old(self)@.takes(size),
            (match r {
                Some((id, effects)) => !old(self)@.windows.contains_key(id) && final(self)@ == old(
                    self,
                )@.mapped(id, surface, size, floating) && effects@ == final(self)@.resize_requests(),
                None => final(self)@ == old(self)@,
            }),
    {
        if !self.can_map(size) {
            return None;
        }
        Some(self.map(surface, size, floating))
    }

    /// Unmaps a window: takes it out of every tag, then out of the
    /// registry, and lays the active tag out. Returns the resize requests
    /// of the layout.
    pub fn unmap(&mut self, id: WindowId) -> (effects: Vec<Effect>)
        requires
            old(self)@.wf(),
        ensures
            final(self)@ == old(self)@.unmapped(id),
            final(self)@.wf(),
            effects@ == final(self)@.resize_requests(),
    {
        self.purge(id);
        proof {
            use_type_invariant(&id);
        }
        let _ = registry_remove(&mut self.windows, id);
        proof {
            old(self)@.lemma_deleted(id);
            assert(self@ =~~= old(self)@.deleted(id));
            self@.lemma_laid_out();
        }
        self.recompute_layout()
    }

    /// Takes `id` out of every tag.
    fn purge(&mut self, id: WindowId)
        requires
            old(self)@.tags.len() == TAGCOUNT,
        ensures
            final(self)@ == (MonitorView { tags: old(self)@.purged(id), ..old(self)@ }),
    {
        let mut t: usize = 0;
        while t < TAGCOUNT
            invariant
                0 <= t <= TAGCOUNT,
                self.tags.len() == TAGCOUNT,
                old(self)@.tags.len() == TAGCOUNT,
                self.windows == old(self).windows,
                self.active_tag == old(self).active_tag,
                self.prev_tag == old(self).prev_tag,
                self.area == old(self).area,
                forall|k: int| 0 <= k < t ==> (#[trigger] self.tags[k])@ == old(self)@.tags[k].removed(id),
                forall|k: int| t <= k < TAGCOUNT ==> (#[trigger] self.tags[k])@ == old(self)@.tags[k],
            decreases TAGCOUNT - t,
        {
            self.tags[t].remove(id);
            t += 1;
        }
        proof {
            assert(self@.tags =~= old(self)@.purged(id));
        }
    }

    /// The record of `id`. None where no window is mapped under `id`.
    pub fn get(&self, id: WindowId) -> (r: Option<&WindowElement>)
        ensures
            r == (if self@.windows.contains_key(id) {
                Some(&self@.windows[id])
            } else {
                None
            }),
    {
        proof {
            use_type_invariant(&id);
        }
        registry_get(&self.windows, id)
    }

    /// Moves or resizes the floating rectangle of `id`. Returns whether a
    /// window is mapped under `id`.
    pub fn set_float_geo(&mut self, id: WindowId, geo: Rect) -> (known: bool)
        requires
            old(self)@.wf(),
            geo.within(GEO_LIMIT as int),
        ensures
            known == old(self)@.windows.contains_key(id),
            final(self)@ == old(self)@.with_float_geo(id, geo),
            final(self)@.wf(),
    {
        proof {
            use_type_invariant(&id);
        }
        proof {
            use_type_invariant(&id);
        }
        let known = match registry_get_mut(&mut self.windows, id) {
            Some(we) => {
                we.float_geo = geo;
                true
            },
            None => false,
        };
        proof {
            old(self)@.lemma_with_float_geo(id, geo);
            assert(self@ =~~= old(self)@.with_float_geo(id, geo));
        }
        known
    }

    /// The window focused last on the active tag.
    pub fn active_id(&self) -> (id: Option<WindowId>)
        requires
            self@.wf(),
        ensures
            id == self@.active_id(),
    {
        self.tags[self.active_tag].head()
    }

    /// The record of the window focused last on the active tag.
    pub fn focused_window(&self) -> (r: Option<&WindowElement>)
        requires
            self@.wf(),
        ensures
            r == (match self@.focused_window() {
                Some(we) => Some(&we),
                None => None,
            }),
    {
        match self.tags[self.active_tag].head() {
            Some(id) => {
                proof {
                    use_type_invariant(&id);
                }
                registry_get(&self.windows, id)
            },
            None => None,
        }
    }

    /// The request to close the window focused last on the active tag.
    pub fn kill_active(&self) -> (effect: Option<Effect>)
        requires
            self@.wf(),
        ensures
            effect == (match self@.focused_window() {
                Some(we) => Some(Effect::Close { surface: we.surface }),
                None => None,
            }),
    {
        match self.focused_window() {
            Some(we) => Some(Effect::Close { surface: we.surface }),
            None => None,
        }
    }

    /// The records of the windows of the active tag in paint order: tiled
    /// windows first, then floating windows bottom to top.
    pub fn visible_windows(&self) -> (windows: Vec<WindowElement>)
        requires
            self@.wf(),
        ensures
            windows@ == self@.visible(),
            forall|i: int| 0 <= i < windows.len() ==> (#[trigger] windows[i]).sound(self@.tag().window_ids()[i]),
    {
        let ids = self.tags[self.active_tag].window_ids();
        let mut windows: Vec<WindowElement> = Vec::new();
        let mut i: usize = 0;
        while i < ids.len()
            invariant
                0 <= i <= ids.len(),
                self@.wf(),
                ids@ == self@.tag().window_ids(),
                windows.len() == i,
                forall|k: int| 0 <= k < i ==> windows[k] == self@.windows[ids[k]] && (#[trigger] windows[k]).sound(ids[k]),
            decreases ids.len() - i,
        {
            proof {
                let id = ids[i as int];
                let tag = self@.tag();
                if i < tag.tiled.len() {
                    assert(tag.tiled[i as int] == id);
                    assert(tag.tiled.contains(id));
                } else {
                    assert(tag.floating[i - tag.tiled.len()] == id);
                    assert(tag.floating.contains(id));
                }
                assert(self@.tags[self@.active_tag].has(id));
            }
            let id = ids[i];
            proof {
                use_type_invariant(&id);
            }
            match registry_get(&self.windows, id) {
                Some(we) => {
                    windows.push(*we);
                },
                None => {},
            }
            i += 1;
        }
        assert(windows@ =~= self@.visible());
        windows
    }

    /// The first window in the order of the registry whose surface is
    /// `surface`.
    pub fn find_window_by_surface(&self, surface: SurfaceId) -> (r: Option<&WindowElement>)
        requires
            self@.wf(),
        ensures
            r == (match self@.owner(surface) {
                Some(id) => Some(&self@.windows[id]),
                None => None,
            }),
            r is Some ==> self@.owner(surface) == Some(r->0.id) && r->0.surface == surface
                && self@.windows.contains_key(r->0.id),
            r is None ==> forall|id: WindowId| #[trigger]
                self@.windows.contains_key(id) ==> self@.windows[id].surface != surface,
    {
        let keys = registry_keys(&self.windows);
        proof {
            lemma_key_order(keys@, self@.windows.dom());
        }
        let mut i: usize = 0;
        while i < keys.len()
            invariant
                0 <= i <= keys.len(),
                self@.wf(),
                keys@ == self@.order(),
                forall|id: WindowId| keys@.contains(id) == self@.windows.contains_key(id),
                forall|k: int| 0 <= k < i ==> self@.windows[keys[k]].surface != surface,
            decreases keys.len() - i,
        {
            assert(keys@.contains(keys[i as int]));
            let key = keys[i];
            proof {
                use_type_invariant(&key);
            }
            match registry_get(&self.windows, key) {
                Some(we) => {
                    if we.surface == surface {
                        proof {
                            assert(we.sound(key));
                            assert(self@.owns_at(surface, i as int));
                            self@.lemma_owner(surface, i as int);
                        }
                        return Some(we);
                    }
                },
                None => {},
            }
            i += 1;
        }
        proof {
            assert forall|id: WindowId| #[trigger] self@.windows.contains_key(id) implies self@.windows[id].surface
                != surface by {
                assert(keys@.contains(id));
                let k = choose|k: int| 0 <= k < keys@.len() && keys@[k] == id;
                assert(self@.windows[keys[k]].surface != surface);
            }
            assert(self@.owner(surface) is None) by {
                if exists|c: int| self@.owns_at(surface, c) {
                    let c = choose|c: int| self@.owns_at(surface, c);
                    assert(self@.windows[keys[c]].surface != surface);
                }
            }
        }
        None
    }

    /// The key of the first window in the order of the registry whose
    /// surface is `surface`.
    pub fn find_by_surface(&self, surface: SurfaceId) -> (r: Option<WindowId>)
        requires
            self@.wf(),
        ensures
            r == self@.owner(surface),
            r is Some ==> self@.windows.contains_key(r->0) && self@.windows[r->0].surface == surface,
            r is None ==> forall|id: WindowId| #[trigger]
                self@.windows.contains_key(id) ==> self@.windows[id].surface != surface,
    {
        match self.find_window_by_surface(surface) {
            Some(we) => Some(we.id),
            None => None,
        }
    }

    /// The topmost visible window that holds the pixel `p`.
    pub fn window_under(&self, p: Point) -> (r: Option<WindowElement>)
        requires
            self@.wf(),
        ensures
            r == self@.window_at(p),
            r is None <==> forall|i: int|
                0 <= i < self@.visible().len() ==> !(#[trigger] self@.visible()[i]).active_geo().has_point(p),
    {
        let windows = self.visible_windows();
        let mut i: usize = windows.len();
        while i > 0
            invariant
                0 <= i <= windows.len(),
                windows@ == self@.visible(),
                forall|j: int|
                    i <= j < windows.len() ==> !(#[trigger] windows[j]).active_geo().has_point(p),
            decreases i,
        {
            i -= 1;
            if windows[i].geo().contains(p) {
                proof {
                    assert(self@.topmost_at(p, i as int));
                    self@.lemma_under(p, i as int);
                }
                return Some(windows[i]);
            }
        }
        proof {
            if exists|c: int| self@.topmost_at(p, c) {
                let c = choose|c: int| self@.topmost_at(p, c);
                assert(windows[c].active_geo().has_point(p));
            }
        }
        None
    }

    /// Takes the focus from every window. Returns the requests that tell
    /// the windows so.
    fn clear_focus(&mut self) -> (effects: Vec<Effect>)
        requires
            old(self)@.wf(),
        ensures
            final(self)@ == old(self)@.unfocused(),
            effects@ == old(self)@.unfocus_effects(),
    {
        let keys = registry_keys(&self.windows);
        let mut effects: Vec<Effect> = Vec::new();
        let ghost before = self@;
        proof {
            lemma_key_order(keys@, before.windows.dom());
        }
        let mut i: usize = 0;
        while i < keys.len()
            invariant
                0 <= i <= keys.len(),
                before == old(self)@,
                before.wf(),
                keys@ == before.order(),
                keys@.no_duplicates(),
                forall|id: WindowId| keys@.contains(id) == before.windows.contains_key(id),
                self@.tags == before.tags,
                self@.active_tag == before.active_tag,
                self@.prev_tag == before.prev_tag,
                self@.area == before.area,
                self@.windows.dom() == before.windows.dom(),
                forall|k: WindowId| #[trigger]
                    before.windows.contains_key(k) ==> self@.windows[k] == (if keys@.take(i as int).contains(k) {
                        WindowElement { focused: false, ..before.windows[k] }
                    } else {
                        before.windows[k]
                    }),
                effects@ == before.unfocus_effects().take(i as int),
            decreases keys.len() - i,
        {
            let key = keys[i];
            let ghost mid = self@;
            proof {
                assert(keys@.contains(key));
                assert(before.windows.contains_key(key));
                assert(!keys@.take(i as int).contains(key)) by {
                    if keys@.take(i as int).contains(key) {
                        let j = choose|j: int| 0 <= j < i && keys@.take(i as int)[j] == key;
                        assert(keys@[j] == keys@[i as int]);
                    }
                }
                assert(keys@.take(i + 1) =~= keys@.take(i as int).push(key));
                crate::shell::tag::lemma_pushed(keys@.take(i as int), key);
                use_type_invariant(&key);
            }
            match registry_get_mut(&mut self.windows, key) {
                Some(we) => {
                    effects.push(Effect::Activate { surface: we.surface, active: false });
                    we.focused = false;
                },
                None => {},
            }
            proof {
                assert(self@.tags =~= before.tags);
                assert(self@.windows.dom() =~= before.windows.dom());
                assert forall|k: WindowId| #[trigger] before.windows.contains_key(k) implies self@.windows[k]
                    == (if keys@.take(i + 1).contains(k) {
                    WindowElement { focused: false, ..before.windows[k] }
                } else {
                    before.windows[k]
                }) by {
                    if k != key {
                        assert(self@.windows[k] == mid.windows[k]);
                        assert(keys@.take(i + 1).contains(k) <==> keys@.take(i as int).contains(k));
                    }
                }
                assert(effects@ =~= before.unfocus_effects().take(i + 1));
            }
            i += 1;
        }
        proof {
            assert(keys@.take(keys.len() as int) =~= keys@);
            assert(self@.windows =~= before.unfocused().windows);
            assert(self@ =~~= before.unfocused());
            assert(effects@ =~= before.unfocus_effects());
        }
        effects
    }

    /// Transfers the focus: takes it from every window, then gives it to
    /// `id` if a window is mapped under it. A window of the active tag
    /// becomes the first of the tag's focus stack. Returns the surface that
    /// keyboard input is to go to, and the requests that tell the windows.
    pub fn set_focus(&mut self, id: Option<WindowId>) -> (r: (Option<SurfaceId>, Vec<Effect>))
        requires
            old(self)@.wf(),
        ensures
            final(self)@ == old(self)@.focused_on(id),
            final(self)@.wf(),
            r.0 == old(self)@.focus_surface(id),
            r.1@ == old(self)@.focus_effects(id),
            forall|k: WindowId| #[trigger]
                final(self)@.windows.contains_key(k) ==> (final(self)@.windows[k].focused
                    <==> old(self)@.focusable(id) && id == Some(k)),
    {
        proof {
            old(self)@.lemma_focused_on(id);
        }
        let mut effects = self.clear_focus();
        let mut target: Option<SurfaceId> = None;
        let active = self.active_tag;
        match id {
            Some(id) => {
                proof {
                    use_type_invariant(&id);
                }
                match registry_get_mut(&mut self.windows, id) {
                    Some(we) => {
                        we.focused = true;
                        effects.push(Effect::Activate { surface: we.surface, active: true });
                        target = Some(we.surface);
                    },
                    None => {},
                }
                if self.tags[active].contains(id) {
                    self.tags[active].promote(id);
                }
            },
            None => {},
        }
        proof {
            assert(self@.tags =~= old(self)@.focused_on(id).tags);
            assert(self@.windows =~= old(self)@.focused_on(id).windows);
            assert(self@ =~~= old(self)@.focused_on(id));
            assert(effects@ =~= old(self)@.focus_effects(id));
        }
        (target, effects)
    }
    /// Whether the window under `id` floats. False where none is mapped
    /// under `id`.
    fn is_floating(&self, id: WindowId) -> (b: bool)
        ensures
            b == self@.floating_of(id),
    {
        proof {
            use_type_invariant(&id);
        }
        match registry_get(&self.windows, id) {
            Some(we) => we.floating,
            None => false,
        }
    }

    /// Whether `id` is a window of a tag other than `tag`.
    fn on_other_tag(&self, id: WindowId, tag: usize) -> (b: bool)
        requires
            self@.tags.len() == TAGCOUNT,
        ensures
            b == self@.elsewhere(id, tag as int),
    {
        let mut t: usize = 0;
        while t < TAGCOUNT
            invariant
                0 <= t <= TAGCOUNT,
                self@.tags.len() == TAGCOUNT,
                forall|k: int| 0 <= k < t && k != tag ==> !(#[trigger] self@.tags[k]).has(id),
            decreases TAGCOUNT - t,
        {
            if t != tag && self.tags[t].contains(id) {
                assert(self@.tags[t as int].has(id));
                return true;
            }
            t += 1;
        }
        false
    }

    /// Moves the active window to `tag`: takes it off every tag, puts it
    /// on `tag`, and lays the active tag out. Does nothing where `tag` is
    /// no tag or no window is active.
    pub fn move_active_to_tag(&mut self, tag: usize) -> (effects: Vec<Effect>)
        requires
            old(self)@.wf(),
        ensures
            final(self)@ == old(self)@.moved_to_tag(tag as int),
            final(self)@.wf(),
            effects@ == (if old(self)@.acts_on(tag as int) {
                final(self)@.resize_requests()
            } else {
                Seq::empty()
            }),
    {
        if tag >= TAGCOUNT {
            return Vec::new();
        }
        let id = match self.active_id() {
            Some(id) => id,
            None => {
                return Vec::new();
            },
        };
        let floating = self.is_floating(id);
        self.purge(id);
        assert(self.tags@.len() == self@.tags.len());
        assert(self.tags@[tag as int]@ == self@.tags[tag as int]);
        self.tags[tag].add(id, floating);
        proof {
            old(self)@.lemma_sent(tag as int);
            assert(old(self)@.tags[tag as int].removed(id).added(id, floating)
                =~~= old(self)@.tags[tag as int].added(id, floating)) by {
                lemma_removed_twice(old(self)@.tags[tag as int], id);
            }
            assert(self@.tags =~= old(self)@.sent(tag as int).tags);
            assert(self@ =~~= old(self)@.sent(tag as int));
            self@.lemma_laid_out();
        }
        self.recompute_layout()
    }

    /// Toggles the active window on `tag`: puts it on the tag if it was
    /// not there, takes it off if it is on another tag too, and lays the
    /// active tag out. Does nothing where `tag` is no tag or no window is
    /// active.
    pub fn toggle_active_tag(&mut self, tag: usize) -> (effects: Vec<Effect>)
        requires
            old(self)@.wf(),
        ensures
            final(self)@ == old(self)@.toggled_tag(tag as int),
            final(self)@.wf(),
            effects@ == (if old(self)@.acts_on(tag as int) {
                final(self)@.resize_requests()
            } else {
                Seq::empty()
            }),
    {
        if tag >= TAGCOUNT {
            return Vec::new();
        }
        let id = match self.active_id() {
            Some(id) => id,
            None => {
                return Vec::new();
            },
        };
        let floating = self.is_floating(id);
        if self.tags[tag].contains(id) {
            if self.on_other_tag(id, tag) {
                self.tags[tag].remove(id);
            }
        } else {
            self.tags[tag].add(id, floating);
        }
        proof {
            old(self)@.lemma_flipped(tag as int);
            assert(self@.tags =~= old(self)@.flipped(tag as int).tags);
            assert(self@ =~~= old(self)@.flipped(tag as int));
            self@.lemma_laid_out();
        }
        self.recompute_layout()
    }

    /// Makes the window under `id` floating or tiled on every tag that it
    /// is a window of, and lays the active tag out. Does nothing where no
    /// window is mapped under `id` or it is placed so already.
    pub fn set_floating(&mut self, id: WindowId, floating: bool) -> (effects: Vec<Effect>)
        requires
            old(self)@.wf(),
        ensures
            final(self)@ == old(self)@.refloated(id, floating),
            final(self)@.wf(),
            effects@ == old(self)@.refloat_effects(id, floating),
    {
        let mut effects: Vec<Effect> = Vec::new();
        proof {
            use_type_invariant(&id);
        }
        match registry_get_mut(&mut self.windows, id) {
            Some(we) => {
                if we.floating == floating {
                    proof {
                        assert(self@ =~~= old(self)@);
                    }
                    return effects;
                }
                we.floating = floating;
                if floating {
                    effects.push(Effect::Resize { surface: we.surface, size: we.float_geo.size });
                }
            },
            None => {
                proof {
                    assert(self@ =~~= old(self)@);
                }
                return effects;
            },
        }
        let mut t: usize = 0;
        while t < TAGCOUNT
            invariant
                0 <= t <= TAGCOUNT,
                self.tags.len() == TAGCOUNT,
                old(self)@.tags.len() == TAGCOUNT,
                self@.windows == old(self)@.replaced(id, floating).windows,
                self.active_tag == old(self).active_tag,
                self.prev_tag == old(self).prev_tag,
                self.area == old(self).area,
                forall|k: int|
                    0 <= k < t ==> (#[trigger] self.tags[k])@ == old(self)@.replaced(id, floating).tags[k],
                forall|k: int| t <= k < TAGCOUNT ==> (#[trigger] self.tags[k])@ == old(self)@.tags[k],
            decreases TAGCOUNT - t,
        {
            if self.tags[t].contains(id) {
                self.tags[t].add(id, floating);
            }
            t += 1;
        }
        proof {
            old(self)@.lemma_replaced(id, floating);
            assert(self@.tags =~= old(self)@.replaced(id, floating).tags);
            assert(self@ =~~= old(self)@.replaced(id, floating));
            self@.lemma_laid_out();
        }
        let mut layout = self.recompute_layout();
        effects.append(&mut layout);
        effects
    }

    /// Changes the placement of the active window from tiled to floating
    /// or back.
    pub fn toggle_active_floating(&mut self) -> (effects: Vec<Effect>)
        requires
            old(self)@.wf(),
        ensures
            final(self)@ == old(self)@.float_toggled(),
            final(self)@.wf(),
            effects@ == old(self)@.float_toggle_effects(),
    {
        let id = match self.active_id() {
            Some(id) => id,
            None => {
                return Vec::new();
            },
        };
        proof {
            old(self)@.lemma_active_id();
        }
        let floating = !self.is_floating(id);
        self.set_floating(id, floating)
    }

    /// Makes `tag` the active tag and lays it out. Does nothing where
    /// `tag` is no tag.
    pub fn set_active_tag(&mut self, tag: usize) -> (effects: Vec<Effect>)
        requires
            old(self)@.wf(),
        ensures
            final(self)@ == old(self)@.viewing(tag as int),
            final(self)@.wf(),
            effects@ == (if tag < TAGCOUNT {
                final(self)@.resize_requests()
            } else {
                Seq::empty()
            }),
    {
        if tag >= TAGCOUNT {
            return Vec::new();
        }
        self.prev_tag = self.active_tag;
        self.active_tag = tag;
        proof {
            old(self)@.lemma_viewing(tag as int, old(self)@.active_tag);
            assert(self@.tags =~= old(self)@.tags);
            assert(self@ =~~= (MonitorView {
                prev_tag: old(self)@.active_tag,
                active_tag: tag as int,
                ..old(self)@
            }));
            self@.lemma_laid_out();
        }
        self.recompute_layout()
    }

    /// Makes the previous tag the active one, and the active one the
    /// previous, and lays the active tag out.
    pub fn toggle_prev_tag(&mut self) -> (effects: Vec<Effect>)
        requires
            old(self)@.wf(),
        ensures
            final(self)@ == old(self)@.viewing_previous(),
            final(self)@.wf(),
            effects@ == final(self)@.resize_requests(),
    {
        let active = self.active_tag;
        self.active_tag = self.prev_tag;
        self.prev_tag = active;
        proof {
            old(self)@.lemma_viewing(old(self)@.prev_tag, old(self)@.active_tag);
            assert(self@.tags =~= old(self)@.tags);
            assert(self@ =~~= (MonitorView {
                prev_tag: old(self)@.active_tag,
                active_tag: old(self)@.prev_tag,
                ..old(self)@
            }));
            self@.lemma_laid_out();
        }
        self.recompute_layout()
    }

    /// Moves the active window `delta` places along the ring of tiled
    /// windows and lays the active tag out. Does nothing where no window
    /// is active.
    pub fn move_in_stack(&mut self, delta: i32) -> (effects: Vec<Effect>)
        requires
            old(self)@.wf(),
        ensures
            final(self)@ == old(self)@.stack_moved(delta as int),
            final(self)@.wf(),
            effects@ == (if old(self)@.active_id() is Some {
                final(self)@.resize_requests()
            } else {
                Seq::empty()
            }),
    {
        let current = match self.active_id() {
            Some(id) => id,
            None => {
                return Vec::new();
            },
        };
        let active = self.active_tag;
        self.tags[active].move_in_stack(current, delta);
        proof {
            let tag = old(self)@.tag();
            assert(tag.wf());
            tag.lemma_moved(current, delta as int);
            old(self)@.lemma_with_tag(old(self)@.active_tag, tag.moved(current, delta as int));
            assert(self@.tags =~= old(self)@.with_tag(
                old(self)@.active_tag,
                tag.moved(current, delta as int),
            ).tags);
            assert(self@ =~~= old(self)@.with_tag(
                old(self)@.active_tag,
                tag.moved(current, delta as int),
            ));
            self@.lemma_laid_out();
        }
        self.recompute_layout()
    }

    /// Makes the active window the first tiled window and lays the active
    /// tag out. Does nothing where no window is active.
    pub fn zoom(&mut self) -> (effects: Vec<Effect>)
        requires
            old(self)@.wf(),
        ensures
            final(self)@ == old(self)@.zoomed(),
            final(self)@.wf(),
            effects@ == (if old(self)@.active_id() is Some {
                final(self)@.resize_requests()
            } else {
                Seq::empty()
            }),
    {
        let current = match self.active_id() {
            Some(id) => id,
            None => {
                return Vec::new();
            },
        };
        let active = self.active_tag;
        self.tags[active].zoom(current);
        proof {
            let tag = old(self)@.tag();
            assert(tag.wf());
            tag.lemma_zoomed(current);
            old(self)@.lemma_with_tag(old(self)@.active_tag, tag.zoomed(current));
            assert(self@.tags =~= old(self)@.with_tag(old(self)@.active_tag, tag.zoomed(current)).tags);
            assert(self@ =~~= old(self)@.with_tag(old(self)@.active_tag, tag.zoomed(current)));
            self@.lemma_laid_out();
        }
        self.recompute_layout()
    }

    /// Changes the master factor of the active tag by `delta` hundredths
    /// and lays the tag out.
    pub fn adjust_mfact(&mut self, delta: i32) -> (effects: Vec<Effect>)
        requires
            old(self)@.wf(),
        ensures
            final(self)@ == old(self)@.factor_stepped(delta as int),
            final(self)@.wf(),
            effects@ == final(self)@.resize_requests(),
    {
        let active = self.active_tag;
        self.tags[active].adjust_mfact(delta);
        proof {
            let tag = old(self)@.tag();
            assert(tag.wf());
            old(self)@.lemma_with_tag(old(self)@.active_tag, tag.with_factor_step(delta as int));
            assert(self@.tags =~= old(self)@.with_tag(
                old(self)@.active_tag,
                tag.with_factor_step(delta as int),
            ).tags);
            assert(self@ =~~= old(self)@.with_tag(
                old(self)@.active_tag,
                tag.with_factor_step(delta as int),
            ));
            self@.lemma_laid_out();
        }
        self.recompute_layout()
    }

    /// Changes the master count of the active tag by `delta` and lays the
    /// tag out.
    pub fn adjust_nmaster(&mut self, delta: i32) -> (effects: Vec<Effect>)
        requires
            old(self)@.wf(),
        ensures
            final(self)@ == old(self)@.masters_stepped(delta as int),
            final(self)@.wf(),
            effects@ == final(self)@.resize_requests(),
    {
        let active = self.active_tag;
        self.tags[active].adjust_nmaster(delta);
        proof {
            let tag = old(self)@.tag();
            assert(tag.wf());
            old(self)@.lemma_with_tag(old(self)@.active_tag, tag.with_master_step(delta as int));
            assert(self@.tags =~= old(self)@.with_tag(
                old(self)@.active_tag,
                tag.with_master_step(delta as int),
            ).tags);
            assert(self@ =~~= old(self)@.with_tag(
                old(self)@.active_tag,
                tag.with_master_step(delta as int),
            ));
            self@.lemma_laid_out();
        }
        self.recompute_layout()
    }

    /// Raises the floating window `id` above the other floating windows
    /// of the active tag.
    pub fn raise(&mut self, id: WindowId)
        requires
            old(self)@.wf(),
        ensures
            final(self)@ == old(self)@.raised(id),
            final(self)@.wf(),
    {
        let active = self.active_tag;
        self.tags[active].raise(id);
        proof {
            let tag = old(self)@.tag();
            assert(tag.wf());
            tag.lemma_raised(id);
            old(self)@.lemma_with_tag(old(self)@.active_tag, tag.raised(id));
            assert(self@.tags =~= old(self)@.raised(id).tags);
            assert(self@ =~~= old(self)@.raised(id));
        }
    }
}

/// Taking `id` out of a tag twice is taking it out once.
pub proof fn lemma_removed_twice(tag: TagView, id: WindowId)
    ensures
        tag.removed(id).removed(id) == tag.removed(id),
{
    crate::shell::list::lemma_without(tag.tiled, id);
    crate::shell::list::lemma_without(tag.floating, id);
    crate::shell::list::lemma_without(tag.focus_stack, id);
    crate::shell::list::lemma_without(tag.removed(id).tiled, id);
    crate::shell::list::lemma_without(tag.removed(id).floating, id);
    crate::shell::list::lemma_without(tag.removed(id).focus_stack, id);
}

} // verus!
