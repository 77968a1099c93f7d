//! Interactive move and resize of a floating window.

use crate::geometry::{Point, Rect, Size, GEO_LIMIT};
use crate::shell::monitor::{Monitor, MonitorView};
use crate::shell::window::{Effect, WindowId};
use vstd::prelude::*;

verus! {

/// The least extent that a lower bound of `lo` allows: one pixel or more.
pub open spec fn floor_of(lo: int) -> int {
    if lo < 1 {
        1
    } else {
        lo
    }
}

/// The greatest extent that an upper bound of `hi` allows. Zero stands
/// for no bound.
pub open spec fn ceiling_of(hi: int) -> int {
    if hi == 0 {
        i32::MAX as int
    } else {
        hi
    }
}

/// The bounds leave an extent to choose.
pub open spec fn bounds_meet(lo: int, hi: int) -> bool {
    floor_of(lo) <= ceiling_of(hi)
}

/// `v` held between the least and the greatest extent that the bounds
/// allow.
pub open spec fn held(v: int, lo: int, hi: int) -> int {
    if v < floor_of(lo) {
        floor_of(lo)
    } else if v > ceiling_of(hi) {
        ceiling_of(hi)
    } else {
        v
    }
}

/// The extent of a window resized by `delta` from `initial`, held within
/// the bounds `min` and `max` of the window.
pub open spec fn resized(initial: Size, delta: Point, min: Size, max: Size) -> Size {
    Size {
        w: held(initial.w + delta.x, min.w as int, max.w as int) as i32,
        h: held(initial.h + delta.y, min.h as int, max.h as int) as i32,
    }
}

/// Whether the bounds `lo` and `hi` leave an extent to choose.
pub fn bounds_ok(lo: i32, hi: i32) -> (b: bool)
    ensures
        b == bounds_meet(lo as int, hi as int),
{
    let floor: i32 = if lo < 1 {
        1
    } else {
        lo
    };
    let ceiling: i32 = if hi == 0 {
        i32::MAX
    } else {
        hi
    };
    floor <= ceiling
}

/// `v` held between the least and the greatest extent that the bounds
/// allow.
pub fn constrain(v: i64, lo: i32, hi: i32) -> (r: i32)
    requires
        bounds_meet(lo as int, hi as int),
    ensures
        r == held(v as int, lo as int, hi as int),
{
    let floor: i32 = if lo < 1 {
        1
    } else {
        lo
    };
    let ceiling: i32 = if hi == 0 {
        i32::MAX
    } else {
        hi
    };
    if v < floor as i64 {
        floor
    } else if v > ceiling as i64 {
        ceiling
    } else {
        v as i32
    }
}

/// An interactive move of a floating window.
#[derive(Clone, Copy, Debug, PartialEq, Eq, Structural)]
pub struct MoveSurfaceGrab {
    pub window_id: WindowId,
    /// Where the window was when the move began.
    pub initial_location: Point,
}

impl MoveSurfaceGrab {
    /// Moves the window to `location`. Returns whether it was moved: the
    /// window must still be mapped, and the moved rectangle must lie
    /// within the limit for window rectangles.
    pub fn motion(&self, mon: &mut Monitor, location: Point) -> (moved: bool)
        requires
            old(mon)@.wf(),
        ensures
            final(mon)@.wf(),
            moved == (old(mon)@.windows.contains_key(self.window_id) && (Rect {
                loc: location,
                size: old(mon)@.windows[self.window_id].float_geo.size,
            }).within(GEO_LIMIT as int)),
            moved ==> final(mon)@ == old(mon)@.with_float_geo(
                self.window_id,
                Rect { loc: location, size: old(mon)@.windows[self.window_id].float_geo.size },
            ),
            !moved ==> final(mon)@ == old(mon)@,
    {
        let size = match mon.get(self.window_id) {
            Some(we) => we.float_geo.size,
            None => {
                return false;
            },
        };
        let geo = Rect { loc: location, size };
        if !geo.fits(GEO_LIMIT) {
            return false;
        }
        mon.set_float_geo(self.window_id, geo)
    }
}

/// An interactive resize of a floating window.
#[derive(Clone, Copy, Debug, PartialEq, Eq, Structural)]
pub struct ResizeSurfaceGrab {
    pub window_id: WindowId,
    /// The window's rectangle when the resize began.
    pub initial_rect: Rect,
}

impl ResizeSurfaceGrab {
    pub fn start(window_id: WindowId, initial_rect: Rect) -> (grab: ResizeSurfaceGrab)
        ensures
            grab == (ResizeSurfaceGrab { window_id, initial_rect }),
    {
        ResizeSurfaceGrab { window_id, initial_rect }
    }

    /// The rectangle of the window once the pointer has moved by `delta`.
    pub open spec fn target(self, mon: MonitorView, delta: Point, min: Size, max: Size) -> Rect {
        Rect {
            loc: mon.windows[self.window_id].float_geo.loc,
            size: resized(self.initial_rect.size, delta, min, max),
        }
    }

    /// Resizes the window as the pointer has moved by `delta` since the
    /// resize began, within the bounds `min` and `max` of the window.
    /// Returns the request that asks the window to take the new size, if
    /// it was resized: the window must still be mapped, and the resized
    /// rectangle must lie within the limit for window rectangles.
    pub fn motion(&self, mon: &mut Monitor, delta: Point, min: Size, max: Size) -> (effect: Option<
        Effect,
    >)
        requires
            old(mon)@.wf(),
            bounds_meet(min.w as int, max.w as int),
            bounds_meet(min.h as int, max.h as int),
        ensures
            final(mon)@.wf(),
            effect is Some == (old(mon)@.windows.contains_key(self.window_id) && self.target(
                old(mon)@,
                delta,
                min,
                max,
            ).within(GEO_LIMIT as int)),
            effect is Some ==> final(mon)@ == old(mon)@.with_float_geo(
                self.window_id,
                self.target(old(mon)@, delta, min, max),
            ) && effect == Some(
                Effect::Resize {
                    surface: old(mon)@.windows[self.window_id].surface,
                    size: resized(self.initial_rect.size, delta, min, max),
                },
            ),
            effect is None ==> final(mon)@ == old(mon)@,
    {
        let (loc, surface) = match mon.get(self.window_id) {
            Some(we) => (we.float_geo.loc, we.surface),
            None => {
                return None;
            },
        };
        let new_w: i64 = self.initial_rect.size.w as i64 + delta.x as i64;
        let new_h: i64 = self.initial_rect.size.h as i64 + delta.y as i64;
        let size = Size { w: constrain(new_w, min.w, max.w), h: constrain(new_h, min.h, max.h) };
        let geo = Rect { loc, size };
        if !geo.fits(GEO_LIMIT) {
            return None;
        }
        let _ = mon.set_float_geo(self.window_id, geo);
        Some(Effect::Resize { surface, size })
    }

    /// The request that ends the resize: the window is asked to take the
    /// size of its floating rectangle.
    pub fn release(&self, mon: &Monitor) -> (effect: Option<Effect>)
        ensures
            effect == (if mon@.windows.contains_key(self.window_id) {
                Some(
                    Effect::Resize {
                        surface: mon@.windows[self.window_id].surface,
                        size: mon@.windows[self.window_id].float_geo.size,
                    },
                )
            } else {
                None
            }),
    {
        match mon.get(self.window_id) {
            Some(we) => Some(Effect::Resize { surface: we.surface, size: we.float_geo.size }),
            None => None,
        }
    }
}

} // verus!
