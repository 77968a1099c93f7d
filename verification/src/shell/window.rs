//! Window identifiers and the record kept for each mapped window.

use crate::geometry::{Rect, Size, GEO_LIMIT};
use vstd::prelude::*;

verus! {

/// Handle by which the embedding program names a window's surface tree.
pub type SurfaceId = u64;

/// Key of a mapped window: a slot of the registry together with the
/// generation in which the slot was handed out.
#[derive(Clone, Copy, Debug, PartialEq, Eq, Hash, Structural)]
pub struct WindowId {
    raw: u64,
}

impl WindowId {
    /// Every key carries a live generation, one whose lowest bit is set.
    #[verifier::type_invariant]
    pub closed spec fn live(self) -> bool {
        (self.raw / 0x1_0000_0000) % 2 == 1
    }

    /// The slot of the registry that the key names.
    pub closed spec fn slot(self) -> int {
        (self.raw % 0x1_0000_0000) as int
    }

    /// The 64 bits that stand for the key.
    pub closed spec fn bits(self) -> u64 {
        self.raw
    }

    /// The key as an opaque 64-bit number.
    pub fn as_raw(&self) -> (r: u64)
        ensures
            r == self.bits(),
    {
        self.raw
    }

    /// The key that `raw` stands for.
    pub(crate) fn from_raw(raw: u64) -> (id: WindowId)
        requires
            (raw / 0x1_0000_0000) % 2 == 1,
        ensures
            id.bits() == raw,
    {
        WindowId { raw }
    }
}

/// A request that the manager makes of the program around it.
#[derive(Clone, Copy, Debug, PartialEq, Eq, Structural)]
pub enum Effect {
    /// Ask the window to take this size.
    Resize { surface: SurfaceId, size: Size },
    /// Tell the window whether it is the active one.
    Activate { surface: SurfaceId, active: bool },
    /// Ask the window to close.
    Close { surface: SurfaceId },
}

/// What the manager knows of one mapped window.
#[derive(Clone, Copy, Debug, PartialEq, Eq, Structural)]
pub struct WindowElement {
    pub id: WindowId,
    pub surface: SurfaceId,
    pub tiled_geo: Rect,
    pub float_geo: Rect,
    pub floating: bool,
    pub focused: bool,
}

impl WindowElement {
    /// The rectangle that is in force: the floating one for a floating
    /// window, the tiled one otherwise.
    pub open spec fn active_geo(self) -> Rect {
        if self.floating {
            self.float_geo
        } else {
            self.tiled_geo
        }
    }

    pub fn geo(&self) -> (r: Rect)
        ensures
            r == self.active_geo(),
    {
        if self.floating {
            self.float_geo
        } else {
            self.tiled_geo
        }
    }

    /// The record of a window that has just been mapped.
    pub open spec fn fresh(
        id: WindowId,
        surface: SurfaceId,
        float_geo: Rect,
        floating: bool,
    ) -> WindowElement {
        WindowElement { id, surface, tiled_geo: Rect::origin(), float_geo, floating, focused: false }
    }

    /// The record carries its own key, and both its rectangles lie within
    /// the limit for window rectangles.
    pub open spec fn sound(self, id: WindowId) -> bool {
        &&& self.id == id
        &&& self.tiled_geo.within(GEO_LIMIT as int)
        &&& self.float_geo.within(GEO_LIMIT as int)
    }

    /// The record of a window that is mapped under the key `id`.
    pub(crate) fn new(id: WindowId, surface: SurfaceId, float_geo: Rect, floating: bool) -> (r:
        WindowElement)
        ensures
            r == WindowElement::fresh(id, surface, float_geo, floating),
    {
        WindowElement {
            id,
            surface,
            tiled_geo: Rect::zero(),
            float_geo,
            floating,
            focused: false,
        }
    }
}

} // verus!
