//! Fixed configuration of the manager: appearance, tags and layout defaults.

use vstd::prelude::*;

verus! {

/// Whether the window under the pointer takes focus.
pub const FOCUS_FOLLOWS_CURSOR: bool = true;

/// Width of a window border in logical pixels.
pub const BORDER_WIDTH: i32 = 2;

/// Whether a lone tiled window still gets margins and a border.
pub const SINGLE_BORDER: bool = false;

/// Free space between neighbouring windows, borders not counted.
pub const GAP: i32 = 0;

/// Margin between the usable area and the tiled windows.
pub const EDGE: i32 = GAP + BORDER_WIDTH;

/// Distance between two neighbouring tiled windows.
pub const INNER: i32 = GAP + 2 * BORDER_WIDTH;

/// Colours, as `0xRRGGBBAA`.
pub const BG_COLOR: u32 = 0x4444_44ff;

pub const ROOT_COLOR: u32 = 0x0000_00ff;

pub const BORDER_COLOR: u32 = 0x4444_44ff;

pub const FOCUS_COLOR: u32 = 0x4585_88ff;

pub const URGENT_COLOR: u32 = 0xff00_00ff;

/// Corner radius of a floating window.
pub const FLOATING_RADIUS: i32 = 12;

/// Corner radius of a tiled window.
pub const TILED_RADIUS: i32 = 0;

/// Twice the standard deviation of the shadow's blur.
pub const SHADOW_SOFTNESS: i32 = 25;

/// How far the shadow's box extends beyond the window on each side.
pub const SHADOW_SPREAD: i32 = 5;

/// Horizontal displacement of the shadow.
pub const SHADOW_OFFSET_X: i32 = 0;

/// Vertical displacement of the shadow.
pub const SHADOW_OFFSET_Y: i32 = 5;

pub const SHADOW_COLOR: u32 = 0x0000_0073;

/// Number of tags of a monitor.
pub const TAGCOUNT: usize = 9;

/// Share of the usable width that the master column takes, in hundredths.
pub const MASTER_FACTOR: u32 = 54;

/// Bounds of the master factor, in hundredths.
pub const MIN_MASTER_FACTOR: u32 = 10;

pub const MAX_MASTER_FACTOR: u32 = 90;

/// Number of windows in the master column.
pub const MASTER_COUNT: usize = 1;

/// Step by which a key press changes the master factor, in hundredths.
pub const RESIZE_STEP: i32 = 1;

/// Most windows that one monitor holds.
pub const MAX_WINDOWS: usize = 0x10_0000;

} // verus!
