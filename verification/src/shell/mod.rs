//! The window management core: window records and their registry, tags,
//! the tiling layout, and the monitor that holds them together.

pub mod layout;
pub mod list;
pub mod monitor;
pub mod registry;
pub mod tag;
pub mod window;

pub use layout::TilingLayout;
pub use monitor::{Monitor, MonitorView};
pub use tag::{Tag, TagView};
pub use window::{Effect, SurfaceId, WindowElement, WindowId};
