//! Policy core of a tiling window manager: where windows live, how they are
//! arranged, which one holds focus, and how a frame is assembled from them.
//!
//! The core does no input or output. It is told of events in plain values
//! (a surface committed, a key action, a pointer press at a pixel) and
//! answers with its new state and with requests for the program around it:
//! resize this window, tell that one it is active, draw these elements.
//!
//! - [`geometry`]: integer points, sizes and rectangles.
//! - [`config`]: the fixed configuration.
//! - [`shell`]: window records and their registry, tags, the tiling
//!   layout, and the monitor that holds them together.
//! - [`render`]: the elements of a frame, the decoration of a window, and
//!   the damage and opaque region of a clipped surface.
//! - [`input`]: key and button bindings.
//! - [`grabs`]: interactive move and resize.
//! - [`state`]: waiting windows, focus routing, and the dispatch of
//!   actions.
//!
//! Lengths are whole logical pixels. The share of the master column is
//! counted in hundredths. Colours are `0xRRGGBBAA`.

pub mod config;
pub mod geometry;
pub mod grabs;
pub mod input;
pub mod render;
pub mod shell;
pub mod state;
