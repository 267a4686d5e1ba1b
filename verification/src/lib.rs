//! Base-site placement engine for a real-time-strategy bot.
//!
//! The engine looks at the resource deposits visible on a map, groups them
//! into spatially coherent fields, and works out where a colony structure
//! should be placed for each field: it derives a keep-out zone around every
//! deposit, searches the grid-aligned candidate centers near the field for
//! the one with the smallest mean distance to the deposits, and finally
//! checks whether an already-built structure occupies the chosen spot.
//!
//! All coordinates are fixed-point integers (tenths of a world unit), so the
//! whole computation is exact and deterministic.

pub mod geometry;
pub mod math;
pub mod entity;
pub mod base;
pub mod color;
pub mod player;
pub mod webview;
pub mod grid;
pub mod version;
