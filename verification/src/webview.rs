//! The data model of the browser-based map viewer.
//!
//! These are the plain values exchanged with the viewer; the socket and
//! serialization plumbing lives outside the library and converts to and
//! from these types.

use vstd::prelude::*;

verus! {

/// A message the viewer sends to the bot.
#[derive(Clone, Copy, Debug, PartialEq, Eq, Structural)]
pub enum IncomingMessage {
    Ready,
    Pause,
    Scroll { x: i32, y: i32 },
    Wheel { delta: i32, x: i32, y: i32 },
    Click { x: i32, y: i32 },
    Resize { width: i32, height: i32 },
}

/// The viewer's camera focus rectangle.
#[derive(Clone, Copy, Debug, PartialEq, Eq, Structural)]
pub struct Focus {
    pub x: i32,
    pub y: i32,
    pub width: i32,
    pub height: i32,
}

/// A two-dimensional integer size.
#[derive(Clone, Copy, Debug, PartialEq, Eq, Structural)]
pub struct Size2DI {
    pub x: i32,
    pub y: i32,
}

/// A raw bitmap from the game API: `bits_per_pixel` bits per cell, rows of
/// `size.x` cells, most significant bit first within a byte.
#[derive(Clone, Debug, PartialEq, Eq)]
pub struct ImageData {
    pub bits_per_pixel: i32,
    pub size: Size2DI,
    pub data: Vec<u8>,
}

/// The map grids the viewer renders.
#[derive(Clone, Debug, PartialEq, Eq)]
pub struct Grid {
    pub placement: ImageData,
    pub pathing: ImageData,
}

/// Everything the viewer needs for one rendered frame.
#[derive(Clone, Debug, PartialEq, Eq)]
pub struct RenderData {
    pub grid: Grid,
}

/// A message the bot sends to the viewer.
#[derive(Clone, Debug, PartialEq, Eq)]
pub enum OutgoingMessage {
    Focus { focus: Focus },
    Icons { path: String },
    Render { data: RenderData },
    Reset,
}

/// Wrap the two map grids of a snapshot into the render message sent to
/// the viewer.
pub fn render_message(placement: ImageData, pathing: ImageData) -> (m: OutgoingMessage)
    ensures
        m == (OutgoingMessage::Render {
            data: RenderData { grid: Grid { placement, pathing } },
        }),
{
    OutgoingMessage::Render { data: RenderData { grid: Grid { placement, pathing } } }
}

} // verus!
