//! Driver core for an SSD1680-class monochrome e-paper controller
//! (128 x 296 panel) over a byte-oriented command/data bus.
//!
//! The crate is split into:
//! - [`transport`]: the bus-operation model, the error taxonomy and the
//!   [`transport::BusPort`] trait through which all physical bus access flows;
//! - [`interface`]: the framing layer that turns logical commands and data
//!   payloads into port operations and provides the bounded busy wait;
//! - [`driver`]: the controller state machine (initialization, RAM window
//!   programming, LUT loading, refresh profiles, sleep);
//! - [`framebuffer`]: the bit-packed pixel buffer and its coordinate
//!   arithmetic;
//! - [`cmd`], [`flag`], [`pins`]: the controller's fixed command and
//!   parameter vocabulary and the board's pin assignments;
//! - [`input`]: the event vocabulary produced by the button/dial collaborator.

pub mod cmd;
pub mod driver;
pub mod flag;
pub mod framebuffer;
pub mod input;
pub mod interface;
pub mod pins;
pub mod transport;

// The types of the [`transport::BusPort`] ghost view, re-exported under
// plain names so that a port implementation outside the library can spell
// out the view signatures (whose bodies are never run) without depending on
// the proof library directly.
pub use vstd::seq::Seq as ViewSeq;

use vstd::prelude::*;

verus! {

/// Display height in pixels (gate lines).
pub const HEIGHT: u16 = 296;

/// Display width in pixels; a multiple of 8 so that rows pack into bytes.
pub const WIDTH: u16 = 128;

/// Bytes per framebuffer row: one bit per pixel, eight pixels per byte.
pub const BYTES_PER_ROW: u16 = 16;

/// Total framebuffer length in bytes: `WIDTH / 8 * HEIGHT`.
pub const FRAME_BYTES: usize = 4736;

/// The framebuffer geometry invariant: row length and total length agree
/// with the panel's pixel dimensions.
pub proof fn lemma_geometry()
    ensures
        BYTES_PER_ROW == WIDTH / 8,
        FRAME_BYTES == WIDTH as int / 8 * HEIGHT as int,
{
}

} // verus!
