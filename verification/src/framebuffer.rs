//! The bit-packed framebuffer and its coordinate arithmetic.
//!
//! One bit per pixel, MSB first within a byte, row major in the panel's
//! native portrait orientation.  A rotation setting applies a pure
//! coordinate transform before the byte/bit computation, so a landscape
//! deployment needs no separate RAM-window arithmetic.  The byte layout is
//! the wire contract with the drawing collaborator: exactly
//! [`FRAME_BYTES`] bytes, transmitted verbatim by the driver.

use vstd::prelude::*;

use crate::transport::repeat_byte;
use crate::{BYTES_PER_ROW, FRAME_BYTES, HEIGHT, WIDTH};

verus! {

/// The four 90-degree-step rotations from native portrait orientation.
#[derive(Clone, Copy, Debug, PartialEq, Eq, Structural)]
pub enum DisplayRotation {
    /// Native orientation.
    Rotate0,
    /// Rotated 90 degrees clockwise.
    Rotate90,
    /// Rotated 180 degrees.
    Rotate180,
    /// Rotated 270 degrees clockwise.
    Rotate270,
}

/// Width of the coordinate space the caller draws in under a rotation.
pub open spec fn rotation_width(rotation: DisplayRotation) -> int {
    match rotation {
        DisplayRotation::Rotate0 | DisplayRotation::Rotate180 => WIDTH as int,
        DisplayRotation::Rotate90 | DisplayRotation::Rotate270 => HEIGHT as int,
    }
}

/// Height of the coordinate space the caller draws in under a rotation.
pub open spec fn rotation_height(rotation: DisplayRotation) -> int {
    match rotation {
        DisplayRotation::Rotate0 | DisplayRotation::Rotate180 => HEIGHT as int,
        DisplayRotation::Rotate90 | DisplayRotation::Rotate270 => WIDTH as int,
    }
}

/// A coordinate pair lies inside the rotated coordinate space.
pub open spec fn coords_valid(x: int, y: int, rotation: DisplayRotation) -> bool {
    0 <= x < rotation_width(rotation) && 0 <= y < rotation_height(rotation)
}

/// The native (portrait) column of a rotated coordinate pair.
pub open spec fn native_x(x: int, y: int, rotation: DisplayRotation) -> int {
    match rotation {
        DisplayRotation::Rotate0 => x,
        DisplayRotation::Rotate90 => WIDTH as int - 1 - y,
        DisplayRotation::Rotate180 => WIDTH as int - 1 - x,
        DisplayRotation::Rotate270 => y,
    }
}

/// The native (portrait) row of a rotated coordinate pair.
pub open spec fn native_y(x: int, y: int, rotation: DisplayRotation) -> int {
    match rotation {
        DisplayRotation::Rotate0 => y,
        DisplayRotation::Rotate90 => x,
        DisplayRotation::Rotate180 => HEIGHT as int - 1 - y,
        DisplayRotation::Rotate270 => HEIGHT as int - 1 - x,
    }
}

/// The framebuffer byte holding a pixel: row times row length plus the
/// byte within the row.
pub open spec fn byte_offset_of(x: int, y: int, rotation: DisplayRotation) -> int {
    native_y(x, y, rotation) * BYTES_PER_ROW as int + native_x(x, y, rotation) / 8
}

/// The single-bit mask of a pixel within its byte, MSB first.
pub open spec fn bit_mask_of(x: int, y: int, rotation: DisplayRotation) -> u8 {
    0x80u8 >> ((native_x(x, y, rotation) % 8) as u8)
}

/// Map a pixel coordinate under a rotation to its byte offset and bit
/// mask.  The offset is always inside the buffer and the mask always has
/// exactly one bit set; a caller that stays inside the rotated coordinate
/// space can never index out of range.
pub fn index_of(x: u16, y: u16, rotation: DisplayRotation) -> (r: (usize, u8))
    requires
        coords_valid(x as int, y as int, rotation),
    ensures
        r.0 == byte_offset_of(x as int, y as int, rotation),
        r.1 == bit_mask_of(x as int, y as int, rotation),
        r.0 < FRAME_BYTES,
        r.1 != 0,
        r.1 & (r.1 - 1) as u8 == 0,
{
    let nx: u16;
    let ny: u16;
    match rotation {
        DisplayRotation::Rotate0 => {
            nx = x;
            ny = y;
        },
        DisplayRotation::Rotate90 => {
            nx = WIDTH - 1 - y;
            ny = x;
        },
        DisplayRotation::Rotate180 => {
            nx = WIDTH - 1 - x;
            ny = HEIGHT - 1 - y;
        },
        DisplayRotation::Rotate270 => {
            nx = y;
            ny = HEIGHT - 1 - x;
        },
    }
    proof {
        assert(nx < 128 && ny < 296);
        assert(ny as int * BYTES_PER_ROW as int <= 295 * 16) by (nonlinear_arith)
            requires
                ny < 296,
        ;
    }
    let offset: usize = (ny as usize) * (BYTES_PER_ROW as usize) + (nx as usize) / 8;
    let shift: u8 = (nx % 8) as u8;
    let mask: u8 = 0x80u8 >> shift;
    proof {
        lemma_shifted_mask_single_bit(shift);
    }
    (offset, mask)
}

/// A mask `0x80 >> s` with `s < 8` is nonzero and has exactly one bit set.
proof fn lemma_shifted_mask_single_bit(s: u8)
    requires
        s < 8,
    ensures
        (0x80u8 >> s) != 0,
        (0x80u8 >> s) & ((0x80u8 >> s) - 1) as u8 == 0,
{
    assert((0x80u8 >> s) != 0 && (0x80u8 >> s) & ((0x80u8 >> s) - 1) as u8 == 0) by (bit_vector)
        requires
            s < 8,
    ;
}

/// For every coordinate pair valid under its rotation, the byte offset is
/// inside the buffer and the bit mask has exactly one bit set.
pub proof fn lemma_index_of_in_bounds(x: int, y: int, rotation: DisplayRotation)
    requires
        coords_valid(x, y, rotation),
    ensures
        0 <= byte_offset_of(x, y, rotation) < FRAME_BYTES,
        bit_mask_of(x, y, rotation) != 0,
        bit_mask_of(x, y, rotation) & (bit_mask_of(x, y, rotation) - 1) as u8 == 0,
{
    lemma_shifted_mask_single_bit((native_x(x, y, rotation) % 8) as u8);
}

/// The in-memory bit-packed pixel buffer: exactly [`FRAME_BYTES`] bytes,
/// plus the rotation its callers draw under.
pub struct Framebuffer {
    data: Vec<u8>,
    rotation: DisplayRotation,
}

impl Framebuffer {
    /// The buffer's bytes.
    pub closed spec fn data_spec(&self) -> Seq<u8> {
        self.data@
    }

    /// The active rotation.
    pub closed spec fn rotation_spec(&self) -> DisplayRotation {
        self.rotation
    }

    /// The length invariant: the byte sequence covers the panel exactly.
    pub open spec fn wf(&self) -> bool {
        self.data_spec().len() == FRAME_BYTES
    }

    /// An all-clear buffer in native orientation.
    pub fn new() -> (r: Framebuffer)
        ensures
            r.wf(),
            r.data_spec() == repeat_byte(0, FRAME_BYTES as nat),
            r.rotation_spec() == DisplayRotation::Rotate0,
    {
        let mut data: Vec<u8> = Vec::new();
        let mut i: usize = 0;
        while i < FRAME_BYTES
            invariant
                i <= FRAME_BYTES,
                data@ =~= repeat_byte(0, i as nat),
            decreases FRAME_BYTES - i,
        {
            data.push(0);
            i = i + 1;
            proof {
                assert(data@ =~= repeat_byte(0, i as nat));
            }
        }
        Framebuffer { data, rotation: DisplayRotation::Rotate0 }
    }

    /// Change the rotation; the bytes are untouched.
    pub fn set_rotation(&mut self, rotation: DisplayRotation)
        ensures
            final(self).rotation_spec() == rotation,
            final(self).data_spec() == old(self).data_spec(),
    {
        self.rotation = rotation;
    }

    /// The active rotation.
    pub fn rotation(&self) -> (r: DisplayRotation)
        ensures
            r == self.rotation_spec(),
    {
        self.rotation
    }

    /// Set or clear one pixel under the active rotation: exactly the bit
    /// of [`index_of`] changes, every other byte is untouched.
    pub fn set_pixel(&mut self, x: u16, y: u16, set: bool)
        requires
            old(self).wf(),
            coords_valid(x as int, y as int, old(self).rotation_spec()),
        ensures
            final(self).wf(),
            final(self).rotation_spec() == old(self).rotation_spec(),
            final(self).data_spec() == old(self).data_spec().update(
                byte_offset_of(x as int, y as int, old(self).rotation_spec()),
                (if set {
                    old(self).data_spec()[byte_offset_of(
                        x as int,
                        y as int,
                        old(self).rotation_spec(),
                    )] | bit_mask_of(x as int, y as int, old(self).rotation_spec())
                } else {
                    old(self).data_spec()[byte_offset_of(
                        x as int,
                        y as int,
                        old(self).rotation_spec(),
                    )] & !bit_mask_of(x as int, y as int, old(self).rotation_spec())
                }),
            ),
    {
        let (offset, mask) = index_of(x, y, self.rotation);
        let b: u8 = self.data[offset];
        let nb: u8 = if set {
            b | mask
        } else {
            b & !mask
        };
        self.data.set(offset, nb);
    }

    /// Read one pixel under the active rotation.
    pub fn get_pixel(&self, x: u16, y: u16) -> (r: bool)
        requires
            self.wf(),
            coords_valid(x as int, y as int, self.rotation_spec()),
        ensures
            r == (self.data_spec()[byte_offset_of(x as int, y as int, self.rotation_spec())]
                & bit_mask_of(x as int, y as int, self.rotation_spec()) != 0),
    {
        let (offset, mask) = index_of(x, y, self.rotation);
        self.data[offset] & mask != 0
    }

    /// Fill every byte of the buffer with one value.
    pub fn fill(&mut self, value: u8)
        requires
            old(self).wf(),
        ensures
            final(self).wf(),
            final(self).rotation_spec() == old(self).rotation_spec(),
            final(self).data_spec() == repeat_byte(value, FRAME_BYTES as nat),
    {
        let mut data: Vec<u8> = Vec::new();
        let mut i: usize = 0;
        while i < FRAME_BYTES
            invariant
                i <= FRAME_BYTES,
                data@ =~= repeat_byte(value, i as nat),
            decreases FRAME_BYTES - i,
        {
            data.push(value);
            i = i + 1;
            proof {
                assert(data@ =~= repeat_byte(value, i as nat));
            }
        }
        proof {
            assert(data@ =~= repeat_byte(value, FRAME_BYTES as nat));
        }
        self.data = data;
    }

    /// The byte buffer, in the exact layout the driver transmits.
    pub fn buffer(&self) -> (r: &Vec<u8>)
        ensures
            r@ == self.data_spec(),
    {
        &self.data
    }
}

} // verus!
