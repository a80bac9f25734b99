// Framebuffer tests: the coordinate-to-bit mapping under all four
// rotations, the buffer's pixel operations, and the input event types.

use ssd1680::framebuffer::{index_of, DisplayRotation, Framebuffer};
use ssd1680::input::{Button, ButtonEvent, DialDirection, DialEvent, InputEvent};
use ssd1680::{FRAME_BYTES, HEIGHT, WIDTH};

#[test]
fn index_of_native_orientation_corners() {
    assert_eq!(index_of(0, 0, DisplayRotation::Rotate0), (0, 0x80));
    assert_eq!(index_of(7, 0, DisplayRotation::Rotate0), (0, 0x01));
    assert_eq!(index_of(8, 0, DisplayRotation::Rotate0), (1, 0x80));
    assert_eq!(index_of(0, 1, DisplayRotation::Rotate0), (16, 0x80));
    assert_eq!(index_of(127, 295, DisplayRotation::Rotate0), (4735, 0x01));
}

#[test]
fn index_of_rotated_corners() {
    // Under a 90-degree rotation the caller draws in a 296 x 128 space.
    assert_eq!(index_of(0, 0, DisplayRotation::Rotate90), (15, 0x01));
    assert_eq!(index_of(295, 127, DisplayRotation::Rotate90), (4720, 0x80));
    assert_eq!(index_of(0, 0, DisplayRotation::Rotate180), (4735, 0x01));
    assert_eq!(index_of(127, 295, DisplayRotation::Rotate180), (0, 0x80));
    assert_eq!(index_of(0, 0, DisplayRotation::Rotate270), (4720, 0x80));
    assert_eq!(index_of(295, 127, DisplayRotation::Rotate270), (15, 0x01));
}

#[test]
fn index_of_in_bounds_over_full_space_all_rotations() {
    // Property check over the whole coordinate space for all four
    // rotations: offset in range, mask with exactly one bit set.
    let rotations = [
        DisplayRotation::Rotate0,
        DisplayRotation::Rotate90,
        DisplayRotation::Rotate180,
        DisplayRotation::Rotate270,
    ];
    for &rotation in &rotations {
        let (w, h) = match rotation {
            DisplayRotation::Rotate0 | DisplayRotation::Rotate180 => (WIDTH, HEIGHT),
            _ => (HEIGHT, WIDTH),
        };
        for y in 0..h {
            for x in 0..w {
                let (offset, mask) = index_of(x, y, rotation);
                assert!(offset < FRAME_BYTES);
                assert_eq!(mask.count_ones(), 1);
            }
        }
    }
}

#[test]
fn index_of_covers_every_bit_exactly_once_per_rotation() {
    // Each rotation is a bijection onto the panel's pixel positions.
    let rotations = [
        DisplayRotation::Rotate0,
        DisplayRotation::Rotate90,
        DisplayRotation::Rotate180,
        DisplayRotation::Rotate270,
    ];
    for &rotation in &rotations {
        let (w, h) = match rotation {
            DisplayRotation::Rotate0 | DisplayRotation::Rotate180 => (WIDTH, HEIGHT),
            _ => (HEIGHT, WIDTH),
        };
        let mut seen = vec![0u8; FRAME_BYTES];
        for y in 0..h {
            for x in 0..w {
                let (offset, mask) = index_of(x, y, rotation);
                assert_eq!(seen[offset] & mask, 0, "pixel mapped twice");
                seen[offset] |= mask;
            }
        }
        assert!(seen.iter().all(|&b| b == 0xFF), "some bit never mapped");
    }
}

#[test]
fn new_framebuffer_is_all_clear() {
    let fb = Framebuffer::new();
    assert_eq!(fb.buffer().len(), FRAME_BYTES);
    assert!(fb.buffer().iter().all(|&b| b == 0x00));
    assert_eq!(fb.rotation(), DisplayRotation::Rotate0);
}

#[test]
fn set_pixel_touches_exactly_one_bit() {
    let mut fb = Framebuffer::new();
    fb.set_pixel(9, 2, true);
    // (9, 2) in native orientation: byte 2 * 16 + 1, bit 1 from the MSB.
    assert_eq!(fb.buffer()[33], 0x40);
    assert_eq!(fb.buffer().iter().filter(|&&b| b != 0).count(), 1);
    assert!(fb.get_pixel(9, 2));
    assert!(!fb.get_pixel(10, 2));
    fb.set_pixel(9, 2, false);
    assert!(fb.buffer().iter().all(|&b| b == 0x00));
}

#[test]
fn set_pixel_respects_rotation() {
    let mut fb = Framebuffer::new();
    fb.set_rotation(DisplayRotation::Rotate270);
    assert_eq!(fb.rotation(), DisplayRotation::Rotate270);
    fb.set_pixel(0, 0, true);
    // (0, 0) under 270 degrees lands in the last row's first byte.
    assert_eq!(fb.buffer()[4720], 0x80);
    assert!(fb.get_pixel(0, 0));
}

#[test]
fn fill_sets_every_byte() {
    let mut fb = Framebuffer::new();
    fb.fill(0xFF);
    assert!(fb.buffer().iter().all(|&b| b == 0xFF));
    assert!(fb.get_pixel(0, 0));
    fb.fill(0x00);
    assert!(fb.buffer().iter().all(|&b| b == 0x00));
}

#[test]
fn input_events_wrap_into_unified_type() {
    let b = InputEvent::from(ButtonEvent::Pressed(Button::Menu));
    assert!(matches!(b, InputEvent::Button(ButtonEvent::Pressed(Button::Menu))));
    let d = InputEvent::from(DialEvent::Rotated(DialDirection::Clockwise));
    assert!(matches!(
        d,
        InputEvent::Dial(DialEvent::Rotated(DialDirection::Clockwise))
    ));
    let held: InputEvent = ButtonEvent::LongPress(Button::Confirm).into();
    assert!(matches!(
        held,
        InputEvent::Button(ButtonEvent::LongPress(Button::Confirm))
    ));
}

#[test]
fn button_identities() {
    assert_eq!(Button::Exit, Button::Exit);
    assert_ne!(Button::Up, Button::Down);
    assert_ne!(
        ssd1680::input::ButtonState::Pressed,
        ssd1680::input::ButtonState::Released
    );
}
