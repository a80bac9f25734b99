//! GPIO pin assignments of the board this panel ships on.
//!
//! Pure data for the host application: which pins carry the display bus,
//! the buttons and the auxiliary peripherals.  The library itself never
//! touches a pin; a port implementation outside the library does.

use vstd::prelude::*;

verus! {

/// Namespace for the board's pin numbers.
pub struct Pins;

impl Pins {
    // SPI display pins
    /// Chip select for the display's byte channel.
    pub const CS: u8 = 45;

    /// Data/command select line (high for data, low for command).
    pub const DC: u8 = 46;

    /// Display reset line.
    pub const RST: u8 = 47;

    /// Busy input (high while the controller is busy).
    pub const BSY: u8 = 48;

    /// Byte-channel clock.
    pub const SCK: u8 = 12;

    /// Byte-channel data out.
    pub const MOSI: u8 = 11;

    /// Byte-channel data in.
    pub const MISO: u8 = 10;

    // Button pins
    /// Exit button.
    pub const BTN_EXIT: u8 = 1;

    /// Menu button.
    pub const BTN_MENU: u8 = 2;

    /// Up button.
    pub const BTN_UP: u8 = 6;

    /// Down button.
    pub const BTN_DOWN: u8 = 4;

    /// Confirm button.
    pub const BTN_CONF: u8 = 5;

    /// Reset button.
    pub const BTN_RESET: u8 = 3;

    // Other pins
    /// Power LED indicator.
    pub const PIN_POWER_LED: u8 = 41;

    // TF card pins
    /// TF card chip select.
    pub const TFC_CS: u8 = 10;

    /// TF card data out.
    pub const TFC_MOSI: u8 = 40;

    /// TF card data in.
    pub const TFC_MISO: u8 = 13;

    /// TF card clock.
    pub const TFC_CLK: u8 = 39;
}

} // verus!
