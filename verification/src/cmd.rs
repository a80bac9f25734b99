//! Command opcodes of the SSD1680-class controller.
//!
//! Pure data: the fixed one-byte command vocabulary, named after the
//! datasheet's register descriptions.  Only the commands the driver issues
//! are listed.

use vstd::prelude::*;

verus! {

/// Namespace for the controller's command opcodes.
pub struct Cmd;

impl Cmd {
    /// Driver Output Control: gate-line count and scan order.
    pub const DRIVER_CONTROL: u8 = 0x01;

    /// Gate Driving Voltage Control.
    pub const GATE_VOLTAGE_CONTROL: u8 = 0x03;

    /// Source Driving Voltage Control.
    pub const SOURCE_VOLTAGE_CONTROL: u8 = 0x04;

    /// Booster Soft Start Control.
    pub const BOOST_SOFT_START_CONTROL: u8 = 0x0C;

    /// Deep Sleep Mode: parameter 1 enters deep sleep, leaving it takes a
    /// hardware reset.
    pub const DEEP_SLEEP_MODE: u8 = 0x10;

    /// Data Entry Mode Setting: RAM address auto-increment directions.
    pub const DATA_ENTRY_MODE: u8 = 0x11;

    /// Software Reset: resets commands and parameters to their defaults,
    /// RAM and Deep Sleep Mode excepted.
    pub const SW_RESET: u8 = 0x12;

    /// Temperature Sensor Control: selects the sensor source.
    pub const TEMP_CONTROL: u8 = 0x18;

    /// Write to the temperature register (two parameter bytes).
    pub const TEMP_CONTROL_WRITE: u8 = 0x1A;

    /// Master Activation: runs the update sequence configured by
    /// Display Update Control 2; the busy line is asserted meanwhile.
    pub const MASTER_ACTIVATE: u8 = 0x20;

    /// Display Update Control 1: which RAM planes the refresh reads.
    pub const DISPLAY_UPDATE_CTRL1: u8 = 0x21;

    /// Display Update Control 2: the update-sequence option byte.
    pub const DISPLAY_UPDATE_CTRL2: u8 = 0x22;

    /// Write RAM (black/white plane).
    pub const WRITE_BW_DATA: u8 = 0x24;

    /// Write RAM (red plane).
    pub const WRITE_RED_DATA: u8 = 0x26;

    /// Write VCOM Register.
    pub const WRITE_VCOM_REGISTER: u8 = 0x2C;

    /// Write LUT Register: the 70-byte waveform table.
    pub const WRITE_LUT_REGISTER: u8 = 0x32;

    /// Border Waveform Control.
    pub const BORDER_WAVEFORM_CONTROL: u8 = 0x3C;

    /// Set RAM X address start/end positions (byte units).
    pub const SET_RAMX_START_END: u8 = 0x44;

    /// Set RAM Y address start/end positions (pixel units, little endian).
    pub const SET_RAMY_START_END: u8 = 0x45;

    /// Set RAM X address counter.
    pub const SET_RAMX_COUNTER: u8 = 0x4E;

    /// Set RAM Y address counter (little endian).
    pub const SET_RAMY_COUNTER: u8 = 0x4F;

    /// No Operation: terminates a frame-memory write.
    pub const NOP: u8 = 0xE3;
}

} // verus!
