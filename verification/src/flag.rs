//! Parameter bytes for the controller's commands.
//!
//! Pure data: the flag values the driver writes after its commands.  The
//! display-update option bytes are the empirically validated values for this
//! hardware family, not the datasheet defaults (see [`Flag::DISPLAY_UPDATE_FULL`]).

use vstd::prelude::*;

verus! {

/// Namespace for the controller's command parameter bytes.
pub struct Flag;

impl Flag {
    // Data Entry Mode (0x11)
    /// Y increment, X increment: the addressing mode for this panel.
    pub const DATA_ENTRY_INCRY_INCRX: u8 = 0x03;

    // Deep Sleep Mode (0x10)
    /// Leave deep sleep disabled (normal mode).
    pub const DEEP_SLEEP_NORMAL_MODE: u8 = 0x00;

    /// Enter deep sleep mode 1; only a hardware reset leaves it.
    pub const DEEP_SLEEP_MODE_1: u8 = 0x01;

    // Temperature Sensor Control (0x18)
    /// Use the internal temperature sensor.
    pub const INTERNAL_TEMP_SENSOR: u8 = 0x80;

    // Display Update Control 1 (0x21)
    /// Refresh from the black/white RAM plane only.
    pub const DISPLAY_UPDATE_BW_RAM: u8 = 0x01;

    // Display Update Control 2 (0x22) option bytes, one per refresh profile.
    /// Full-refresh option byte.  On this silicon revision the documented
    /// default (`0xC7`) leaves the panel blank; `0xF4` is the validated
    /// value — a hardware erratum, not a design choice.
    pub const DISPLAY_UPDATE_FULL: u8 = 0xF4;

    /// Fast-refresh option byte: temperature read, LUT load, clock off.
    pub const DISPLAY_UPDATE_FAST: u8 = 0xB1;

    /// Partial-refresh option byte.
    pub const DISPLAY_UPDATE_PARTIAL_1: u8 = 0x91;

    /// The closing activation byte of the fast-refresh sequence.
    pub const DISPLAY_UPDATE_PARTIAL_2: u8 = 0xC7;

    // Border Waveform Control (0x3C)
    /// Black border.
    pub const BORDER_WAVEFORM_BLACK: u8 = 0x00;

    /// White border.
    pub const BORDER_WAVEFORM_WHITE: u8 = 0x01;

    // Gate Driving Voltage Control (0x03)
    /// VGH = 15.0 V, this panel's validated gate voltage.
    pub const GATE_VOLTAGE_VGH_DEFAULT: u8 = 0x19;

    // Booster Soft Start Control (0x0C)
    /// Phase 1 soft-start default.
    pub const BOOSTER_SOFT_START_PHASE1_DEFAULT: u8 = 0x17;

    /// Phase 2 soft-start default.
    pub const BOOSTER_SOFT_START_PHASE2_DEFAULT: u8 = 0x17;

    /// Phase 3 soft-start default.
    pub const BOOSTER_SOFT_START_PHASE3_DEFAULT: u8 = 0x17;

    // VCOM register (0x2C)
    /// The validated VCOM register value for this panel.
    pub const VCOM_DEFAULT: u8 = 0x28;

    // RAM fill bytes
    /// All pixels of a byte clear.
    pub const FILL_ALL_CLEAR: u8 = 0x00;

    /// All pixels of a byte set.
    pub const FILL_ALL_SET: u8 = 0xFF;
}

} // verus!
