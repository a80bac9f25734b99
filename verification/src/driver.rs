//! The controller driver: the documented (and empirically corrected)
//! protocol of the SSD1680-class panel as one parameterized state machine.
//!
//! Every public operation's contract pins the exact [`BusOp`] event stream
//! the operation appends on success — commands, data bytes, resets, and the
//! busy-wait runs between them, whose lengths alone are left to the device —
//! the error it returns on each failure, and the lifecycle state of the
//! device afterwards.  On failure, the writes that reached the panel are a
//! prefix of the intended sequence: nothing is emitted after the failing
//! step.  The expected sequences are themselves spec functions
//! ([`init_ops`], [`update_ops`], [`clear_ops`], ...), so a recording port
//! can be checked against them byte for byte.

use vstd::prelude::*;

use crate::cmd::Cmd;
use crate::flag::Flag;
use crate::interface::DisplayInterface;
use crate::transport::{aborted_writes, cmd_data_ops, cmd_ops, data_ops, repeat_byte};
use crate::transport::{data_payload, lemma_payload_round_trip};
use crate::transport::{idle_wait_ops, poll_free, poll_ops, stream_prefix_of, wait_in_bound};
use crate::transport::{
    lemma_aborted_after_writes, lemma_aborted_extend, lemma_aborted_none, lemma_aborted_widen,
};
use crate::transport::{lemma_all_polls_waits, lemma_poll_free_add, lemma_poll_free_cmd_data_ops};
use crate::transport::{
    lemma_stream_prefix_aborted, lemma_stream_prefix_compose, lemma_stream_prefix_widen,
};
use crate::transport::{lemma_writes_of_add, lemma_writes_of_poll_free, lemma_writes_of_polls};
use crate::transport::{lemma_writes_through, writes_of};
use crate::transport::{BusOp, BusPort, DriverError, MAX_BUSY_POLLS};
use crate::{FRAME_BYTES, HEIGHT, WIDTH};

verus! {

/// Lifecycle state of the controller.
///
/// Created `Uninitialized`; `Idle` once the initialization sequence has
/// completed and the busy wait cleared; `Busy` only transiently, while a
/// command that starts a controller-internal operation is being waited on
/// (the driver is synchronous, so `Busy` is never observed between calls);
/// `Sleeping` after deep sleep, which only a hardware reset followed by a
/// full re-initialization leaves.
#[derive(Clone, Copy, Debug, PartialEq, Eq, Structural)]
pub enum DeviceState {
    /// No initialization sequence has completed since power-up or reset.
    Uninitialized,
    /// Ready for commands.
    Idle,
    /// A controller-internal operation is in progress.
    Busy,
    /// In deep sleep; every command but reset-and-reinit is rejected.
    Sleeping,
}

/// The three refresh profiles, chosen per call and not persisted.
#[derive(Clone, Copy, Debug, PartialEq, Eq, Structural)]
pub enum RefreshProfile {
    /// Highest quality, slowest; the default waveform.
    Full,
    /// Quicker refresh with more ghosting; the three-activation sequence
    /// with a temperature override.
    Fast,
    /// Partial-update activation.
    Partial,
}

/// An error is a hardware condition (bus failure or bounded-wait timeout),
/// as opposed to a state-machine rejection.
pub open spec fn hw_failure(e: DriverError) -> bool {
    e == DriverError::BusError || e == DriverError::Timeout
}

/// The Display-Update-Control-2 option byte of each profile.  The full
/// profile's byte is the erratum-corrected `0xF4`, not the datasheet
/// default: the mapping is a fixed lookup, never derived.
pub open spec fn profile_option_byte(p: RefreshProfile) -> u8 {
    match p {
        RefreshProfile::Full => Flag::DISPLAY_UPDATE_FULL,
        RefreshProfile::Fast => Flag::DISPLAY_UPDATE_FAST,
        RefreshProfile::Partial => Flag::DISPLAY_UPDATE_PARTIAL_1,
    }
}

/// The write events of one activation: the update-control-2 option byte,
/// then master activation.
pub open spec fn activation_ops(option_byte: u8) -> Seq<BusOp> {
    cmd_data_ops(Cmd::DISPLAY_UPDATE_CTRL2, seq![option_byte]) + cmd_ops(Cmd::MASTER_ACTIVATE)
}

/// One activation followed by its completed busy wait of `n` polls.
pub open spec fn activation_waited_ops(option_byte: u8, n: nat) -> Seq<BusOp> {
    activation_ops(option_byte) + idle_wait_ops(n)
}

/// The write events of `update(profile)`: a single activation for the full
/// and partial profiles; for the fast profile, three activations with the
/// temperature override written between the first and the second.
pub open spec fn update_ops(p: RefreshProfile) -> Seq<BusOp> {
    match p {
        RefreshProfile::Fast => activation_ops(Flag::DISPLAY_UPDATE_FAST) + cmd_data_ops(
            Cmd::TEMP_CONTROL_WRITE,
            seq![0x64u8, 0x00u8],
        ) + activation_ops(Flag::DISPLAY_UPDATE_PARTIAL_1) + activation_ops(
            Flag::DISPLAY_UPDATE_PARTIAL_2,
        ),
        _ => activation_ops(profile_option_byte(p)),
    }
}

/// The full event stream of `update(profile)`: each activation is followed
/// by its own completed busy wait before anything further is emitted.  The
/// second and third wait lengths matter only for the fast profile.
pub open spec fn update_waited_ops(p: RefreshProfile, n1: nat, n2: nat, n3: nat) -> Seq<BusOp> {
    match p {
        RefreshProfile::Fast => activation_waited_ops(Flag::DISPLAY_UPDATE_FAST, n1)
            + cmd_data_ops(Cmd::TEMP_CONTROL_WRITE, seq![0x64u8, 0x00u8]) + activation_waited_ops(
            Flag::DISPLAY_UPDATE_PARTIAL_1,
            n2,
        ) + activation_waited_ops(Flag::DISPLAY_UPDATE_PARTIAL_2, n3),
        _ => activation_waited_ops(profile_option_byte(p), n1),
    }
}

/// RAM window programming for the given pixel rectangle: X start/end in
/// byte units, Y start/end in pixel units, little endian.
pub open spec fn ram_area_ops(start_x: u16, start_y: u16, end_x: u16, end_y: u16) -> Seq<BusOp> {
    cmd_data_ops(Cmd::SET_RAMX_START_END, seq![(start_x / 8) as u8, (end_x / 8) as u8])
        + cmd_data_ops(
        Cmd::SET_RAMY_START_END,
        seq![
            (start_y % 256) as u8,
            (start_y / 256) as u8,
            (end_y % 256) as u8,
            (end_y / 256) as u8,
        ],
    )
}

/// RAM counter programming: X in byte units, Y in pixel units.
pub open spec fn ram_counter_ops(x: u16, y: u16) -> Seq<BusOp> {
    cmd_data_ops(Cmd::SET_RAMX_COUNTER, seq![(x / 8) as u8]) + cmd_data_ops(
        Cmd::SET_RAMY_COUNTER,
        seq![(y % 256) as u8, (y / 256) as u8],
    )
}

/// Window over the whole panel and counter at its origin: performed before
/// every full-frame RAM write, idempotent against a prior partial window.
pub open spec fn full_frame_ops() -> Seq<BusOp> {
    ram_area_ops(0, 0, (WIDTH - 1) as u16, (HEIGHT - 1) as u16) + ram_counter_ops(0, 0)
}

/// A full-frame write into the black/white RAM plane.
pub open spec fn frame_write_ops(frame: Seq<u8>) -> Seq<BusOp> {
    cmd_data_ops(Cmd::WRITE_BW_DATA, frame)
}

/// The write path of a frame: full-panel window and counter, then the
/// frame's bytes into the black/white plane.
pub open spec fn frame_path_ops(frame: Seq<u8>) -> Seq<BusOp> {
    full_frame_ops() + frame_write_ops(frame)
}

/// The two waveform tables the driver can load; one is active at a time,
/// held by the controller itself once sent.
#[derive(Clone, Copy, Debug, PartialEq, Eq, Structural)]
pub enum LutTable {
    /// The full-update waveform: slow, highest quality.
    FullUpdate,
    /// The fast-update waveform: quick, more ghosting.
    FastUpdate,
}

/// The bytes of a waveform table.
pub open spec fn lut_table_spec(table: LutTable) -> Seq<u8> {
    match table {
        LutTable::FullUpdate => lut_full_spec(),
        LutTable::FastUpdate => lut_fast_spec(),
    }
}

/// The 70-byte fast-update waveform table.
pub open spec fn lut_fast_spec() -> Seq<u8> {
    seq![
        0x40u8, 0x00, 0x00, 0x00, 0x00, 0x00, 0x00,
        0x80, 0x00, 0x00, 0x00, 0x00, 0x00, 0x00,
        0x40, 0x00, 0x00, 0x00, 0x00, 0x00, 0x00,
        0x80, 0x00, 0x00, 0x00, 0x00, 0x00, 0x00,
        0x00, 0x00, 0x00, 0x00, 0x00, 0x00, 0x00,
        0x0A, 0x00, 0x00, 0x00, 0x00,
        0x00, 0x00, 0x00, 0x00, 0x00,
        0x00, 0x00, 0x00, 0x00, 0x00,
        0x00, 0x00, 0x00, 0x00, 0x00,
        0x00, 0x00, 0x00, 0x00, 0x00,
        0x00, 0x00, 0x00, 0x00, 0x00,
        0x00, 0x00, 0x00, 0x00, 0x00,
    ]
}

/// The 70-byte full-update waveform table.
pub open spec fn lut_full_spec() -> Seq<u8> {
    seq![
        0x02u8, 0x02, 0x01, 0x11, 0x12, 0x12, 0x22,
        0x22, 0x22, 0x22, 0x22, 0x22, 0x22, 0x22,
        0x00, 0x00, 0x00, 0x00, 0x00, 0x00, 0x00,
        0x00, 0x00, 0x00, 0x00, 0x00, 0x00, 0x00,
        0x00, 0x00, 0x00, 0x00, 0x00, 0x00, 0x00,
        0x04, 0x14, 0x0A, 0x14, 0x01,
        0x00, 0x00, 0x00, 0x00, 0x00,
        0x00, 0x00, 0x00, 0x00, 0x00,
        0x00, 0x00, 0x00, 0x00, 0x00,
        0x00, 0x00, 0x00, 0x00, 0x00,
        0x00, 0x00, 0x00, 0x00, 0x00,
        0x00, 0x00, 0x00, 0x00, 0x00,
    ]
}

/// The configuration writes of initialization, after the software reset's
/// busy wait: driver output control, data entry mode, full-panel RAM window
/// and counter, border waveform, temperature sensor, booster soft start,
/// gate and source voltages, VCOM, and the full-update waveform table.
pub open spec fn init_config_ops() -> Seq<BusOp> {
    cmd_data_ops(Cmd::DRIVER_CONTROL, seq![0x27u8, 0x01u8, 0x00u8]) + cmd_data_ops(
        Cmd::DATA_ENTRY_MODE,
        seq![Flag::DATA_ENTRY_INCRY_INCRX],
    ) + full_frame_ops() + cmd_data_ops(
        Cmd::BORDER_WAVEFORM_CONTROL,
        seq![Flag::BORDER_WAVEFORM_WHITE],
    ) + cmd_data_ops(Cmd::TEMP_CONTROL, seq![Flag::INTERNAL_TEMP_SENSOR]) + cmd_data_ops(
        Cmd::BOOST_SOFT_START_CONTROL,
        seq![
            Flag::BOOSTER_SOFT_START_PHASE1_DEFAULT,
            Flag::BOOSTER_SOFT_START_PHASE2_DEFAULT,
            Flag::BOOSTER_SOFT_START_PHASE3_DEFAULT,
        ],
    ) + cmd_data_ops(Cmd::GATE_VOLTAGE_CONTROL, seq![Flag::GATE_VOLTAGE_VGH_DEFAULT])
        + cmd_data_ops(Cmd::SOURCE_VOLTAGE_CONTROL, seq![0x02u8, 0x0Cu8, 0x0Cu8]) + cmd_data_ops(
        Cmd::WRITE_VCOM_REGISTER,
        seq![Flag::VCOM_DEFAULT],
    ) + cmd_data_ops(Cmd::WRITE_LUT_REGISTER, lut_full_spec())
}

/// The write events of the full initialization sequence, in order: hardware
/// reset, software reset, then the configuration writes.
pub open spec fn init_ops() -> Seq<BusOp> {
    seq![BusOp::Reset] + cmd_ops(Cmd::SW_RESET) + init_config_ops()
}

/// The full event stream of a successful initialization: a busy wait
/// follows the software reset, and another closes the sequence after the
/// waveform table is loaded.
pub open spec fn init_waited_ops(n1: nat, n2: nat) -> Seq<BusOp> {
    seq![BusOp::Reset] + cmd_ops(Cmd::SW_RESET) + idle_wait_ops(n1) + init_config_ops()
        + idle_wait_ops(n2)
}

/// The write events of `clear_frame(value)`: full-frame window, the fill
/// value written over the whole black/white plane, then a full refresh.
pub open spec fn clear_ops(value: u8) -> Seq<BusOp> {
    write_update_ops(repeat_byte(value, FRAME_BYTES as nat), RefreshProfile::Full)
}

/// The full event stream of a successful `clear_frame(value)`: the write
/// path, the full-refresh activation, and its completed busy wait.
pub open spec fn clear_waited_ops(value: u8, n: nat) -> Seq<BusOp> {
    frame_path_ops(repeat_byte(value, FRAME_BYTES as nat)) + activation_waited_ops(
        Flag::DISPLAY_UPDATE_FULL,
        n,
    )
}

/// The write events of `write_and_update(frame, profile)`.
pub open spec fn write_update_ops(frame: Seq<u8>, p: RefreshProfile) -> Seq<BusOp> {
    frame_path_ops(frame) + update_ops(p)
}

/// The full event stream of a successful `write_and_update(frame, profile)`.
pub open spec fn write_update_waited_ops(
    frame: Seq<u8>,
    p: RefreshProfile,
    n1: nat,
    n2: nat,
    n3: nat,
) -> Seq<BusOp> {
    frame_path_ops(frame) + update_waited_ops(p, n1, n2, n3)
}

/// A byte sequence with every bit flipped.
pub open spec fn inverted(s: Seq<u8>) -> Seq<u8> {
    s.map_values(|b: u8| !b)
}

/// The full-update waveform table as a byte vector.
fn lut_full_update() -> (r: Vec<u8>)
    ensures
        r@ == lut_full_spec(),
{
    let r: Vec<u8> = vec![
        0x02u8, 0x02, 0x01, 0x11, 0x12, 0x12, 0x22,
        0x22, 0x22, 0x22, 0x22, 0x22, 0x22, 0x22,
        0x00, 0x00, 0x00, 0x00, 0x00, 0x00, 0x00,
        0x00, 0x00, 0x00, 0x00, 0x00, 0x00, 0x00,
        0x00, 0x00, 0x00, 0x00, 0x00, 0x00, 0x00,
        0x04, 0x14, 0x0A, 0x14, 0x01,
        0x00, 0x00, 0x00, 0x00, 0x00,
        0x00, 0x00, 0x00, 0x00, 0x00,
        0x00, 0x00, 0x00, 0x00, 0x00,
        0x00, 0x00, 0x00, 0x00, 0x00,
        0x00, 0x00, 0x00, 0x00, 0x00,
        0x00, 0x00, 0x00, 0x00, 0x00,
    ];
    proof {
        assert(r@ =~= lut_full_spec());
    }
    r
}

/// The fast-update waveform table as a byte vector.
fn lut_fast_update() -> (r: Vec<u8>)
    ensures
        r@ == lut_fast_spec(),
{
    let r: Vec<u8> = vec![
        0x40u8, 0x00, 0x00, 0x00, 0x00, 0x00, 0x00,
        0x80, 0x00, 0x00, 0x00, 0x00, 0x00, 0x00,
        0x40, 0x00, 0x00, 0x00, 0x00, 0x00, 0x00,
        0x80, 0x00, 0x00, 0x00, 0x00, 0x00, 0x00,
        0x00, 0x00, 0x00, 0x00, 0x00, 0x00, 0x00,
        0x0A, 0x00, 0x00, 0x00, 0x00,
        0x00, 0x00, 0x00, 0x00, 0x00,
        0x00, 0x00, 0x00, 0x00, 0x00,
        0x00, 0x00, 0x00, 0x00, 0x00,
        0x00, 0x00, 0x00, 0x00, 0x00,
        0x00, 0x00, 0x00, 0x00, 0x00,
        0x00, 0x00, 0x00, 0x00, 0x00,
    ];
    proof {
        assert(r@ =~= lut_fast_spec());
    }
    r
}

/// An activation sequence contains no polls.
proof fn lemma_poll_free_activation(option_byte: u8)
    ensures
        poll_free(activation_ops(option_byte)),
{
    lemma_poll_free_cmd_data_ops(Cmd::DISPLAY_UPDATE_CTRL2, seq![option_byte]);
    lemma_poll_free_cmd_data_ops(Cmd::MASTER_ACTIVATE, Seq::empty());
    lemma_poll_free_add(
        cmd_data_ops(Cmd::DISPLAY_UPDATE_CTRL2, seq![option_byte]),
        cmd_ops(Cmd::MASTER_ACTIVATE),
    );
}

/// An update's write sequence contains no polls.
proof fn lemma_poll_free_update(p: RefreshProfile)
    ensures
        poll_free(update_ops(p)),
{
    lemma_poll_free_activation(Flag::DISPLAY_UPDATE_FAST);
    lemma_poll_free_activation(Flag::DISPLAY_UPDATE_PARTIAL_1);
    lemma_poll_free_activation(Flag::DISPLAY_UPDATE_PARTIAL_2);
    lemma_poll_free_activation(profile_option_byte(p));
    lemma_poll_free_cmd_data_ops(Cmd::TEMP_CONTROL_WRITE, seq![0x64u8, 0x00u8]);
    lemma_poll_free_add(
        activation_ops(Flag::DISPLAY_UPDATE_FAST),
        cmd_data_ops(Cmd::TEMP_CONTROL_WRITE, seq![0x64u8, 0x00u8]),
    );
    lemma_poll_free_add(
        activation_ops(Flag::DISPLAY_UPDATE_FAST) + cmd_data_ops(
            Cmd::TEMP_CONTROL_WRITE,
            seq![0x64u8, 0x00u8],
        ),
        activation_ops(Flag::DISPLAY_UPDATE_PARTIAL_1),
    );
    lemma_poll_free_add(
        activation_ops(Flag::DISPLAY_UPDATE_FAST) + cmd_data_ops(
            Cmd::TEMP_CONTROL_WRITE,
            seq![0x64u8, 0x00u8],
        ) + activation_ops(Flag::DISPLAY_UPDATE_PARTIAL_1),
        activation_ops(Flag::DISPLAY_UPDATE_PARTIAL_2),
    );
}

/// A RAM window programming sequence contains no polls.
proof fn lemma_poll_free_ram_area(start_x: u16, start_y: u16, end_x: u16, end_y: u16)
    ensures
        poll_free(ram_area_ops(start_x, start_y, end_x, end_y)),
{
    lemma_poll_free_cmd_data_ops(
        Cmd::SET_RAMX_START_END,
        seq![(start_x / 8) as u8, (end_x / 8) as u8],
    );
    lemma_poll_free_cmd_data_ops(
        Cmd::SET_RAMY_START_END,
        seq![
            (start_y % 256) as u8,
            (start_y / 256) as u8,
            (end_y % 256) as u8,
            (end_y / 256) as u8,
        ],
    );
    lemma_poll_free_add(
        cmd_data_ops(Cmd::SET_RAMX_START_END, seq![(start_x / 8) as u8, (end_x / 8) as u8]),
        cmd_data_ops(
            Cmd::SET_RAMY_START_END,
            seq![
                (start_y % 256) as u8,
                (start_y / 256) as u8,
                (end_y % 256) as u8,
                (end_y / 256) as u8,
            ],
        ),
    );
}

/// A RAM counter programming sequence contains no polls.
proof fn lemma_poll_free_ram_counter(x: u16, y: u16)
    ensures
        poll_free(ram_counter_ops(x, y)),
{
    lemma_poll_free_cmd_data_ops(Cmd::SET_RAMX_COUNTER, seq![(x / 8) as u8]);
    lemma_poll_free_cmd_data_ops(Cmd::SET_RAMY_COUNTER, seq![(y % 256) as u8, (y / 256) as u8]);
    lemma_poll_free_add(
        cmd_data_ops(Cmd::SET_RAMX_COUNTER, seq![(x / 8) as u8]),
        cmd_data_ops(Cmd::SET_RAMY_COUNTER, seq![(y % 256) as u8, (y / 256) as u8]),
    );
}

/// The frame write path contains no polls.
proof fn lemma_poll_free_frame_path(frame: Seq<u8>)
    ensures
        poll_free(full_frame_ops()),
        poll_free(frame_write_ops(frame)),
        poll_free(frame_path_ops(frame)),
{
    lemma_poll_free_ram_area(0, 0, (WIDTH - 1) as u16, (HEIGHT - 1) as u16);
    lemma_poll_free_ram_counter(0, 0);
    lemma_poll_free_add(
        ram_area_ops(0, 0, (WIDTH - 1) as u16, (HEIGHT - 1) as u16),
        ram_counter_ops(0, 0),
    );
    lemma_poll_free_cmd_data_ops(Cmd::WRITE_BW_DATA, frame);
    lemma_poll_free_add(full_frame_ops(), frame_write_ops(frame));
}

/// The write-and-update sequence contains no polls.
proof fn lemma_poll_free_write_update(frame: Seq<u8>, p: RefreshProfile)
    ensures
        poll_free(full_frame_ops()),
        poll_free(frame_write_ops(frame)),
        poll_free(frame_path_ops(frame)),
        poll_free(update_ops(p)),
        poll_free(write_update_ops(frame, p)),
{
    lemma_poll_free_frame_path(frame);
    lemma_poll_free_update(p);
    lemma_poll_free_add(frame_path_ops(frame), update_ops(p));
}

/// The initialization write sequence contains no polls.
proof fn lemma_poll_free_init()
    ensures
        poll_free(init_config_ops()),
        poll_free(init_ops()),
        poll_free(seq![BusOp::Reset] + cmd_ops(Cmd::SW_RESET)),
{
    lemma_poll_free_cmd_data_ops(Cmd::DRIVER_CONTROL, seq![0x27u8, 0x01u8, 0x00u8]);
    lemma_poll_free_cmd_data_ops(Cmd::DATA_ENTRY_MODE, seq![Flag::DATA_ENTRY_INCRY_INCRX]);
    lemma_poll_free_frame_path(Seq::empty());
    lemma_poll_free_cmd_data_ops(Cmd::BORDER_WAVEFORM_CONTROL, seq![Flag::BORDER_WAVEFORM_WHITE]);
    lemma_poll_free_cmd_data_ops(Cmd::TEMP_CONTROL, seq![Flag::INTERNAL_TEMP_SENSOR]);
    lemma_poll_free_cmd_data_ops(
        Cmd::BOOST_SOFT_START_CONTROL,
        seq![
            Flag::BOOSTER_SOFT_START_PHASE1_DEFAULT,
            Flag::BOOSTER_SOFT_START_PHASE2_DEFAULT,
            Flag::BOOSTER_SOFT_START_PHASE3_DEFAULT,
        ],
    );
    lemma_poll_free_cmd_data_ops(Cmd::GATE_VOLTAGE_CONTROL, seq![Flag::GATE_VOLTAGE_VGH_DEFAULT]);
    lemma_poll_free_cmd_data_ops(Cmd::SOURCE_VOLTAGE_CONTROL, seq![0x02u8, 0x0Cu8, 0x0Cu8]);
    lemma_poll_free_cmd_data_ops(Cmd::WRITE_VCOM_REGISTER, seq![Flag::VCOM_DEFAULT]);
    lemma_poll_free_cmd_data_ops(Cmd::WRITE_LUT_REGISTER, lut_full_spec());
    lemma_poll_free_cmd_data_ops(Cmd::SW_RESET, Seq::empty());
    assert(poll_free(init_config_ops())) by {
        assert forall|i: int|
            0 <= i < init_config_ops().len() implies !((#[trigger] init_config_ops()[i]) is Poll) by {
            let s = init_config_ops();
            assert(!(s[i] is Poll));
        }
    }
    assert(poll_free(seq![BusOp::Reset])) by {
        assert(seq![BusOp::Reset][0] == BusOp::Reset);
    }
    lemma_poll_free_add(seq![BusOp::Reset], cmd_ops(Cmd::SW_RESET));
    lemma_poll_free_add(seq![BusOp::Reset] + cmd_ops(Cmd::SW_RESET), init_config_ops());
    assert(poll_free(init_ops())) by {
        assert(init_ops() =~= (seq![BusOp::Reset] + cmd_ops(Cmd::SW_RESET)) + init_config_ops());
    }
}

/// A configured display driver: the framing interface plus the lifecycle
/// state machine that rejects operations the sleeping or uninitialized
/// controller cannot take.
pub struct Ssd1680<P: BusPort> {
    /// The framing layer that owns the physical port.
    pub interface: DisplayInterface<P>,
    /// The controller's lifecycle state as tracked by the driver.
    pub state: DeviceState,
}

impl<P: BusPort> Ssd1680<P> {
    /// The bus events performed through this driver so far.
    pub open spec fn ops(&self) -> Seq<BusOp> {
        self.interface.ops()
    }

    /// Wrap a port and run the full initialization sequence.
    pub fn new(port: P) -> (r: Result<Ssd1680<P>, DriverError>)
        ensures
            r matches Ok(d) ==> d.state == DeviceState::Idle && (exists|n1: nat, n2: nat|
                wait_in_bound(n1) && wait_in_bound(n2) && d.ops() == port.ops()
                    + #[trigger] init_waited_ops(n1, n2)),
            r matches Err(e) ==> hw_failure(e),
    {
        let mut driver = Ssd1680::from_interface(DisplayInterface::new(port));
        match driver.init() {
            Ok(()) => Ok(driver),
            Err(e) => Err(e),
        }
    }

    /// Wrap an existing interface without initializing the panel.
    pub fn from_interface(interface: DisplayInterface<P>) -> (r: Ssd1680<P>)
        ensures
            r.state == DeviceState::Uninitialized,
            r.ops() == interface.ops(),
    {
        Ssd1680 { interface, state: DeviceState::Uninitialized }
    }

    /// Load a waveform table into the controller.  A failure sends no byte
    /// after the failing one.
    fn set_lut(&mut self, lut: &Vec<u8>) -> (r: Result<(), DriverError>)
        ensures
            final(self).state == old(self).state,
            r is Ok ==> final(self).ops() == old(self).ops() + cmd_data_ops(
                Cmd::WRITE_LUT_REGISTER,
                lut@,
            ),
            r is Err ==> r == Err::<(), DriverError>(DriverError::BusError) && stream_prefix_of(
                old(self).ops(),
                final(self).ops(),
                cmd_data_ops(Cmd::WRITE_LUT_REGISTER, lut@),
            ),
    {
        self.interface.cmd_with_data(Cmd::WRITE_LUT_REGISTER, lut.as_slice())
    }

    /// Program the RAM window to the given pixel rectangle.
    fn set_ram_area(&mut self, start_x: u16, start_y: u16, end_x: u16, end_y: u16) -> (r: Result<
        (),
        DriverError,
    >)
        requires
            start_x <= end_x,
            start_y <= end_y,
        ensures
            final(self).state == old(self).state,
            r is Ok ==> final(self).ops() == old(self).ops() + ram_area_ops(
                start_x,
                start_y,
                end_x,
                end_y,
            ),
            r is Err ==> r == Err::<(), DriverError>(DriverError::BusError) && stream_prefix_of(
                old(self).ops(),
                final(self).ops(),
                ram_area_ops(start_x, start_y, end_x, end_y),
            ),
    {
        let ghost sx = cmd_data_ops(
            Cmd::SET_RAMX_START_END,
            seq![(start_x / 8) as u8, (end_x / 8) as u8],
        );
        let ghost sy = cmd_data_ops(
            Cmd::SET_RAMY_START_END,
            seq![
                (start_y % 256) as u8,
                (start_y / 256) as u8,
                (end_y % 256) as u8,
                (end_y / 256) as u8,
            ],
        );
        let pax: [u8; 2] = [(start_x / 8) as u8, (end_x / 8) as u8];
        let pay: [u8; 4] = [
            (start_y % 256) as u8,
            (start_y / 256) as u8,
            (end_y % 256) as u8,
            (end_y / 256) as u8,
        ];
        proof {
            assert(pax@ =~= seq![(start_x / 8) as u8, (end_x / 8) as u8]);
            assert(pay@ =~= seq![
                (start_y % 256) as u8,
                (start_y / 256) as u8,
                (end_y % 256) as u8,
                (end_y / 256) as u8,
            ]);
        }
        match self.interface.cmd_with_data(Cmd::SET_RAMX_START_END, &pax) {
            Ok(()) => {},
            Err(e) => {
                proof {
                    lemma_stream_prefix_widen(old(self).ops(), self.ops(), sx, sy);
                }
                return Err(e);
            },
        }
        let ghost mid = self.ops();
        match self.interface.cmd_with_data(Cmd::SET_RAMY_START_END, &pay) {
            Ok(()) => {},
            Err(e) => {
                proof {
                    let intended = ram_area_ops(start_x, start_y, end_x, end_y);
                    assert(sx == intended.subrange(0, sx.len() as int)) by {
                        assert(intended.subrange(0, sx.len() as int) =~= sx);
                    }
                    assert(sy == intended.subrange(sx.len() as int, (sx.len() + sy.len()) as int))
                        by {
                        assert(intended.subrange(sx.len() as int, (sx.len() + sy.len()) as int)
                            =~= sy);
                    }
                    lemma_stream_prefix_compose(old(self).ops(), mid, self.ops(), sx, sy, intended);
                }
                return Err(e);
            },
        }
        proof {
            assert(self.ops() =~= old(self).ops() + ram_area_ops(start_x, start_y, end_x, end_y));
        }
        Ok(())
    }

    /// Set the RAM counter to the given pixel position.
    fn set_ram_counter(&mut self, x: u16, y: u16) -> (r: Result<(), DriverError>)
        ensures
            final(self).state == old(self).state,
            r is Ok ==> final(self).ops() == old(self).ops() + ram_counter_ops(x, y),
            r is Err ==> r == Err::<(), DriverError>(DriverError::BusError) && stream_prefix_of(
                old(self).ops(),
                final(self).ops(),
                ram_counter_ops(x, y),
            ),
    {
        let ghost cx = cmd_data_ops(Cmd::SET_RAMX_COUNTER, seq![(x / 8) as u8]);
        let ghost cy = cmd_data_ops(Cmd::SET_RAMY_COUNTER, seq![(y % 256) as u8, (y / 256) as u8]);
        let px: [u8; 1] = [(x / 8) as u8];
        let py: [u8; 2] = [(y % 256) as u8, (y / 256) as u8];
        proof {
            assert(px@ =~= seq![(x / 8) as u8]);
            assert(py@ =~= seq![(y % 256) as u8, (y / 256) as u8]);
        }
        match self.interface.cmd_with_data(Cmd::SET_RAMX_COUNTER, &px) {
            Ok(()) => {},
            Err(e) => {
                proof {
                    lemma_stream_prefix_widen(old(self).ops(), self.ops(), cx, cy);
                }
                return Err(e);
            },
        }
        let ghost mid = self.ops();
        match self.interface.cmd_with_data(Cmd::SET_RAMY_COUNTER, &py) {
            Ok(()) => {},
            Err(e) => {
                proof {
                    let intended = ram_counter_ops(x, y);
                    assert(cx == intended.subrange(0, cx.len() as int)) by {
                        assert(intended.subrange(0, cx.len() as int) =~= cx);
                    }
                    assert(cy == intended.subrange(cx.len() as int, (cx.len() + cy.len()) as int))
                        by {
                        assert(intended.subrange(cx.len() as int, (cx.len() + cy.len()) as int)
                            =~= cy);
                    }
                    lemma_stream_prefix_compose(old(self).ops(), mid, self.ops(), cx, cy, intended);
                }
                return Err(e);
            },
        }
        proof {
            assert(self.ops() =~= old(self).ops() + ram_counter_ops(x, y));
        }
        Ok(())
    }

    /// Program the window over the whole panel and reset the counter to its
    /// origin.
    fn use_full_frame(&mut self) -> (r: Result<(), DriverError>)
        ensures
            final(self).state == old(self).state,
            r is Ok ==> final(self).ops() == old(self).ops() + full_frame_ops(),
            r is Err ==> r == Err::<(), DriverError>(DriverError::BusError) && stream_prefix_of(
                old(self).ops(),
                final(self).ops(),
                full_frame_ops(),
            ),
    {
        let ghost area = ram_area_ops(0, 0, (WIDTH - 1) as u16, (HEIGHT - 1) as u16);
        let ghost counter = ram_counter_ops(0, 0);
        match self.set_ram_area(0, 0, WIDTH - 1, HEIGHT - 1) {
            Ok(()) => {},
            Err(e) => {
                proof {
                    lemma_stream_prefix_widen(old(self).ops(), self.ops(), area, counter);
                }
                return Err(e);
            },
        }
        let ghost mid = self.ops();
        match self.set_ram_counter(0, 0) {
            Ok(()) => {},
            Err(e) => {
                proof {
                    assert(area == full_frame_ops().subrange(0, area.len() as int)) by {
                        assert(full_frame_ops().subrange(0, area.len() as int) =~= area);
                    }
                    assert(counter == full_frame_ops().subrange(
                        area.len() as int,
                        (area.len() + counter.len()) as int,
                    )) by {
                        assert(full_frame_ops().subrange(
                            area.len() as int,
                            (area.len() + counter.len()) as int,
                        ) =~= counter);
                    }
                    lemma_stream_prefix_compose(
                        old(self).ops(),
                        mid,
                        self.ops(),
                        area,
                        counter,
                        full_frame_ops(),
                    );
                }
                return Err(e);
            },
        }
        proof {
            assert(self.ops() =~= old(self).ops() + full_frame_ops());
        }
        Ok(())
    }

    /// The configuration writes of initialization, in the order of
    /// [`init_config_ops`].  A failure sends nothing after the failing
    /// write.
    fn init_config(&mut self) -> (r: Result<(), DriverError>)
        ensures
            final(self).state == old(self).state,
            r is Ok ==> final(self).ops() == old(self).ops() + init_config_ops(),
            r is Err ==> r == Err::<(), DriverError>(DriverError::BusError) && stream_prefix_of(
                old(self).ops(),
                final(self).ops(),
                init_config_ops(),
            ),
    {
        let ghost intended = init_config_ops();
        let ghost mut done: Seq<BusOp> = Seq::empty();
        let ghost mut mid = self.ops();
        proof {
            assert(old(self).ops() + done =~= old(self).ops());
        }
        let ghost s1 = cmd_data_ops(Cmd::DRIVER_CONTROL, seq![0x27u8, 0x01u8, 0x00u8]);
        let p1: [u8; 3] = [0x27, 0x01, 0x00];
        proof {
            assert(p1@ =~= seq![0x27u8, 0x01u8, 0x00u8]);
        }
        match self.interface.cmd_with_data(Cmd::DRIVER_CONTROL, &p1) {
            Ok(()) => {},
            Err(e) => {
                proof {
                    assert(done == intended.subrange(0, done.len() as int)) by {
                        assert(intended.subrange(0, done.len() as int) =~= done);
                    }
                    assert(s1 == intended.subrange(done.len() as int, (done.len() + s1.len()) as int))
                        by {
                        assert(intended.subrange(done.len() as int, (done.len() + s1.len()) as int)
                            =~= s1);
                    }
                    lemma_stream_prefix_compose(old(self).ops(), mid, self.ops(), done, s1, intended);
                }
                return Err(e);
            },
        }
        proof {
            assert(self.ops() =~= old(self).ops() + (done + s1));
            done = done + s1;
            mid = self.ops();
        }
        let ghost s2 = cmd_data_ops(Cmd::DATA_ENTRY_MODE, seq![Flag::DATA_ENTRY_INCRY_INCRX]);
        let p2: [u8; 1] = [Flag::DATA_ENTRY_INCRY_INCRX];
        proof {
            assert(p2@ =~= seq![Flag::DATA_ENTRY_INCRY_INCRX]);
        }
        match self.interface.cmd_with_data(Cmd::DATA_ENTRY_MODE, &p2) {
            Ok(()) => {},
            Err(e) => {
                proof {
                    assert(done == intended.subrange(0, done.len() as int)) by {
                        assert(intended.subrange(0, done.len() as int) =~= done);
                    }
                    assert(s2 == intended.subrange(done.len() as int, (done.len() + s2.len()) as int))
                        by {
                        assert(intended.subrange(done.len() as int, (done.len() + s2.len()) as int)
                            =~= s2);
                    }
                    lemma_stream_prefix_compose(old(self).ops(), mid, self.ops(), done, s2, intended);
                }
                return Err(e);
            },
        }
        proof {
            assert(self.ops() =~= old(self).ops() + (done + s2));
            done = done + s2;
            mid = self.ops();
        }
        let ghost s3 = full_frame_ops();
        match self.use_full_frame() {
            Ok(()) => {},
            Err(e) => {
                proof {
                    assert(done == intended.subrange(0, done.len() as int)) by {
                        assert(intended.subrange(0, done.len() as int) =~= done);
                    }
                    assert(s3 == intended.subrange(done.len() as int, (done.len() + s3.len()) as int))
                        by {
                        assert(intended.subrange(done.len() as int, (done.len() + s3.len()) as int)
                            =~= s3);
                    }
                    lemma_stream_prefix_compose(old(self).ops(), mid, self.ops(), done, s3, intended);
                }
                return Err(e);
            },
        }
        proof {
            assert(self.ops() =~= old(self).ops() + (done + s3));
            done = done + s3;
            mid = self.ops();
        }
        let ghost s4 = cmd_data_ops(Cmd::BORDER_WAVEFORM_CONTROL, seq![Flag::BORDER_WAVEFORM_WHITE]);
        let p4: [u8; 1] = [Flag::BORDER_WAVEFORM_WHITE];
        proof {
            assert(p4@ =~= seq![Flag::BORDER_WAVEFORM_WHITE]);
        }
        match self.interface.cmd_with_data(Cmd::BORDER_WAVEFORM_CONTROL, &p4) {
            Ok(()) => {},
            Err(e) => {
                proof {
                    assert(done == intended.subrange(0, done.len() as int)) by {
                        assert(intended.subrange(0, done.len() as int) =~= done);
                    }
                    assert(s4 == intended.subrange(done.len() as int, (done.len() + s4.len()) as int))
                        by {
                        assert(intended.subrange(done.len() as int, (done.len() + s4.len()) as int)
                            =~= s4);
                    }
                    lemma_stream_prefix_compose(old(self).ops(), mid, self.ops(), done, s4, intended);
                }
                return Err(e);
            },
        }
        proof {
            assert(self.ops() =~= old(self).ops() + (done + s4));
            done = done + s4;
            mid = self.ops();
        }
        let ghost s5 = cmd_data_ops(Cmd::TEMP_CONTROL, seq![Flag::INTERNAL_TEMP_SENSOR]);
        let p5: [u8; 1] = [Flag::INTERNAL_TEMP_SENSOR];
        proof {
            assert(p5@ =~= seq![Flag::INTERNAL_TEMP_SENSOR]);
        }
        match self.interface.cmd_with_data(Cmd::TEMP_CONTROL, &p5) {
            Ok(()) => {},
            Err(e) => {
                proof {
                    assert(done == intended.subrange(0, done.len() as int)) by {
                        assert(intended.subrange(0, done.len() as int) =~= done);
                    }
                    assert(s5 == intended.subrange(done.len() as int, (done.len() + s5.len()) as int))
                        by {
                        assert(intended.subrange(done.len() as int, (done.len() + s5.len()) as int)
                            =~= s5);
                    }
                    lemma_stream_prefix_compose(old(self).ops(), mid, self.ops(), done, s5, intended);
                }
                return Err(e);
            },
        }
        proof {
            assert(self.ops() =~= old(self).ops() + (done + s5));
            done = done + s5;
            mid = self.ops();
        }
        let ghost s6 = cmd_data_ops(
            Cmd::BOOST_SOFT_START_CONTROL,
            seq![
                Flag::BOOSTER_SOFT_START_PHASE1_DEFAULT,
                Flag::BOOSTER_SOFT_START_PHASE2_DEFAULT,
                Flag::BOOSTER_SOFT_START_PHASE3_DEFAULT,
            ],
        );
        let p6: [u8; 3] = [
            Flag::BOOSTER_SOFT_START_PHASE1_DEFAULT,
            Flag::BOOSTER_SOFT_START_PHASE2_DEFAULT,
            Flag::BOOSTER_SOFT_START_PHASE3_DEFAULT,
        ];
        proof {
            assert(p6@ =~= seq![
                Flag::BOOSTER_SOFT_START_PHASE1_DEFAULT,
                Flag::BOOSTER_SOFT_START_PHASE2_DEFAULT,
                Flag::BOOSTER_SOFT_START_PHASE3_DEFAULT,
            ]);
        }
        match self.interface.cmd_with_data(Cmd::BOOST_SOFT_START_CONTROL, &p6) {
            Ok(()) => {},
            Err(e) => {
                proof {
                    assert(done == intended.subrange(0, done.len() as int)) by {
                        assert(intended.subrange(0, done.len() as int) =~= done);
                    }
                    assert(s6 == intended.subrange(done.len() as int, (done.len() + s6.len()) as int))
                        by {
                        assert(intended.subrange(done.len() as int, (done.len() + s6.len()) as int)
                            =~= s6);
                    }
                    lemma_stream_prefix_compose(old(self).ops(), mid, self.ops(), done, s6, intended);
                }
                return Err(e);
            },
        }
        proof {
            assert(self.ops() =~= old(self).ops() + (done + s6));
            done = done + s6;
            mid = self.ops();
        }
        let ghost s7 = cmd_data_ops(Cmd::GATE_VOLTAGE_CONTROL, seq![Flag::GATE_VOLTAGE_VGH_DEFAULT]);
        let p7: [u8; 1] = [Flag::GATE_VOLTAGE_VGH_DEFAULT];
        proof {
            assert(p7@ =~= seq![Flag::GATE_VOLTAGE_VGH_DEFAULT]);
        }
        match self.interface.cmd_with_data(Cmd::GATE_VOLTAGE_CONTROL, &p7) {
            Ok(()) => {},
            Err(e) => {
                proof {
                    assert(done == intended.subrange(0, done.len() as int)) by {
                        assert(intended.subrange(0, done.len() as int) =~= done);
                    }
                    assert(s7 == intended.subrange(done.len() as int, (done.len() + s7.len()) as int))
                        by {
                        assert(intended.subrange(done.len() as int, (done.len() + s7.len()) as int)
                            =~= s7);
                    }
                    lemma_stream_prefix_compose(old(self).ops(), mid, self.ops(), done, s7, intended);
                }
                return Err(e);
            },
        }
        proof {
            assert(self.ops() =~= old(self).ops() + (done + s7));
            done = done + s7;
            mid = self.ops();
        }
        let ghost s8 = cmd_data_ops(Cmd::SOURCE_VOLTAGE_CONTROL, seq![0x02u8, 0x0Cu8, 0x0Cu8]);
        let p8: [u8; 3] = [0x02, 0x0C, 0x0C];
        proof {
            assert(p8@ =~= seq![0x02u8, 0x0Cu8, 0x0Cu8]);
        }
        match self.interface.cmd_with_data(Cmd::SOURCE_VOLTAGE_CONTROL, &p8) {
            Ok(()) => {},
            Err(e) => {
                proof {
                    assert(done == intended.subrange(0, done.len() as int)) by {
                        assert(intended.subrange(0, done.len() as int) =~= done);
                    }
                    assert(s8 == intended.subrange(done.len() as int, (done.len() + s8.len()) as int))
                        by {
                        assert(intended.subrange(done.len() as int, (done.len() + s8.len()) as int)
                            =~= s8);
                    }
                    lemma_stream_prefix_compose(old(self).ops(), mid, self.ops(), done, s8, intended);
                }
                return Err(e);
            },
        }
        proof {
            assert(self.ops() =~= old(self).ops() + (done + s8));
            done = done + s8;
            mid = self.ops();
        }
        let ghost s9 = cmd_data_ops(Cmd::WRITE_VCOM_REGISTER, seq![Flag::VCOM_DEFAULT]);
        let p9: [u8; 1] = [Flag::VCOM_DEFAULT];
        proof {
            assert(p9@ =~= seq![Flag::VCOM_DEFAULT]);
        }
        match self.interface.cmd_with_data(Cmd::WRITE_VCOM_REGISTER, &p9) {
            Ok(()) => {},
            Err(e) => {
                proof {
                    assert(done == intended.subrange(0, done.len() as int)) by {
                        assert(intended.subrange(0, done.len() as int) =~= done);
                    }
                    assert(s9 == intended.subrange(done.len() as int, (done.len() + s9.len()) as int))
                        by {
                        assert(intended.subrange(done.len() as int, (done.len() + s9.len()) as int)
                            =~= s9);
                    }
                    lemma_stream_prefix_compose(old(self).ops(), mid, self.ops(), done, s9, intended);
                }
                return Err(e);
            },
        }
        proof {
            assert(self.ops() =~= old(self).ops() + (done + s9));
            done = done + s9;
            mid = self.ops();
        }
        let lut = lut_full_update();
        let ghost s10 = cmd_data_ops(Cmd::WRITE_LUT_REGISTER, lut_full_spec());
        match self.set_lut(&lut) {
            Ok(()) => {},
            Err(e) => {
                proof {
                    assert(done == intended.subrange(0, done.len() as int)) by {
                        assert(intended.subrange(0, done.len() as int) =~= done);
                    }
                    assert(s10 == intended.subrange(
                        done.len() as int,
                        (done.len() + s10.len()) as int,
                    )) by {
                        assert(intended.subrange(done.len() as int, (done.len() + s10.len()) as int)
                            =~= s10);
                    }
                    lemma_stream_prefix_compose(
                        old(self).ops(),
                        mid,
                        self.ops(),
                        done,
                        s10,
                        intended,
                    );
                }
                return Err(e);
            },
        }
        proof {
            assert(self.ops() =~= old(self).ops() + init_config_ops());
        }
        Ok(())
    }

    /// Run the full initialization sequence: hardware reset, software reset
    /// and its busy wait, the configuration writes, and a closing busy
    /// wait.  Any failure aborts with the underlying error, sends nothing
    /// after the failing step, and leaves the device `Uninitialized`: there
    /// is no partial-success state, the caller must restart from the reset.
    pub fn init(&mut self) -> (r: Result<(), DriverError>)
        ensures
            r is Ok ==> final(self).state == DeviceState::Idle && (exists|n1: nat, n2: nat|
                wait_in_bound(n1) && wait_in_bound(n2) && final(self).ops() == old(self).ops()
                    + #[trigger] init_waited_ops(n1, n2)),
            r matches Err(e) ==> hw_failure(e) && final(self).state == DeviceState::Uninitialized
                && aborted_writes(old(self).ops(), final(self).ops(), init_ops()),
    {
        self.state = DeviceState::Uninitialized;
        let ghost pre = seq![BusOp::Reset] + cmd_ops(Cmd::SW_RESET);
        proof {
            lemma_poll_free_init();
        }
        match self.interface.reset() {
            Ok(()) => {},
            Err(e) => {
                proof {
                    lemma_aborted_none(old(self).ops(), init_ops());
                }
                return Err(e);
            },
        }
        match self.interface.cmd(Cmd::SW_RESET) {
            Ok(()) => {},
            Err(e) => {
                proof {
                    assert(self.ops() == old(self).ops() + init_ops().subrange(0, 1)) by {
                        assert(old(self).ops() + init_ops().subrange(0, 1) =~= old(self).ops()
                            + seq![BusOp::Reset]);
                    }
                    lemma_stream_prefix_aborted(old(self).ops(), self.ops(), init_ops());
                }
                return Err(e);
            },
        }
        proof {
            assert(self.ops() =~= old(self).ops() + pre);
        }
        let ghost mid1 = self.ops();
        match self.interface.wait_busy_low() {
            Ok(()) => {},
            Err(e) => {
                proof {
                    lemma_all_polls_waits(MAX_BUSY_POLLS as nat);
                    assert(pre == init_ops().subrange(0, pre.len() as int)) by {
                        assert(init_ops().subrange(0, pre.len() as int) =~= pre);
                    }
                    lemma_aborted_after_writes(
                        old(self).ops(),
                        self.ops(),
                        pre,
                        poll_ops(MAX_BUSY_POLLS as nat),
                        init_ops(),
                    );
                }
                return Err(e);
            },
        }
        let ghost n1v: nat = choose|n: nat|
            wait_in_bound(n) && self.ops() == mid1 + #[trigger] idle_wait_ops(n);
        let ghost mid2 = self.ops();
        proof {
            lemma_writes_through(old(self).ops(), pre, idle_wait_ops(n1v));
            assert(mid2 == old(self).ops() + pre + idle_wait_ops(n1v));
        }
        match self.init_config() {
            Ok(()) => {},
            Err(e) => {
                proof {
                    lemma_poll_free_init();
                    lemma_stream_prefix_aborted(mid2, self.ops(), init_config_ops());
                    assert(init_config_ops() == init_ops().subrange(
                        pre.len() as int,
                        init_ops().len() as int,
                    )) by {
                        assert(init_ops().subrange(pre.len() as int, init_ops().len() as int)
                            =~= init_config_ops());
                    }
                    assert(pre == init_ops().subrange(0, pre.len() as int)) by {
                        assert(init_ops().subrange(0, pre.len() as int) =~= pre);
                    }
                    lemma_aborted_extend(old(self).ops(), mid2, self.ops(), pre, init_ops());
                }
                return Err(e);
            },
        }
        let ghost mid3 = self.ops();
        proof {
            assert(mid3 == mid2 + init_config_ops());
            lemma_writes_of_add(mid2, init_config_ops());
            lemma_writes_of_poll_free(init_config_ops());
        }
        match self.interface.wait_busy_low() {
            Ok(()) => {},
            Err(e) => {
                proof {
                    lemma_all_polls_waits(MAX_BUSY_POLLS as nat);
                    lemma_writes_of_add(mid3, poll_ops(MAX_BUSY_POLLS as nat));
                    lemma_writes_of_polls(poll_ops(MAX_BUSY_POLLS as nat));
                    assert(writes_of(self.ops()) == writes_of(old(self).ops()) + init_ops().subrange(
                        0,
                        init_ops().len() as int,
                    )) by {
                        assert(writes_of(self.ops()) =~= writes_of(old(self).ops()) + init_ops());
                        assert(init_ops().subrange(0, init_ops().len() as int) =~= init_ops());
                    }
                }
                return Err(e);
            },
        }
        let ghost n2v: nat = choose|n: nat|
            wait_in_bound(n) && self.ops() == mid3 + #[trigger] idle_wait_ops(n);
        self.state = DeviceState::Idle;
        proof {
            assert(self.ops() =~= old(self).ops() + init_waited_ops(n1v, n2v));
        }
        Ok(())
    }

    /// Recover from deep sleep: a hardware reset followed by the full
    /// initialization sequence, the only transition that leaves `Sleeping`.
    pub fn wake_up(&mut self) -> (r: Result<(), DriverError>)
        ensures
            r is Ok ==> final(self).state == DeviceState::Idle && (exists|n1: nat, n2: nat|
                wait_in_bound(n1) && wait_in_bound(n2) && final(self).ops() == old(self).ops()
                    + #[trigger] init_waited_ops(n1, n2)),
            r matches Err(e) ==> hw_failure(e) && final(self).state == DeviceState::Uninitialized
                && aborted_writes(old(self).ops(), final(self).ops(), init_ops()),
    {
        self.init()
    }

    /// One display activation: write the update-control option byte, master
    /// activate, then wait for the busy line before returning; the device
    /// is `Busy` for the duration of the wait and `Idle` again when it
    /// ends, also when the bounded wait expires.
    fn activate(&mut self, option_byte: u8) -> (r: Result<(), DriverError>)
        requires
            old(self).state == DeviceState::Idle,
        ensures
            final(self).state == DeviceState::Idle,
            r is Ok ==> exists|n: nat|
                wait_in_bound(n) && final(self).ops() == old(self).ops()
                    + #[trigger] activation_waited_ops(option_byte, n),
            r matches Err(e) ==> hw_failure(e) && aborted_writes(
                old(self).ops(),
                final(self).ops(),
                activation_ops(option_byte),
            ),
    {
        let ghost seg1 = cmd_data_ops(Cmd::DISPLAY_UPDATE_CTRL2, seq![option_byte]);
        let pb: [u8; 1] = [option_byte];
        proof {
            lemma_poll_free_activation(option_byte);
            assert(pb@ =~= seq![option_byte]);
        }
        match self.interface.cmd_with_data(Cmd::DISPLAY_UPDATE_CTRL2, &pb) {
            Ok(()) => {},
            Err(e) => {
                proof {
                    lemma_stream_prefix_widen(
                        old(self).ops(),
                        self.ops(),
                        seg1,
                        cmd_ops(Cmd::MASTER_ACTIVATE),
                    );
                    lemma_stream_prefix_aborted(
                        old(self).ops(),
                        self.ops(),
                        activation_ops(option_byte),
                    );
                }
                return Err(e);
            },
        }
        match self.interface.cmd(Cmd::MASTER_ACTIVATE) {
            Ok(()) => {},
            Err(e) => {
                proof {
                    assert(self.ops() == old(self).ops() + activation_ops(option_byte).subrange(
                        0,
                        2,
                    )) by {
                        assert(old(self).ops() + activation_ops(option_byte).subrange(0, 2)
                            =~= old(self).ops() + seg1);
                    }
                    lemma_stream_prefix_aborted(
                        old(self).ops(),
                        self.ops(),
                        activation_ops(option_byte),
                    );
                }
                return Err(e);
            },
        }
        proof {
            assert(self.ops() =~= old(self).ops() + activation_ops(option_byte));
        }
        let ghost mid = self.ops();
        self.state = DeviceState::Busy;
        let waited = self.interface.wait_busy_low();
        self.state = DeviceState::Idle;
        match waited {
            Ok(()) => {},
            Err(e) => {
                proof {
                    lemma_all_polls_waits(MAX_BUSY_POLLS as nat);
                    assert(activation_ops(option_byte) == activation_ops(option_byte).subrange(
                        0,
                        activation_ops(option_byte).len() as int,
                    )) by {
                        assert(activation_ops(option_byte).subrange(
                            0,
                            activation_ops(option_byte).len() as int,
                        ) =~= activation_ops(option_byte));
                    }
                    lemma_aborted_after_writes(
                        old(self).ops(),
                        self.ops(),
                        activation_ops(option_byte),
                        poll_ops(MAX_BUSY_POLLS as nat),
                        activation_ops(option_byte),
                    );
                }
                return Err(e);
            },
        }
        proof {
            let n = choose|n: nat| wait_in_bound(n) && self.ops() == mid + #[trigger] idle_wait_ops(n);
            assert(self.ops() =~= old(self).ops() + activation_waited_ops(option_byte, n));
        }
        Ok(())
    }

    /// Trigger a display update under the given refresh profile: a single
    /// activation with the profile's fixed option byte, except the fast
    /// profile, which takes three activations with a temperature override
    /// between the first and the second.  Every master activation is
    /// followed by its own busy wait before anything further is emitted.
    pub fn update(&mut self, profile: RefreshProfile) -> (r: Result<(), DriverError>)
        ensures
            old(self).state != DeviceState::Idle ==> r == Err::<(), DriverError>(
                DriverError::InvalidState,
            ) && *final(self) == *old(self),
            old(self).state == DeviceState::Idle ==> final(self).state == DeviceState::Idle && (
            r matches Err(e) ==> hw_failure(e) && aborted_writes(
                old(self).ops(),
                final(self).ops(),
                update_ops(profile),
            )),
            old(self).state == DeviceState::Idle && r is Ok ==> exists|n1: nat, n2: nat, n3: nat|
                wait_in_bound(n1) && wait_in_bound(n2) && wait_in_bound(n3) && final(self).ops()
                    == old(self).ops() + #[trigger] update_waited_ops(profile, n1, n2, n3),
    {
        if !matches!(self.state, DeviceState::Idle) {
            return Err(DriverError::InvalidState);
        }
        match profile {
            RefreshProfile::Fast => {
                let ghost a1 = activation_ops(Flag::DISPLAY_UPDATE_FAST);
                let ghost ts = cmd_data_ops(Cmd::TEMP_CONTROL_WRITE, seq![0x64u8, 0x00u8]);
                let ghost a2 = activation_ops(Flag::DISPLAY_UPDATE_PARTIAL_1);
                let ghost a3 = activation_ops(Flag::DISPLAY_UPDATE_PARTIAL_2);
                proof {
                    lemma_poll_free_update(profile);
                    lemma_poll_free_activation(Flag::DISPLAY_UPDATE_FAST);
                    lemma_poll_free_activation(Flag::DISPLAY_UPDATE_PARTIAL_1);
                    lemma_poll_free_activation(Flag::DISPLAY_UPDATE_PARTIAL_2);
                    lemma_poll_free_cmd_data_ops(Cmd::TEMP_CONTROL_WRITE, seq![0x64u8, 0x00u8]);
                }
                match self.activate(Flag::DISPLAY_UPDATE_FAST) {
                    Ok(()) => {},
                    Err(e) => {
                        proof {
                            lemma_aborted_widen(old(self).ops(), self.ops(), a1, ts + a2 + a3);
                            assert(a1 + (ts + a2 + a3) == update_ops(profile)) by {
                                assert(a1 + (ts + a2 + a3) =~= update_ops(profile));
                            }
                        }
                        return Err(e);
                    },
                }
                let ghost n1v: nat = choose|n: nat|
                    wait_in_bound(n) && self.ops() == old(self).ops()
                        + #[trigger] activation_waited_ops(Flag::DISPLAY_UPDATE_FAST, n);
                let ghost mid1 = self.ops();
                proof {
                    lemma_writes_through(old(self).ops(), a1, idle_wait_ops(n1v));
                    assert(mid1 == old(self).ops() + a1 + idle_wait_ops(n1v));
                }
                let tp: [u8; 2] = [0x64, 0x00];
                proof {
                    assert(tp@ =~= seq![0x64u8, 0x00u8]);
                }
                match self.interface.cmd_with_data(Cmd::TEMP_CONTROL_WRITE, &tp) {
                    Ok(()) => {},
                    Err(e) => {
                        proof {
                            lemma_stream_prefix_aborted(mid1, self.ops(), ts);
                            lemma_aborted_widen(mid1, self.ops(), ts, a2 + a3);
                            assert(ts + (a2 + a3) == update_ops(profile).subrange(
                                a1.len() as int,
                                update_ops(profile).len() as int,
                            )) by {
                                assert(update_ops(profile).subrange(
                                    a1.len() as int,
                                    update_ops(profile).len() as int,
                                ) =~= ts + (a2 + a3));
                            }
                            assert(a1 == update_ops(profile).subrange(0, a1.len() as int)) by {
                                assert(update_ops(profile).subrange(0, a1.len() as int) =~= a1);
                            }
                            lemma_aborted_extend(
                                old(self).ops(),
                                mid1,
                                self.ops(),
                                a1,
                                update_ops(profile),
                            );
                        }
                        return Err(e);
                    },
                }
                let ghost mid2 = self.ops();
                proof {
                    assert(mid2 == mid1 + ts);
                    lemma_writes_of_add(mid1, ts);
                    lemma_writes_of_poll_free(ts);
                    assert(writes_of(mid2) == writes_of(old(self).ops()) + (a1 + ts)) by {
                        assert(writes_of(old(self).ops()) + a1 + ts =~= writes_of(old(self).ops())
                            + (a1 + ts));
                    }
                }
                match self.activate(Flag::DISPLAY_UPDATE_PARTIAL_1) {
                    Ok(()) => {},
                    Err(e) => {
                        proof {
                            lemma_aborted_widen(mid2, self.ops(), a2, a3);
                            assert(a2 + a3 == update_ops(profile).subrange(
                                (a1 + ts).len() as int,
                                update_ops(profile).len() as int,
                            )) by {
                                assert(update_ops(profile).subrange(
                                    (a1 + ts).len() as int,
                                    update_ops(profile).len() as int,
                                ) =~= a2 + a3);
                            }
                            assert(a1 + ts == update_ops(profile).subrange(
                                0,
                                (a1 + ts).len() as int,
                            )) by {
                                assert(update_ops(profile).subrange(0, (a1 + ts).len() as int)
                                    =~= a1 + ts);
                            }
                            lemma_aborted_extend(
                                old(self).ops(),
                                mid2,
                                self.ops(),
                                a1 + ts,
                                update_ops(profile),
                            );
                        }
                        return Err(e);
                    },
                }
                let ghost n2v: nat = choose|n: nat|
                    wait_in_bound(n) && self.ops() == mid2 + #[trigger] activation_waited_ops(
                        Flag::DISPLAY_UPDATE_PARTIAL_1,
                        n,
                    );
                let ghost mid3 = self.ops();
                proof {
                    lemma_writes_through(mid2, a2, idle_wait_ops(n2v));
                    assert(mid3 == mid2 + a2 + idle_wait_ops(n2v));
                    assert(writes_of(mid3) == writes_of(old(self).ops()) + (a1 + ts + a2)) by {
                        assert(writes_of(old(self).ops()) + (a1 + ts) + a2 =~= writes_of(
                            old(self).ops(),
                        ) + (a1 + ts + a2));
                    }
                }
                match self.activate(Flag::DISPLAY_UPDATE_PARTIAL_2) {
                    Ok(()) => {},
                    Err(e) => {
                        proof {
                            assert(a3 == update_ops(profile).subrange(
                                (a1 + ts + a2).len() as int,
                                update_ops(profile).len() as int,
                            )) by {
                                assert(update_ops(profile).subrange(
                                    (a1 + ts + a2).len() as int,
                                    update_ops(profile).len() as int,
                                ) =~= a3);
                            }
                            assert(a1 + ts + a2 == update_ops(profile).subrange(
                                0,
                                (a1 + ts + a2).len() as int,
                            )) by {
                                assert(update_ops(profile).subrange(0, (a1 + ts + a2).len() as int)
                                    =~= a1 + ts + a2);
                            }
                            lemma_aborted_extend(
                                old(self).ops(),
                                mid3,
                                self.ops(),
                                a1 + ts + a2,
                                update_ops(profile),
                            );
                        }
                        return Err(e);
                    },
                }
                proof {
                    let n3v = choose|n: nat|
                        wait_in_bound(n) && self.ops() == mid3 + #[trigger] activation_waited_ops(
                            Flag::DISPLAY_UPDATE_PARTIAL_2,
                            n,
                        );
                    assert(self.ops() =~= old(self).ops() + update_waited_ops(
                        profile,
                        n1v,
                        n2v,
                        n3v,
                    ));
                }
            },
            _ => {
                let b = profile_byte(profile);
                match self.activate(b) {
                    Ok(()) => {
                        proof {
                            let n = choose|n: nat|
                                wait_in_bound(n) && self.ops() == old(self).ops()
                                    + #[trigger] activation_waited_ops(b, n);
                            assert(self.ops() == old(self).ops() + update_waited_ops(
                                profile,
                                n,
                                1nat,
                                1nat,
                            ));
                        }
                    },
                    Err(e) => {
                        proof {
                            assert(update_ops(profile) == activation_ops(b));
                        }
                        return Err(e);
                    },
                }
            },
        }
        Ok(())
    }

    /// The fast-refresh sequence: quicker but lower quality than a full
    /// refresh, selected explicitly by the caller, never automatically.
    pub fn fast_update(&mut self) -> (r: Result<(), DriverError>)
        ensures
            old(self).state != DeviceState::Idle ==> r == Err::<(), DriverError>(
                DriverError::InvalidState,
            ) && *final(self) == *old(self),
            old(self).state == DeviceState::Idle ==> final(self).state == DeviceState::Idle && (
            r matches Err(e) ==> hw_failure(e) && aborted_writes(
                old(self).ops(),
                final(self).ops(),
                update_ops(RefreshProfile::Fast),
            )),
            old(self).state == DeviceState::Idle && r is Ok ==> exists|n1: nat, n2: nat, n3: nat|
                wait_in_bound(n1) && wait_in_bound(n2) && wait_in_bound(n3) && final(self).ops()
                    == old(self).ops() + #[trigger] update_waited_ops(
                    RefreshProfile::Fast,
                    n1,
                    n2,
                    n3,
                ),
    {
        self.update(RefreshProfile::Fast)
    }

    /// Trigger a full refresh of whatever the RAM holds, then wait for the
    /// busy line before returning.
    pub fn display_frame(&mut self) -> (r: Result<(), DriverError>)
        ensures
            old(self).state != DeviceState::Idle ==> r == Err::<(), DriverError>(
                DriverError::InvalidState,
            ) && *final(self) == *old(self),
            old(self).state == DeviceState::Idle ==> final(self).state == DeviceState::Idle && (
            r matches Err(e) ==> hw_failure(e) && aborted_writes(
                old(self).ops(),
                final(self).ops(),
                update_ops(RefreshProfile::Full),
            )),
            old(self).state == DeviceState::Idle && r is Ok ==> exists|n: nat|
                wait_in_bound(n) && final(self).ops() == old(self).ops()
                    + #[trigger] activation_waited_ops(Flag::DISPLAY_UPDATE_FULL, n),
    {
        let r = self.update(RefreshProfile::Full);
        proof {
            if old(self).state == DeviceState::Idle && r is Ok {
                let (n1, n2, n3): (nat, nat, nat) = choose|n1: nat, n2: nat, n3: nat|
                    wait_in_bound(n1) && wait_in_bound(n2) && wait_in_bound(n3) && self.ops()
                        == old(self).ops() + #[trigger] update_waited_ops(
                        RefreshProfile::Full,
                        n1,
                        n2,
                        n3,
                    );
                assert(self.ops() == old(self).ops() + activation_waited_ops(
                    Flag::DISPLAY_UPDATE_FULL,
                    n1,
                ));
            }
        }
        r
    }

    /// Write a full frame into the black/white RAM plane without triggering
    /// a refresh: reprogram the full-panel window and counter (idempotent,
    /// guards against a prior partial window), then the buffer's bytes
    /// verbatim — no inversion is applied at this layer.  No busy wait is
    /// involved; a failed write sends nothing after the failing byte.
    pub fn update_frame(&mut self, buffer: &[u8]) -> (r: Result<(), DriverError>)
        requires
            buffer@.len() == FRAME_BYTES,
        ensures
            old(self).state != DeviceState::Idle ==> r == Err::<(), DriverError>(
                DriverError::InvalidState,
            ) && *final(self) == *old(self),
            old(self).state == DeviceState::Idle ==> final(self).state == DeviceState::Idle && (r
                is Err ==> r == Err::<(), DriverError>(DriverError::BusError) && stream_prefix_of(
                old(self).ops(),
                final(self).ops(),
                frame_path_ops(buffer@),
            )),
            old(self).state == DeviceState::Idle && r is Ok ==> final(self).ops() == old(
                self,
            ).ops() + frame_path_ops(buffer@),
    {
        if !matches!(self.state, DeviceState::Idle) {
            return Err(DriverError::InvalidState);
        }
        match self.use_full_frame() {
            Ok(()) => {},
            Err(e) => {
                proof {
                    lemma_stream_prefix_widen(
                        old(self).ops(),
                        self.ops(),
                        full_frame_ops(),
                        frame_write_ops(buffer@),
                    );
                }
                return Err(e);
            },
        }
        let ghost mid = self.ops();
        match self.interface.cmd_with_data(Cmd::WRITE_BW_DATA, buffer) {
            Ok(()) => {},
            Err(e) => {
                proof {
                    let intended = frame_path_ops(buffer@);
                    assert(full_frame_ops() == intended.subrange(0, full_frame_ops().len() as int))
                        by {
                        assert(intended.subrange(0, full_frame_ops().len() as int)
                            =~= full_frame_ops());
                    }
                    assert(frame_write_ops(buffer@) == intended.subrange(
                        full_frame_ops().len() as int,
                        (full_frame_ops().len() + frame_write_ops(buffer@).len()) as int,
                    )) by {
                        assert(intended.subrange(
                            full_frame_ops().len() as int,
                            (full_frame_ops().len() + frame_write_ops(buffer@).len()) as int,
                        ) =~= frame_write_ops(buffer@));
                    }
                    lemma_stream_prefix_compose(
                        old(self).ops(),
                        mid,
                        self.ops(),
                        full_frame_ops(),
                        frame_write_ops(buffer@),
                        intended,
                    );
                }
                return Err(e);
            },
        }
        proof {
            assert(self.ops() =~= old(self).ops() + frame_path_ops(buffer@));
        }
        Ok(())
    }

    /// Like [`Ssd1680::update_frame`], but with every byte's bits flipped
    /// first when `invert` is set, for panels whose polarity runs the other
    /// way.
    pub fn update_frame_with_inversion(&mut self, buffer: &[u8], invert: bool) -> (r: Result<
        (),
        DriverError,
    >)
        requires
            buffer@.len() == FRAME_BYTES,
        ensures
            old(self).state != DeviceState::Idle ==> r == Err::<(), DriverError>(
                DriverError::InvalidState,
            ) && *final(self) == *old(self),
            old(self).state == DeviceState::Idle ==> final(self).state == DeviceState::Idle && (r
                is Err ==> r == Err::<(), DriverError>(DriverError::BusError) && stream_prefix_of(
                old(self).ops(),
                final(self).ops(),
                frame_path_ops(
                    if invert {
                        inverted(buffer@)
                    } else {
                        buffer@
                    },
                ),
            )),
            old(self).state == DeviceState::Idle && r is Ok ==> final(self).ops() == old(
                self,
            ).ops() + frame_path_ops(
                if invert {
                    inverted(buffer@)
                } else {
                    buffer@
                },
            ),
    {
        if !invert {
            return self.update_frame(buffer);
        }
        if !matches!(self.state, DeviceState::Idle) {
            return Err(DriverError::InvalidState);
        }
        let mut inv: Vec<u8> = Vec::new();
        let mut i: usize = 0;
        while i < buffer.len()
            invariant
                i <= buffer@.len(),
                buffer@.len() == FRAME_BYTES,
                inv@ =~= buffer@.subrange(0, i as int).map_values(|b: u8| !b),
            decreases buffer@.len() - i,
        {
            let b: u8 = buffer[i];
            inv.push(!b);
            i = i + 1;
            proof {
                assert(inv@ =~= buffer@.subrange(0, i as int).map_values(|b: u8| !b));
            }
        }
        proof {
            assert(buffer@.subrange(0, buffer@.len() as int) =~= buffer@);
            assert(inv@ =~= inverted(buffer@));
        }
        self.update_frame(inv.as_slice())
    }

    /// The main operational entry point: write the frame into the
    /// black/white RAM plane, then trigger a refresh under the given
    /// profile, waiting out each activation before returning.
    pub fn write_and_update(&mut self, buffer: &[u8], profile: RefreshProfile) -> (r: Result<
        (),
        DriverError,
    >)
        requires
            buffer@.len() == FRAME_BYTES,
        ensures
            old(self).state != DeviceState::Idle ==> r == Err::<(), DriverError>(
                DriverError::InvalidState,
            ) && *final(self) == *old(self),
            old(self).state == DeviceState::Idle ==> final(self).state == DeviceState::Idle && (
            r matches Err(e) ==> hw_failure(e) && aborted_writes(
                old(self).ops(),
                final(self).ops(),
                write_update_ops(buffer@, profile),
            )),
            old(self).state == DeviceState::Idle && r is Ok ==> exists|n1: nat, n2: nat, n3: nat|
                wait_in_bound(n1) && wait_in_bound(n2) && wait_in_bound(n3) && final(self).ops()
                    == old(self).ops() + #[trigger] write_update_waited_ops(
                    buffer@,
                    profile,
                    n1,
                    n2,
                    n3,
                ),
    {
        if !matches!(self.state, DeviceState::Idle) {
            return Err(DriverError::InvalidState);
        }
        proof {
            lemma_poll_free_write_update(buffer@, profile);
        }
        match self.update_frame(buffer) {
            Ok(()) => {},
            Err(e) => {
                proof {
                    lemma_stream_prefix_aborted(
                        old(self).ops(),
                        self.ops(),
                        frame_path_ops(buffer@),
                    );
                    lemma_aborted_widen(
                        old(self).ops(),
                        self.ops(),
                        frame_path_ops(buffer@),
                        update_ops(profile),
                    );
                }
                return Err(e);
            },
        }
        let ghost mid = self.ops();
        proof {
            assert(mid == old(self).ops() + frame_path_ops(buffer@));
            lemma_writes_of_add(old(self).ops(), frame_path_ops(buffer@));
            lemma_writes_of_poll_free(frame_path_ops(buffer@));
        }
        match self.update(profile) {
            Ok(()) => {},
            Err(e) => {
                proof {
                    let intended = write_update_ops(buffer@, profile);
                    assert(frame_path_ops(buffer@) == intended.subrange(
                        0,
                        frame_path_ops(buffer@).len() as int,
                    )) by {
                        assert(intended.subrange(0, frame_path_ops(buffer@).len() as int)
                            =~= frame_path_ops(buffer@));
                    }
                    assert(update_ops(profile) == intended.subrange(
                        frame_path_ops(buffer@).len() as int,
                        intended.len() as int,
                    )) by {
                        assert(intended.subrange(
                            frame_path_ops(buffer@).len() as int,
                            intended.len() as int,
                        ) =~= update_ops(profile));
                    }
                    lemma_aborted_extend(
                        old(self).ops(),
                        mid,
                        self.ops(),
                        frame_path_ops(buffer@),
                        intended,
                    );
                }
                return Err(e);
            },
        }
        proof {
            let (n1, n2, n3): (nat, nat, nat) = choose|n1: nat, n2: nat, n3: nat|
                wait_in_bound(n1) && wait_in_bound(n2) && wait_in_bound(n3) && self.ops() == mid
                    + #[trigger] update_waited_ops(profile, n1, n2, n3);
            assert(self.ops() =~= old(self).ops() + write_update_waited_ops(
                buffer@,
                profile,
                n1,
                n2,
                n3,
            ));
        }
        Ok(())
    }

    /// Clear the whole black/white plane to the given fill byte, run a full
    /// refresh and wait it out: the canonical blank-the-panel and self-test
    /// operation.
    pub fn clear_frame(&mut self, value: u8) -> (r: Result<(), DriverError>)
        ensures
            old(self).state != DeviceState::Idle ==> r == Err::<(), DriverError>(
                DriverError::InvalidState,
            ) && *final(self) == *old(self),
            old(self).state == DeviceState::Idle ==> final(self).state == DeviceState::Idle && (
            r matches Err(e) ==> hw_failure(e) && aborted_writes(
                old(self).ops(),
                final(self).ops(),
                clear_ops(value),
            )),
            old(self).state == DeviceState::Idle && r is Ok ==> exists|n: nat|
                wait_in_bound(n) && final(self).ops() == old(self).ops()
                    + #[trigger] clear_waited_ops(value, n),
    {
        if !matches!(self.state, DeviceState::Idle) {
            return Err(DriverError::InvalidState);
        }
        let ghost fill = repeat_byte(value, FRAME_BYTES as nat);
        let ghost ff = full_frame_ops();
        let ghost wcmd = cmd_ops(Cmd::WRITE_BW_DATA);
        let ghost fdata = data_ops(fill);
        proof {
            lemma_poll_free_write_update(fill, RefreshProfile::Full);
        }
        match self.use_full_frame() {
            Ok(()) => {},
            Err(e) => {
                proof {
                    lemma_stream_prefix_widen(
                        old(self).ops(),
                        self.ops(),
                        ff,
                        frame_write_ops(fill) + update_ops(RefreshProfile::Full),
                    );
                    assert(ff + (frame_write_ops(fill) + update_ops(RefreshProfile::Full))
                        == clear_ops(value)) by {
                        assert(ff + (frame_write_ops(fill) + update_ops(RefreshProfile::Full))
                            =~= clear_ops(value));
                    }
                    lemma_stream_prefix_aborted(old(self).ops(), self.ops(), clear_ops(value));
                }
                return Err(e);
            },
        }
        match self.interface.cmd(Cmd::WRITE_BW_DATA) {
            Ok(()) => {},
            Err(e) => {
                proof {
                    assert(self.ops() == old(self).ops() + clear_ops(value).subrange(
                        0,
                        ff.len() as int,
                    )) by {
                        assert(old(self).ops() + clear_ops(value).subrange(0, ff.len() as int)
                            =~= old(self).ops() + ff);
                    }
                    lemma_stream_prefix_aborted(old(self).ops(), self.ops(), clear_ops(value));
                }
                return Err(e);
            },
        }
        let ghost mid2 = self.ops();
        proof {
            assert(mid2 == old(self).ops() + (ff + wcmd)) by {
                assert(old(self).ops() + ff + wcmd =~= old(self).ops() + (ff + wcmd));
            }
        }
        match self.interface.data_x_times(value, FRAME_BYTES as u32) {
            Ok(()) => {},
            Err(e) => {
                proof {
                    assert(ff + wcmd == clear_ops(value).subrange(0, (ff + wcmd).len() as int)) by {
                        assert(clear_ops(value).subrange(0, (ff + wcmd).len() as int) =~= ff + wcmd);
                    }
                    assert(fdata == clear_ops(value).subrange(
                        (ff + wcmd).len() as int,
                        ((ff + wcmd).len() + fdata.len()) as int,
                    )) by {
                        assert(clear_ops(value).subrange(
                            (ff + wcmd).len() as int,
                            ((ff + wcmd).len() + fdata.len()) as int,
                        ) =~= fdata);
                    }
                    lemma_stream_prefix_compose(
                        old(self).ops(),
                        mid2,
                        self.ops(),
                        ff + wcmd,
                        fdata,
                        clear_ops(value),
                    );
                    lemma_stream_prefix_aborted(old(self).ops(), self.ops(), clear_ops(value));
                }
                return Err(e);
            },
        }
        let ghost mid3 = self.ops();
        proof {
            assert(mid3 == old(self).ops() + frame_path_ops(fill)) by {
                assert(old(self).ops() + (ff + wcmd) + fdata =~= old(self).ops() + frame_path_ops(
                    fill,
                ));
            }
            lemma_writes_of_add(old(self).ops(), frame_path_ops(fill));
            lemma_writes_of_poll_free(frame_path_ops(fill));
        }
        match self.update(RefreshProfile::Full) {
            Ok(()) => {},
            Err(e) => {
                proof {
                    assert(frame_path_ops(fill) == clear_ops(value).subrange(
                        0,
                        frame_path_ops(fill).len() as int,
                    )) by {
                        assert(clear_ops(value).subrange(0, frame_path_ops(fill).len() as int)
                            =~= frame_path_ops(fill));
                    }
                    assert(update_ops(RefreshProfile::Full) == clear_ops(value).subrange(
                        frame_path_ops(fill).len() as int,
                        clear_ops(value).len() as int,
                    )) by {
                        assert(clear_ops(value).subrange(
                            frame_path_ops(fill).len() as int,
                            clear_ops(value).len() as int,
                        ) =~= update_ops(RefreshProfile::Full));
                    }
                    lemma_aborted_extend(
                        old(self).ops(),
                        mid3,
                        self.ops(),
                        frame_path_ops(fill),
                        clear_ops(value),
                    );
                }
                return Err(e);
            },
        }
        proof {
            let (n1, n2, n3): (nat, nat, nat) = choose|n1: nat, n2: nat, n3: nat|
                wait_in_bound(n1) && wait_in_bound(n2) && wait_in_bound(n3) && self.ops() == mid3
                    + #[trigger] update_waited_ops(RefreshProfile::Full, n1, n2, n3);
            assert(self.ops() =~= old(self).ops() + clear_waited_ops(value, n1));
        }
        Ok(())
    }

    /// Enter deep sleep: exactly the deep-sleep command and its mode byte,
    /// with no busy wait — the busy line stays high in deep sleep.
    /// Afterwards every operation but [`Ssd1680::wake_up`] (hardware reset
    /// plus full re-initialization) is rejected with `InvalidState` before
    /// anything touches the bus.
    pub fn sleep(&mut self) -> (r: Result<(), DriverError>)
        ensures
            old(self).state != DeviceState::Idle ==> r == Err::<(), DriverError>(
                DriverError::InvalidState,
            ) && *final(self) == *old(self),
            old(self).state == DeviceState::Idle && r is Ok ==> final(self).state
                == DeviceState::Sleeping && final(self).ops() == old(self).ops() + sleep_ops(),
            old(self).state == DeviceState::Idle && r is Err ==> r == Err::<(), DriverError>(
                DriverError::BusError,
            ) && final(self).state == DeviceState::Idle && stream_prefix_of(
                old(self).ops(),
                final(self).ops(),
                sleep_ops(),
            ),
    {
        if !matches!(self.state, DeviceState::Idle) {
            return Err(DriverError::InvalidState);
        }
        let sp: [u8; 1] = [Flag::DEEP_SLEEP_MODE_1];
        proof {
            assert(sp@ =~= seq![Flag::DEEP_SLEEP_MODE_1]);
        }
        match self.interface.cmd_with_data(Cmd::DEEP_SLEEP_MODE, &sp) {
            Ok(()) => {},
            Err(e) => {
                return Err(e);
            },
        }
        self.state = DeviceState::Sleeping;
        Ok(())
    }

    /// Poll the busy input until it deasserts, within the fixed bound;
    /// appends poll events only, and reports `Timeout` after exactly the
    /// bound's worth of polls instead of hanging.
    pub fn wait_busy(&mut self) -> (r: Result<(), DriverError>)
        ensures
            final(self).state == old(self).state,
            r is Ok ==> exists|n: nat|
                wait_in_bound(n) && final(self).ops() == old(self).ops()
                    + #[trigger] idle_wait_ops(n),
            r is Err ==> r == Err::<(), DriverError>(DriverError::Timeout) && final(self).ops()
                == old(self).ops() + poll_ops(MAX_BUSY_POLLS as nat),
    {
        self.interface.wait_busy_low()
    }

    /// Send a raw command byte: the bring-up escape hatch.  Rejected only
    /// while the device sleeps, where any command is undefined.
    pub fn direct_cmd(&mut self, command: u8) -> (r: Result<(), DriverError>)
        ensures
            old(self).state == DeviceState::Sleeping ==> r == Err::<(), DriverError>(
                DriverError::InvalidState,
            ) && *final(self) == *old(self),
            old(self).state != DeviceState::Sleeping ==> final(self).state == old(self).state && (
            r is Ok ==> final(self).ops() == old(self).ops() + cmd_ops(command)) && (r is Err ==> r
                == Err::<(), DriverError>(DriverError::BusError) && final(self).ops() == old(
                self,
            ).ops()),
    {
        if matches!(self.state, DeviceState::Sleeping) {
            return Err(DriverError::InvalidState);
        }
        self.interface.cmd(command)
    }

    /// Send raw data bytes: the bring-up escape hatch.  Rejected only while
    /// the device sleeps; a failed write sends at most a prefix.
    pub fn direct_data(&mut self, data: &[u8]) -> (r: Result<(), DriverError>)
        ensures
            old(self).state == DeviceState::Sleeping ==> r == Err::<(), DriverError>(
                DriverError::InvalidState,
            ) && *final(self) == *old(self),
            old(self).state != DeviceState::Sleeping ==> final(self).state == old(self).state && (
            r is Ok ==> final(self).ops() == old(self).ops() + data_ops(data@)) && (r is Err ==> r
                == Err::<(), DriverError>(DriverError::BusError) && stream_prefix_of(
                old(self).ops(),
                final(self).ops(),
                data_ops(data@),
            )),
    {
        if matches!(self.state, DeviceState::Sleeping) {
            return Err(DriverError::InvalidState);
        }
        self.interface.data(data)
    }

    /// Pulse the hardware reset line.  The device may still report busy
    /// afterwards and must be re-initialized: the driver drops back to
    /// `Uninitialized` whatever happens; a failed pulse leaves the stream
    /// unchanged.
    pub fn interface_reset(&mut self) -> (r: Result<(), DriverError>)
        ensures
            final(self).state == DeviceState::Uninitialized,
            r is Ok ==> final(self).ops() == old(self).ops() + seq![BusOp::Reset],
            r is Err ==> r == Err::<(), DriverError>(DriverError::BusError) && final(self).ops()
                == old(self).ops(),
    {
        self.state = DeviceState::Uninitialized;
        self.interface.reset()
    }

    /// Fill the whole black/white plane with one byte, with the border
    /// waveform matched to the fill (white border unless the fill is all
    /// dark), then wait for the controller before returning.  Writes RAM
    /// only: no refresh is triggered.
    pub fn cpp_all_fill(&mut self, color: u8) -> (r: Result<(), DriverError>)
        ensures
            old(self).state != DeviceState::Idle ==> r == Err::<(), DriverError>(
                DriverError::InvalidState,
            ) && *final(self) == *old(self),
            old(self).state == DeviceState::Idle ==> final(self).state == DeviceState::Idle && (
            r matches Err(e) ==> hw_failure(e) && aborted_writes(
                old(self).ops(),
                final(self).ops(),
                all_fill_ops(color),
            )),
            old(self).state == DeviceState::Idle && r is Ok ==> exists|n: nat|
                wait_in_bound(n) && final(self).ops() == old(self).ops()
                    + #[trigger] all_fill_waited_ops(color, n),
    {
        if !matches!(self.state, DeviceState::Idle) {
            return Err(DriverError::InvalidState);
        }
        let border: u8 = if color != 0 {
            Flag::BORDER_WAVEFORM_WHITE
        } else {
            Flag::BORDER_WAVEFORM_BLACK
        };
        let ghost bseg = cmd_data_ops(Cmd::BORDER_WAVEFORM_CONTROL, seq![border]);
        let ghost wcmd = cmd_ops(Cmd::WRITE_BW_DATA);
        let ghost fdata = data_ops(repeat_byte(color, FRAME_BYTES as nat));
        proof {
            lemma_poll_free_cmd_data_ops(Cmd::BORDER_WAVEFORM_CONTROL, seq![border]);
            lemma_poll_free_cmd_data_ops(Cmd::WRITE_BW_DATA, repeat_byte(color, FRAME_BYTES as nat));
            lemma_poll_free_add(bseg, wcmd);
            lemma_poll_free_add(bseg + wcmd, fdata);
            assert(bseg + wcmd + fdata =~= all_fill_ops(color));
        }
        let bp: [u8; 1] = [border];
        proof {
            assert(bp@ =~= seq![border]);
        }
        match self.interface.cmd_with_data(Cmd::BORDER_WAVEFORM_CONTROL, &bp) {
            Ok(()) => {},
            Err(e) => {
                proof {
                    lemma_stream_prefix_widen(old(self).ops(), self.ops(), bseg, wcmd + fdata);
                    assert(bseg + (wcmd + fdata) == all_fill_ops(color)) by {
                        assert(bseg + (wcmd + fdata) =~= all_fill_ops(color));
                    }
                    lemma_stream_prefix_aborted(old(self).ops(), self.ops(), all_fill_ops(color));
                }
                return Err(e);
            },
        }
        match self.interface.cmd(Cmd::WRITE_BW_DATA) {
            Ok(()) => {},
            Err(e) => {
                proof {
                    assert(self.ops() == old(self).ops() + all_fill_ops(color).subrange(
                        0,
                        bseg.len() as int,
                    )) by {
                        assert(old(self).ops() + all_fill_ops(color).subrange(0, bseg.len() as int)
                            =~= old(self).ops() + bseg);
                    }
                    lemma_stream_prefix_aborted(old(self).ops(), self.ops(), all_fill_ops(color));
                }
                return Err(e);
            },
        }
        let ghost mid2 = self.ops();
        proof {
            assert(mid2 == old(self).ops() + (bseg + wcmd)) by {
                assert(old(self).ops() + bseg + wcmd =~= old(self).ops() + (bseg + wcmd));
            }
        }
        match self.interface.data_x_times(color, FRAME_BYTES as u32) {
            Ok(()) => {},
            Err(e) => {
                proof {
                    assert(bseg + wcmd == all_fill_ops(color).subrange(0, (bseg + wcmd).len() as int))
                        by {
                        assert(all_fill_ops(color).subrange(0, (bseg + wcmd).len() as int)
                            =~= bseg + wcmd);
                    }
                    assert(fdata == all_fill_ops(color).subrange(
                        (bseg + wcmd).len() as int,
                        ((bseg + wcmd).len() + fdata.len()) as int,
                    )) by {
                        assert(all_fill_ops(color).subrange(
                            (bseg + wcmd).len() as int,
                            ((bseg + wcmd).len() + fdata.len()) as int,
                        ) =~= fdata);
                    }
                    lemma_stream_prefix_compose(
                        old(self).ops(),
                        mid2,
                        self.ops(),
                        bseg + wcmd,
                        fdata,
                        all_fill_ops(color),
                    );
                    lemma_stream_prefix_aborted(old(self).ops(), self.ops(), all_fill_ops(color));
                }
                return Err(e);
            },
        }
        let ghost mid3 = self.ops();
        proof {
            assert(mid3 == old(self).ops() + all_fill_ops(color)) by {
                assert(old(self).ops() + (bseg + wcmd) + fdata =~= old(self).ops() + all_fill_ops(
                    color,
                ));
            }
        }
        match self.interface.wait_busy_low() {
            Ok(()) => {},
            Err(e) => {
                proof {
                    lemma_all_polls_waits(MAX_BUSY_POLLS as nat);
                    assert(all_fill_ops(color) == all_fill_ops(color).subrange(
                        0,
                        all_fill_ops(color).len() as int,
                    )) by {
                        assert(all_fill_ops(color).subrange(0, all_fill_ops(color).len() as int)
                            =~= all_fill_ops(color));
                    }
                    lemma_aborted_after_writes(
                        old(self).ops(),
                        self.ops(),
                        all_fill_ops(color),
                        poll_ops(MAX_BUSY_POLLS as nat),
                        all_fill_ops(color),
                    );
                }
                return Err(e);
            },
        }
        proof {
            let n = choose|n: nat|
                wait_in_bound(n) && self.ops() == mid3 + #[trigger] idle_wait_ops(n);
            assert(self.ops() =~= old(self).ops() + all_fill_waited_ops(color, n));
        }
        Ok(())
    }

    /// Trigger a full refresh: the two-command activation sequence with the
    /// erratum-corrected option byte, then the busy wait.
    pub fn cpp_update(&mut self) -> (r: Result<(), DriverError>)
        ensures
            old(self).state != DeviceState::Idle ==> r == Err::<(), DriverError>(
                DriverError::InvalidState,
            ) && *final(self) == *old(self),
            old(self).state == DeviceState::Idle ==> final(self).state == DeviceState::Idle && (
            r matches Err(e) ==> hw_failure(e) && aborted_writes(
                old(self).ops(),
                final(self).ops(),
                update_ops(RefreshProfile::Full),
            )),
            old(self).state == DeviceState::Idle && r is Ok ==> exists|n: nat|
                wait_in_bound(n) && final(self).ops() == old(self).ops()
                    + #[trigger] activation_waited_ops(Flag::DISPLAY_UPDATE_FULL, n),
    {
        self.display_frame()
    }

    /// Clear the red RAM plane to all ones, for controllers that want both
    /// planes initialized even when the red plane is unused, then wait for
    /// the controller.
    pub fn cpp_clear_r26h(&mut self) -> (r: Result<(), DriverError>)
        ensures
            old(self).state != DeviceState::Idle ==> r == Err::<(), DriverError>(
                DriverError::InvalidState,
            ) && *final(self) == *old(self),
            old(self).state == DeviceState::Idle ==> final(self).state == DeviceState::Idle && (
            r matches Err(e) ==> hw_failure(e) && aborted_writes(
                old(self).ops(),
                final(self).ops(),
                red_clear_ops(),
            )),
            old(self).state == DeviceState::Idle && r is Ok ==> exists|n: nat|
                wait_in_bound(n) && final(self).ops() == old(self).ops()
                    + #[trigger] red_clear_waited_ops(n),
    {
        if !matches!(self.state, DeviceState::Idle) {
            return Err(DriverError::InvalidState);
        }
        let ghost wcmd = cmd_ops(Cmd::WRITE_RED_DATA);
        let ghost fdata = data_ops(repeat_byte(Flag::FILL_ALL_SET, FRAME_BYTES as nat));
        proof {
            lemma_poll_free_cmd_data_ops(
                Cmd::WRITE_RED_DATA,
                repeat_byte(Flag::FILL_ALL_SET, FRAME_BYTES as nat),
            );
            assert(wcmd + fdata =~= red_clear_ops());
        }
        match self.interface.cmd(Cmd::WRITE_RED_DATA) {
            Ok(()) => {},
            Err(e) => {
                proof {
                    assert(self.ops() == old(self).ops() + red_clear_ops().subrange(0, 0)) by {
                        assert(old(self).ops() + red_clear_ops().subrange(0, 0) =~= old(
                            self,
                        ).ops());
                    }
                    lemma_stream_prefix_aborted(old(self).ops(), self.ops(), red_clear_ops());
                }
                return Err(e);
            },
        }
        let ghost mid = self.ops();
        match self.interface.data_x_times(Flag::FILL_ALL_SET, FRAME_BYTES as u32) {
            Ok(()) => {},
            Err(e) => {
                proof {
                    assert(wcmd == red_clear_ops().subrange(0, wcmd.len() as int)) by {
                        assert(red_clear_ops().subrange(0, wcmd.len() as int) =~= wcmd);
                    }
                    assert(fdata == red_clear_ops().subrange(
                        wcmd.len() as int,
                        (wcmd.len() + fdata.len()) as int,
                    )) by {
                        assert(red_clear_ops().subrange(
                            wcmd.len() as int,
                            (wcmd.len() + fdata.len()) as int,
                        ) =~= fdata);
                    }
                    lemma_stream_prefix_compose(
                        old(self).ops(),
                        mid,
                        self.ops(),
                        wcmd,
                        fdata,
                        red_clear_ops(),
                    );
                    lemma_stream_prefix_aborted(old(self).ops(), self.ops(), red_clear_ops());
                }
                return Err(e);
            },
        }
        let ghost mid2 = self.ops();
        proof {
            assert(mid2 == old(self).ops() + red_clear_ops()) by {
                assert(old(self).ops() + wcmd + fdata =~= old(self).ops() + red_clear_ops());
            }
        }
        match self.interface.wait_busy_low() {
            Ok(()) => {},
            Err(e) => {
                proof {
                    lemma_all_polls_waits(MAX_BUSY_POLLS as nat);
                    assert(red_clear_ops() == red_clear_ops().subrange(
                        0,
                        red_clear_ops().len() as int,
                    )) by {
                        assert(red_clear_ops().subrange(0, red_clear_ops().len() as int)
                            =~= red_clear_ops());
                    }
                    lemma_aborted_after_writes(
                        old(self).ops(),
                        self.ops(),
                        red_clear_ops(),
                        poll_ops(MAX_BUSY_POLLS as nat),
                        red_clear_ops(),
                    );
                }
                return Err(e);
            },
        }
        proof {
            let n = choose|n: nat|
                wait_in_bound(n) && self.ops() == mid2 + #[trigger] idle_wait_ops(n);
            assert(self.ops() =~= old(self).ops() + red_clear_waited_ops(n));
        }
        Ok(())
    }

    /// Write the split self-test pattern — top half all clear, bottom half
    /// all set — and run a full refresh, waiting it out.
    pub fn draw_simple_test_pattern(&mut self) -> (r: Result<(), DriverError>)
        ensures
            old(self).state != DeviceState::Idle ==> r == Err::<(), DriverError>(
                DriverError::InvalidState,
            ) && *final(self) == *old(self),
            old(self).state == DeviceState::Idle ==> final(self).state == DeviceState::Idle && (
            r matches Err(e) ==> hw_failure(e) && aborted_writes(
                old(self).ops(),
                final(self).ops(),
                write_update_ops(split_pattern(), RefreshProfile::Full),
            )),
            old(self).state == DeviceState::Idle && r is Ok ==> exists|n1: nat, n2: nat, n3: nat|
                wait_in_bound(n1) && wait_in_bound(n2) && wait_in_bound(n3) && final(self).ops()
                    == old(self).ops() + #[trigger] write_update_waited_ops(
                    split_pattern(),
                    RefreshProfile::Full,
                    n1,
                    n2,
                    n3,
                ),
    {
        if !matches!(self.state, DeviceState::Idle) {
            return Err(DriverError::InvalidState);
        }
        let mut buffer: Vec<u8> = Vec::new();
        let mut i: usize = 0;
        while i < FRAME_BYTES
            invariant
                i <= FRAME_BYTES,
                buffer@ =~= split_pattern().subrange(0, i as int),
            decreases FRAME_BYTES - i,
        {
            if i < SPLIT_BOUNDARY {
                buffer.push(Flag::FILL_ALL_CLEAR);
            } else {
                buffer.push(Flag::FILL_ALL_SET);
            }
            i = i + 1;
            proof {
                assert(buffer@ =~= split_pattern().subrange(0, i as int));
            }
        }
        proof {
            assert(buffer@ =~= split_pattern());
        }
        self.write_and_update(buffer.as_slice(), RefreshProfile::Full)
    }

    /// Write the inverse split self-test pattern — top half all set, bottom
    /// half all clear — and run a full refresh, waiting it out: together
    /// with [`Ssd1680::draw_simple_test_pattern`] it shows both polarities.
    pub fn white_and_black_test_pattern(&mut self) -> (r: Result<(), DriverError>)
        ensures
            old(self).state != DeviceState::Idle ==> r == Err::<(), DriverError>(
                DriverError::InvalidState,
            ) && *final(self) == *old(self),
            old(self).state == DeviceState::Idle ==> final(self).state == DeviceState::Idle && (
            r matches Err(e) ==> hw_failure(e) && aborted_writes(
                old(self).ops(),
                final(self).ops(),
                write_update_ops(split_pattern_inverse(), RefreshProfile::Full),
            )),
            old(self).state == DeviceState::Idle && r is Ok ==> exists|n1: nat, n2: nat, n3: nat|
                wait_in_bound(n1) && wait_in_bound(n2) && wait_in_bound(n3) && final(self).ops()
                    == old(self).ops() + #[trigger] write_update_waited_ops(
                    split_pattern_inverse(),
                    RefreshProfile::Full,
                    n1,
                    n2,
                    n3,
                ),
    {
        if !matches!(self.state, DeviceState::Idle) {
            return Err(DriverError::InvalidState);
        }
        let mut buffer: Vec<u8> = Vec::new();
        let mut i: usize = 0;
        while i < FRAME_BYTES
            invariant
                i <= FRAME_BYTES,
                buffer@ =~= split_pattern_inverse().subrange(0, i as int),
            decreases FRAME_BYTES - i,
        {
            if i < SPLIT_BOUNDARY {
                buffer.push(Flag::FILL_ALL_SET);
            } else {
                buffer.push(Flag::FILL_ALL_CLEAR);
            }
            i = i + 1;
            proof {
                assert(buffer@ =~= split_pattern_inverse().subrange(0, i as int));
            }
        }
        proof {
            assert(buffer@ =~= split_pattern_inverse());
        }
        self.write_and_update(buffer.as_slice(), RefreshProfile::Full)
    }

    /// Load one of the two waveform tables into the controller; the table
    /// stays active until another is loaded or the controller resets.
    pub fn load_lut(&mut self, table: LutTable) -> (r: Result<(), DriverError>)
        ensures
            old(self).state != DeviceState::Idle ==> r == Err::<(), DriverError>(
                DriverError::InvalidState,
            ) && *final(self) == *old(self),
            old(self).state == DeviceState::Idle ==> final(self).state == DeviceState::Idle && (r
                is Err ==> r == Err::<(), DriverError>(DriverError::BusError) && stream_prefix_of(
                old(self).ops(),
                final(self).ops(),
                cmd_data_ops(Cmd::WRITE_LUT_REGISTER, lut_table_spec(table)),
            )),
            old(self).state == DeviceState::Idle && r is Ok ==> final(self).ops() == old(
                self,
            ).ops() + cmd_data_ops(Cmd::WRITE_LUT_REGISTER, lut_table_spec(table)),
    {
        if !matches!(self.state, DeviceState::Idle) {
            return Err(DriverError::InvalidState);
        }
        let lut = match table {
            LutTable::FullUpdate => lut_full_update(),
            LutTable::FastUpdate => lut_fast_update(),
        };
        self.set_lut(&lut)
    }
}

/// The executable profile-to-byte lookup.
pub fn profile_byte(profile: RefreshProfile) -> (b: u8)
    ensures
        b == profile_option_byte(profile),
{
    match profile {
        RefreshProfile::Full => Flag::DISPLAY_UPDATE_FULL,
        RefreshProfile::Fast => Flag::DISPLAY_UPDATE_FAST,
        RefreshProfile::Partial => Flag::DISPLAY_UPDATE_PARTIAL_1,
    }
}

/// The events of `sleep`: the deep-sleep command with mode 1, and no poll.
pub open spec fn sleep_ops() -> Seq<BusOp> {
    cmd_data_ops(Cmd::DEEP_SLEEP_MODE, seq![Flag::DEEP_SLEEP_MODE_1])
}

/// The write events of `cpp_all_fill(color)`.
pub open spec fn all_fill_ops(color: u8) -> Seq<BusOp> {
    cmd_data_ops(
        Cmd::BORDER_WAVEFORM_CONTROL,
        seq![
            if color != 0 {
                Flag::BORDER_WAVEFORM_WHITE
            } else {
                Flag::BORDER_WAVEFORM_BLACK
            },
        ],
    ) + cmd_ops(Cmd::WRITE_BW_DATA) + data_ops(repeat_byte(color, FRAME_BYTES as nat))
}

/// The full event stream of a successful `cpp_all_fill(color)`.
pub open spec fn all_fill_waited_ops(color: u8, n: nat) -> Seq<BusOp> {
    all_fill_ops(color) + idle_wait_ops(n)
}

/// The write events of `cpp_clear_r26h`.
pub open spec fn red_clear_ops() -> Seq<BusOp> {
    cmd_ops(Cmd::WRITE_RED_DATA) + data_ops(repeat_byte(Flag::FILL_ALL_SET, FRAME_BYTES as nat))
}

/// The full event stream of a successful `cpp_clear_r26h`.
pub open spec fn red_clear_waited_ops(n: nat) -> Seq<BusOp> {
    red_clear_ops() + idle_wait_ops(n)
}

/// First framebuffer byte of the lower half of the panel.
pub const SPLIT_BOUNDARY: usize = 2368;

/// The split self-test pattern: the top half of the rows all clear, the
/// bottom half all set.
pub open spec fn split_pattern() -> Seq<u8> {
    Seq::new(
        FRAME_BYTES as nat,
        |i: int|
            if i < SPLIT_BOUNDARY {
                Flag::FILL_ALL_CLEAR
            } else {
                Flag::FILL_ALL_SET
            },
    )
}

/// The inverse split pattern: the top half of the rows all set, the bottom
/// half all clear.
pub open spec fn split_pattern_inverse() -> Seq<u8> {
    Seq::new(
        FRAME_BYTES as nat,
        |i: int|
            if i < SPLIT_BOUNDARY {
                Flag::FILL_ALL_SET
            } else {
                Flag::FILL_ALL_CLEAR
            },
    )
}

/// The full profile's option byte is the erratum-corrected value, and not
/// the controller's documented power-on default (which is the byte the fast
/// sequence uses only for its closing activation): the profile-to-byte
/// mapping is a fixed lookup table.
pub proof fn lemma_full_profile_erratum()
    ensures
        profile_option_byte(RefreshProfile::Full) == Flag::DISPLAY_UPDATE_FULL,
        profile_option_byte(RefreshProfile::Full) != Flag::DISPLAY_UPDATE_PARTIAL_2,
        update_ops(RefreshProfile::Full) == activation_ops(Flag::DISPLAY_UPDATE_FULL),
{
}

/// Round trip through the write path: the data bytes recoverable from the
/// frame-write segment of the event stream are exactly the framebuffer
/// bytes that were handed in.
pub proof fn lemma_write_path_round_trip(frame: Seq<u8>)
    ensures
        data_payload(frame_write_ops(frame)) == frame,
{
    lemma_payload_round_trip(Cmd::WRITE_BW_DATA, frame);
}

/// Round trip of a clear: its write segment carries exactly the fill byte
/// repeated over the full frame length, and the whole clear is that write
/// segment between the window programming and the full refresh.
pub proof fn lemma_clear_fill_round_trip(value: u8)
    ensures
        clear_ops(value) == frame_path_ops(repeat_byte(value, FRAME_BYTES as nat)) + update_ops(
            RefreshProfile::Full,
        ),
        data_payload(frame_write_ops(repeat_byte(value, FRAME_BYTES as nat))) == repeat_byte(
            value,
            FRAME_BYTES as nat,
        ),
        repeat_byte(value, FRAME_BYTES as nat).len() == FRAME_BYTES,
{
    lemma_write_path_round_trip(repeat_byte(value, FRAME_BYTES as nat));
}

/// Busy waits carry no writes: the commanded write sequence of a completed
/// initialization, wait runs aside, is exactly [`init_ops`].
pub proof fn lemma_init_waited_writes(n1: nat, n2: nat)
    ensures
        writes_of(init_waited_ops(n1, n2)) == init_ops(),
{
    lemma_poll_free_init();
    lemma_all_polls_waits(n1);
    lemma_all_polls_waits(n2);
    let pre = seq![BusOp::Reset] + cmd_ops(Cmd::SW_RESET);
    lemma_writes_through(Seq::empty(), pre, idle_wait_ops(n1));
    let m = Seq::<BusOp>::empty() + pre + idle_wait_ops(n1);
    lemma_writes_of_add(m, init_config_ops());
    lemma_writes_of_poll_free(init_config_ops());
    lemma_writes_of_add(m + init_config_ops(), idle_wait_ops(n2));
    lemma_writes_of_polls(idle_wait_ops(n2));
    assert(init_waited_ops(n1, n2) =~= m + init_config_ops() + idle_wait_ops(n2));
    assert(writes_of(init_waited_ops(n1, n2)) =~= init_ops()) by {
        assert(writes_of(Seq::<BusOp>::empty()) =~= Seq::<BusOp>::empty());
    }
}

/// Busy waits carry no writes: the commanded write sequence of a completed
/// update, wait runs aside, is exactly [`update_ops`] of its profile.
pub proof fn lemma_update_waited_writes(p: RefreshProfile, n1: nat, n2: nat, n3: nat)
    ensures
        writes_of(update_waited_ops(p, n1, n2, n3)) == update_ops(p),
{
    lemma_all_polls_waits(n1);
    lemma_all_polls_waits(n2);
    lemma_all_polls_waits(n3);
    lemma_poll_free_activation(Flag::DISPLAY_UPDATE_FAST);
    lemma_poll_free_activation(Flag::DISPLAY_UPDATE_PARTIAL_1);
    lemma_poll_free_activation(Flag::DISPLAY_UPDATE_PARTIAL_2);
    lemma_poll_free_activation(profile_option_byte(p));
    lemma_poll_free_cmd_data_ops(Cmd::TEMP_CONTROL_WRITE, seq![0x64u8, 0x00u8]);
    match p {
        RefreshProfile::Fast => {
            let a1 = activation_ops(Flag::DISPLAY_UPDATE_FAST);
            let ts = cmd_data_ops(Cmd::TEMP_CONTROL_WRITE, seq![0x64u8, 0x00u8]);
            let a2 = activation_ops(Flag::DISPLAY_UPDATE_PARTIAL_1);
            let a3 = activation_ops(Flag::DISPLAY_UPDATE_PARTIAL_2);
            lemma_writes_through(Seq::empty(), a1, idle_wait_ops(n1));
            let m1 = Seq::<BusOp>::empty() + a1 + idle_wait_ops(n1);
            lemma_writes_of_add(m1, ts);
            lemma_writes_of_poll_free(ts);
            lemma_writes_through(m1 + ts, a2, idle_wait_ops(n2));
            let m2 = m1 + ts + a2 + idle_wait_ops(n2);
            lemma_writes_through(m2, a3, idle_wait_ops(n3));
            assert(update_waited_ops(p, n1, n2, n3) =~= m2 + a3 + idle_wait_ops(n3));
            assert(writes_of(update_waited_ops(p, n1, n2, n3)) =~= update_ops(p)) by {
                assert(writes_of(Seq::<BusOp>::empty()) =~= Seq::<BusOp>::empty());
            }
        },
        _ => {
            let a = activation_ops(profile_option_byte(p));
            lemma_writes_through(Seq::empty(), a, idle_wait_ops(n1));
            assert(update_waited_ops(p, n1, n2, n3) =~= Seq::<BusOp>::empty() + a + idle_wait_ops(
                n1,
            ));
            assert(writes_of(update_waited_ops(p, n1, n2, n3)) =~= update_ops(p)) by {
                assert(writes_of(Seq::<BusOp>::empty()) =~= Seq::<BusOp>::empty());
            }
        },
    }
}

} // verus!
