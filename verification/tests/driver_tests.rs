// Driver tests against a recording port double: the exact command/data
// sequences of initialization, clears, frame writes, refresh profiles,
// the bounded busy wait, and the lifecycle state machine.

use ssd1680::driver::{profile_byte, DeviceState, LutTable, RefreshProfile, Ssd1680};
use ssd1680::interface::DisplayInterface;
use ssd1680::transport::{BusOp, BusPort, DriverError, MAX_BUSY_POLLS};
use ssd1680::FRAME_BYTES;
use vstd::prelude::Seq;

/// A recording port: logs every bus operation, counts busy polls, and can
/// be told to stay busy forever or to fail every write.
struct MockPort {
    ops: Vec<BusOp>,
    polls: u64,
    always_busy: bool,
    fail_writes: bool,
}

impl MockPort {
    fn idle() -> MockPort {
        MockPort { ops: Vec::new(), polls: 0, always_busy: false, fail_writes: false }
    }
}

impl BusPort for MockPort {
    fn ops(&self) -> Seq<BusOp> {
        panic!("ghost view; never called at run time")
    }

    fn hardware_reset(&mut self) -> Result<(), DriverError> {
        if self.fail_writes {
            return Err(DriverError::BusError);
        }
        self.ops.push(BusOp::Reset);
        Ok(())
    }

    fn send_command(&mut self, c: u8) -> Result<(), DriverError> {
        if self.fail_writes {
            return Err(DriverError::BusError);
        }
        self.ops.push(BusOp::Command(c));
        Ok(())
    }

    fn send_data(&mut self, payload: &[u8]) -> Result<(), DriverError> {
        if self.fail_writes {
            return Err(DriverError::BusError);
        }
        for &b in payload {
            self.ops.push(BusOp::DataByte(b));
        }
        Ok(())
    }

    fn read_busy(&mut self) -> bool {
        self.polls += 1;
        self.ops.push(BusOp::Poll(self.always_busy));
        self.always_busy
    }
}

fn push_cmd_data(ops: &mut Vec<BusOp>, c: u8, data: &[u8]) {
    ops.push(BusOp::Command(c));
    for &b in data {
        ops.push(BusOp::DataByte(b));
    }
}

/// The full-panel RAM window and counter programming.
fn push_full_frame(ops: &mut Vec<BusOp>) {
    push_cmd_data(ops, 0x44, &[0x00, 0x0F]);
    push_cmd_data(ops, 0x45, &[0x00, 0x00, 0x27, 0x01]);
    push_cmd_data(ops, 0x4E, &[0x00]);
    push_cmd_data(ops, 0x4F, &[0x00, 0x00]);
}

/// One display activation with the given option byte, and the single idle
/// poll an always-idle port answers its busy wait with.
fn push_activation(ops: &mut Vec<BusOp>, option_byte: u8) {
    push_cmd_data(ops, 0x22, &[option_byte]);
    ops.push(BusOp::Command(0x20));
    ops.push(BusOp::Poll(false));
}

fn expected_init_ops() -> Vec<BusOp> {
    let lut: [u8; 70] = [
        0x02, 0x02, 0x01, 0x11, 0x12, 0x12, 0x22, 0x22, 0x22, 0x22, 0x22, 0x22, 0x22, 0x22, 0x00,
        0x00, 0x00, 0x00, 0x00, 0x00, 0x00, 0x00, 0x00, 0x00, 0x00, 0x00, 0x00, 0x00, 0x00, 0x00,
        0x00, 0x00, 0x00, 0x00, 0x00, 0x04, 0x14, 0x0A, 0x14, 0x01, 0x00, 0x00, 0x00, 0x00, 0x00,
        0x00, 0x00, 0x00, 0x00, 0x00, 0x00, 0x00, 0x00, 0x00, 0x00, 0x00, 0x00, 0x00, 0x00, 0x00,
        0x00, 0x00, 0x00, 0x00, 0x00, 0x00, 0x00, 0x00, 0x00, 0x00,
    ];
    let mut ops = Vec::new();
    ops.push(BusOp::Reset);
    ops.push(BusOp::Command(0x12));
    ops.push(BusOp::Poll(false));
    push_cmd_data(&mut ops, 0x01, &[0x27, 0x01, 0x00]);
    push_cmd_data(&mut ops, 0x11, &[0x03]);
    push_full_frame(&mut ops);
    push_cmd_data(&mut ops, 0x3C, &[0x01]);
    push_cmd_data(&mut ops, 0x18, &[0x80]);
    push_cmd_data(&mut ops, 0x0C, &[0x17, 0x17, 0x17]);
    push_cmd_data(&mut ops, 0x03, &[0x19]);
    push_cmd_data(&mut ops, 0x04, &[0x02, 0x0C, 0x0C]);
    push_cmd_data(&mut ops, 0x2C, &[0x28]);
    push_cmd_data(&mut ops, 0x32, &lut);
    ops.push(BusOp::Poll(false));
    ops
}

fn init_driver() -> Ssd1680<MockPort> {
    let driver = Ssd1680::new(MockPort::idle()).expect("init against an idle mock must succeed");
    driver
}

#[test]
fn init_emits_documented_sequence() {
    let driver = init_driver();
    assert_eq!(driver.interface.port.ops, expected_init_ops());
    assert_eq!(driver.state, DeviceState::Idle);
}

#[test]
fn init_polls_busy_after_software_reset_and_at_end() {
    let driver = init_driver();
    // An always-idle mock is polled exactly once per busy wait, and init
    // waits twice: after the software reset and after the configuration.
    assert_eq!(driver.interface.port.polls, 2);
}

#[test]
fn clear_white_writes_full_frame_of_ff() {
    let mut driver = init_driver();
    let before = driver.interface.port.ops.len();
    driver.clear_frame(0xFF).expect("clear must succeed on the idle mock");
    let tail = &driver.interface.port.ops[before..];

    let mut expected = Vec::new();
    push_full_frame(&mut expected);
    expected.push(BusOp::Command(0x24));
    for _ in 0..FRAME_BYTES {
        expected.push(BusOp::DataByte(0xFF));
    }
    push_activation(&mut expected, 0xF4);
    assert_eq!(tail, expected.as_slice());

    // Read back the bytes recorded after the RAM-write command: exactly
    // width/8 * height = 4736 bytes of 0xFF.
    let write_at = before + 13;
    assert_eq!(driver.interface.port.ops[write_at], BusOp::Command(0x24));
    let data = &driver.interface.port.ops[write_at + 1..write_at + 1 + FRAME_BYTES];
    assert_eq!(data.len(), 4736);
    assert!(data.iter().all(|op| *op == BusOp::DataByte(0xFF)));
}

#[test]
fn clear_black_writes_full_frame_of_zero() {
    let mut driver = init_driver();
    let before = driver.interface.port.ops.len();
    driver.clear_frame(0x00).expect("clear must succeed on the idle mock");
    let tail = &driver.interface.port.ops[before..];
    let data: Vec<&BusOp> =
        tail.iter().filter(|op| matches!(op, BusOp::DataByte(_))).collect();
    // Window bytes (9), the frame fill (4736) and the option byte (1).
    assert_eq!(data.len(), 9 + FRAME_BYTES + 1);
    let fill = &tail[14..14 + FRAME_BYTES];
    assert!(fill.iter().all(|op| *op == BusOp::DataByte(0x00)));
}

#[test]
fn update_full_uses_erratum_byte() {
    // The full profile must use the empirically validated option byte, not
    // the controller's documented default.
    assert_eq!(profile_byte(RefreshProfile::Full), 0xF4);
    assert_ne!(profile_byte(RefreshProfile::Full), 0xC7);

    let mut driver = init_driver();
    let before = driver.interface.port.ops.len();
    driver.update(RefreshProfile::Full).expect("update must succeed on the idle mock");
    let tail = &driver.interface.port.ops[before..];
    // The activation is followed by its busy wait before the call returns.
    assert_eq!(
        tail,
        &[
            BusOp::Command(0x22),
            BusOp::DataByte(0xF4),
            BusOp::Command(0x20),
            BusOp::Poll(false)
        ]
    );
}

#[test]
fn update_partial_uses_partial_byte() {
    let mut driver = init_driver();
    let before = driver.interface.port.ops.len();
    driver.update(RefreshProfile::Partial).expect("update must succeed on the idle mock");
    let tail = &driver.interface.port.ops[before..];
    assert_eq!(
        tail,
        &[
            BusOp::Command(0x22),
            BusOp::DataByte(0x91),
            BusOp::Command(0x20),
            BusOp::Poll(false)
        ]
    );
}

#[test]
fn fast_update_runs_three_activations_with_temperature_override() {
    let mut driver = init_driver();
    let before = driver.interface.port.ops.len();
    driver.fast_update().expect("fast update must succeed on the idle mock");
    let tail = &driver.interface.port.ops[before..];

    let mut expected = Vec::new();
    push_activation(&mut expected, 0xB1);
    push_cmd_data(&mut expected, 0x1A, &[0x64, 0x00]);
    push_activation(&mut expected, 0x91);
    push_activation(&mut expected, 0xC7);
    assert_eq!(tail, expected.as_slice());
}

#[test]
fn wait_idle_times_out_at_bound() {
    // A busy input that never deasserts must produce Timeout after exactly
    // the configured number of polls, never hang.
    let mut port = MockPort::idle();
    port.always_busy = true;
    let mut driver = Ssd1680::from_interface(DisplayInterface::new(port));
    let r = driver.wait_busy();
    assert_eq!(r, Err(DriverError::Timeout));
    assert_eq!(driver.interface.port.polls, MAX_BUSY_POLLS as u64);
    // The stream holds the exhausted wait's polls and nothing else: the
    // wait performed no write.
    assert_eq!(driver.interface.port.ops.len(), MAX_BUSY_POLLS as usize);
    assert!(driver.interface.port.ops.iter().all(|op| *op == BusOp::Poll(true)));
}

#[test]
fn wait_idle_returns_once_deasserted() {
    let mut driver = init_driver();
    let polls_before = driver.interface.port.polls;
    assert_eq!(driver.wait_busy(), Ok(()));
    assert_eq!(driver.interface.port.polls, polls_before + 1);
    assert_eq!(driver.interface.port.ops.last(), Some(&BusOp::Poll(false)));
}

#[test]
fn init_against_always_busy_times_out() {
    let mut port = MockPort::idle();
    port.always_busy = true;
    let r = Ssd1680::new(port);
    assert!(matches!(r, Err(DriverError::Timeout)));
}

#[test]
fn bus_failure_aborts_init() {
    let mut port = MockPort::idle();
    port.fail_writes = true;
    let r = Ssd1680::new(port);
    assert!(matches!(r, Err(DriverError::BusError)));
}

fn checkerboard() -> Vec<u8> {
    // Alternate 0xAA / 0x55 row by row: a one-pixel checkerboard.
    let mut buffer = Vec::with_capacity(FRAME_BYTES);
    for i in 0..FRAME_BYTES {
        let row = i / 16;
        buffer.push(if row % 2 == 0 { 0xAA } else { 0x55 });
    }
    buffer
}

#[test]
fn scenario_clear_write_sleep_then_rejected() {
    // Construct, initialize, clear to white, write a checkerboard, sleep;
    // afterwards any clear must be rejected without touching the port.
    let mut driver = init_driver();
    driver.clear_frame(0xFF).expect("clear must succeed on the idle mock");

    let board = checkerboard();
    let before = driver.interface.port.ops.len();
    driver
        .write_and_update(board.as_slice(), RefreshProfile::Full)
        .expect("write and update must succeed on the idle mock");

    // The frame-write segment carries the checkerboard verbatim.
    let write_at = before + 13;
    assert_eq!(driver.interface.port.ops[write_at], BusOp::Command(0x24));
    for (i, &b) in board.iter().enumerate() {
        assert_eq!(driver.interface.port.ops[write_at + 1 + i], BusOp::DataByte(b));
    }

    driver.sleep().expect("sleep must succeed on the idle mock");
    assert_eq!(driver.state, DeviceState::Sleeping);

    let frozen = driver.interface.port.ops.len();
    let polls = driver.interface.port.polls;
    assert_eq!(driver.clear_frame(0xFF), Err(DriverError::InvalidState));
    assert_eq!(driver.clear_frame(0x00), Err(DriverError::InvalidState));
    assert_eq!(driver.update(RefreshProfile::Full), Err(DriverError::InvalidState));
    assert_eq!(driver.interface.port.ops.len(), frozen);
    assert_eq!(driver.interface.port.polls, polls);
}

#[test]
fn sleep_emits_deep_sleep_command() {
    let mut driver = init_driver();
    let before = driver.interface.port.ops.len();
    driver.sleep().expect("sleep must succeed on the idle mock");
    let tail = &driver.interface.port.ops[before..];
    // Exactly the deep-sleep command and its mode byte: no busy poll, the
    // busy line stays high in deep sleep.
    assert_eq!(tail, &[BusOp::Command(0x10), BusOp::DataByte(0x01)]);
}

#[test]
fn wake_up_reinitializes_after_sleep() {
    let mut driver = init_driver();
    driver.sleep().expect("sleep must succeed on the idle mock");
    let before = driver.interface.port.ops.len();
    driver.wake_up().expect("wake up must succeed on the idle mock");
    assert_eq!(driver.state, DeviceState::Idle);
    // Recovery is a hardware reset plus the full initialization sequence.
    assert_eq!(&driver.interface.port.ops[before..], expected_init_ops().as_slice());
    driver.clear_frame(0xFF).expect("the woken device accepts commands again");
}

#[test]
fn operations_rejected_before_init() {
    let mut driver = Ssd1680::from_interface(DisplayInterface::new(MockPort::idle()));
    assert_eq!(driver.state, DeviceState::Uninitialized);
    assert_eq!(driver.clear_frame(0xFF), Err(DriverError::InvalidState));
    assert_eq!(driver.display_frame(), Err(DriverError::InvalidState));
    assert_eq!(driver.sleep(), Err(DriverError::InvalidState));
    let board = checkerboard();
    assert_eq!(
        driver.write_and_update(board.as_slice(), RefreshProfile::Full),
        Err(DriverError::InvalidState)
    );
    assert!(driver.interface.port.ops.is_empty());
}

#[test]
fn direct_access_rejected_only_while_sleeping() {
    let mut driver = init_driver();
    driver.direct_cmd(0xE3).expect("raw command accepted while idle");
    driver.sleep().expect("sleep must succeed on the idle mock");
    let frozen = driver.interface.port.ops.len();
    assert_eq!(driver.direct_cmd(0xE3), Err(DriverError::InvalidState));
    assert_eq!(driver.direct_data(&[0x00]), Err(DriverError::InvalidState));
    assert_eq!(driver.interface.port.ops.len(), frozen);
}

#[test]
fn interface_reset_drops_to_uninitialized() {
    let mut driver = init_driver();
    driver.interface_reset().expect("reset must succeed on the idle mock");
    assert_eq!(driver.state, DeviceState::Uninitialized);
    assert_eq!(driver.interface.port.ops.last(), Some(&BusOp::Reset));
    assert_eq!(driver.clear_frame(0xFF), Err(DriverError::InvalidState));
}

#[test]
fn update_frame_writes_buffer_verbatim() {
    let mut driver = init_driver();
    let board = checkerboard();
    let before = driver.interface.port.ops.len();
    driver.update_frame(board.as_slice()).expect("frame write must succeed on the idle mock");
    let tail = &driver.interface.port.ops[before..];

    let mut expected = Vec::new();
    push_full_frame(&mut expected);
    expected.push(BusOp::Command(0x24));
    for &b in &board {
        expected.push(BusOp::DataByte(b));
    }
    assert_eq!(tail, expected.as_slice());
}

#[test]
fn update_frame_with_inversion_flips_every_byte() {
    let mut driver = init_driver();
    let board = checkerboard();
    let before = driver.interface.port.ops.len();
    driver
        .update_frame_with_inversion(board.as_slice(), true)
        .expect("frame write must succeed on the idle mock");
    let write_at = before + 13;
    assert_eq!(driver.interface.port.ops[write_at], BusOp::Command(0x24));
    for (i, &b) in board.iter().enumerate() {
        assert_eq!(driver.interface.port.ops[write_at + 1 + i], BusOp::DataByte(!b));
    }
}

#[test]
fn cpp_all_fill_sets_border_and_fills() {
    let mut driver = init_driver();
    let before = driver.interface.port.ops.len();
    driver.cpp_all_fill(0x00).expect("fill must succeed on the idle mock");
    let tail = &driver.interface.port.ops[before..];
    // A dark fill selects the black border waveform.
    assert_eq!(tail[0], BusOp::Command(0x3C));
    assert_eq!(tail[1], BusOp::DataByte(0x00));
    assert_eq!(tail[2], BusOp::Command(0x24));
    assert_eq!(tail.len(), 3 + FRAME_BYTES + 1);
    assert!(tail[3..3 + FRAME_BYTES].iter().all(|op| *op == BusOp::DataByte(0x00)));
    assert_eq!(tail[3 + FRAME_BYTES], BusOp::Poll(false));
}

#[test]
fn cpp_clear_r26h_fills_red_plane() {
    let mut driver = init_driver();
    let before = driver.interface.port.ops.len();
    driver.cpp_clear_r26h().expect("red clear must succeed on the idle mock");
    let tail = &driver.interface.port.ops[before..];
    assert_eq!(tail[0], BusOp::Command(0x26));
    assert_eq!(tail.len(), 1 + FRAME_BYTES + 1);
    assert!(tail[1..1 + FRAME_BYTES].iter().all(|op| *op == BusOp::DataByte(0xFF)));
    assert_eq!(tail[1 + FRAME_BYTES], BusOp::Poll(false));
}

#[test]
fn draw_simple_test_pattern_splits_the_panel() {
    let mut driver = init_driver();
    let before = driver.interface.port.ops.len();
    driver.draw_simple_test_pattern().expect("pattern must succeed on the idle mock");
    let write_at = before + 13;
    assert_eq!(driver.interface.port.ops[write_at], BusOp::Command(0x24));
    let data = &driver.interface.port.ops[write_at + 1..write_at + 1 + FRAME_BYTES];
    assert!(data[..2368].iter().all(|op| *op == BusOp::DataByte(0x00)));
    assert!(data[2368..].iter().all(|op| *op == BusOp::DataByte(0xFF)));
}

#[test]
fn white_and_black_test_pattern_splits_the_other_way() {
    let mut driver = init_driver();
    let before = driver.interface.port.ops.len();
    driver.white_and_black_test_pattern().expect("pattern must succeed on the idle mock");
    let write_at = before + 13;
    assert_eq!(driver.interface.port.ops[write_at], BusOp::Command(0x24));
    let data = &driver.interface.port.ops[write_at + 1..write_at + 1 + FRAME_BYTES];
    assert!(data[..2368].iter().all(|op| *op == BusOp::DataByte(0xFF)));
    assert!(data[2368..].iter().all(|op| *op == BusOp::DataByte(0x00)));
}

#[test]
fn load_lut_writes_selected_waveform_table() {
    let fast_lut: [u8; 70] = [
        0x40, 0x00, 0x00, 0x00, 0x00, 0x00, 0x00, 0x80, 0x00, 0x00, 0x00, 0x00, 0x00, 0x00, 0x40,
        0x00, 0x00, 0x00, 0x00, 0x00, 0x00, 0x80, 0x00, 0x00, 0x00, 0x00, 0x00, 0x00, 0x00, 0x00,
        0x00, 0x00, 0x00, 0x00, 0x00, 0x0A, 0x00, 0x00, 0x00, 0x00, 0x00, 0x00, 0x00, 0x00, 0x00,
        0x00, 0x00, 0x00, 0x00, 0x00, 0x00, 0x00, 0x00, 0x00, 0x00, 0x00, 0x00, 0x00, 0x00, 0x00,
        0x00, 0x00, 0x00, 0x00, 0x00, 0x00, 0x00, 0x00, 0x00, 0x00,
    ];
    let mut driver = init_driver();
    let before = driver.interface.port.ops.len();
    driver.load_lut(LutTable::FastUpdate).expect("LUT load must succeed on the idle mock");
    let tail = &driver.interface.port.ops[before..];
    let mut expected = Vec::new();
    push_cmd_data(&mut expected, 0x32, &fast_lut);
    assert_eq!(tail, expected.as_slice());

    driver.sleep().expect("sleep must succeed on the idle mock");
    assert_eq!(driver.load_lut(LutTable::FullUpdate), Err(DriverError::InvalidState));
}

#[test]
fn cpp_update_matches_full_activation() {
    let mut driver = init_driver();
    let before = driver.interface.port.ops.len();
    driver.cpp_update().expect("update must succeed on the idle mock");
    let tail = &driver.interface.port.ops[before..];
    assert_eq!(
        tail,
        &[
            BusOp::Command(0x22),
            BusOp::DataByte(0xF4),
            BusOp::Command(0x20),
            BusOp::Poll(false)
        ]
    );
}

#[test]
fn updating_emits_full_activation() {
    let mut interface = DisplayInterface::new(MockPort::idle());
    interface.updating().expect("activation must succeed on the idle mock");
    assert_eq!(
        interface.port.ops,
        vec![
            BusOp::Command(0x22),
            BusOp::DataByte(0xF4),
            BusOp::Command(0x20),
            BusOp::Poll(false)
        ]
    );
    assert_eq!(interface.port.polls, 1);
}

#[test]
fn wait_busy_low_times_out_on_interface() {
    let mut port = MockPort::idle();
    port.always_busy = true;
    let mut interface = DisplayInterface::new(port);
    assert_eq!(interface.wait_busy_low(), Err(DriverError::Timeout));
    assert_eq!(interface.port.polls, MAX_BUSY_POLLS as u64);
    assert!(interface.port.ops.iter().all(|op| *op == BusOp::Poll(true)));
}
