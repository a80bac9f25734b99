//! The framing layer between the controller driver and the physical port.
//!
//! A [`DisplayInterface`] owns the only [`BusPort`] handle and turns logical
//! operations — a command, a command with payload, a large repeated-value
//! fill, a bounded busy wait — into port events.  Its contracts state
//! exactly which [`BusOp`] sequence each call appends on success, and that
//! a failed call appends at most a prefix of that sequence: the driver
//! above it can pin down whole protocol runs byte for byte, busy waits
//! included.

use vstd::prelude::*;

use crate::cmd::Cmd;
use crate::flag::Flag;
use crate::transport::{aborted_writes, cmd_data_ops, cmd_ops, data_ops, repeat_byte};
use crate::transport::{idle_wait_ops, poll_ops, stream_prefix_of, wait_in_bound};
use crate::transport::{lemma_poll_free_cmd_data_ops, lemma_stream_prefix_aborted};
use crate::transport::{BusOp, BusPort, DriverError, MAX_BUSY_POLLS};

verus! {

/// Size of the staging buffer used to send a repeated byte in blocks
/// instead of one write call per byte.
pub const FILL_CHUNK: usize = 32;

/// The write events of one full-refresh activation: the update-control-2
/// option byte for the full profile, then master activation.
pub open spec fn full_activation_ops() -> Seq<BusOp> {
    cmd_data_ops(Cmd::DISPLAY_UPDATE_CTRL2, seq![Flag::DISPLAY_UPDATE_FULL]) + cmd_ops(
        Cmd::MASTER_ACTIVATE,
    )
}

/// The framing layer: owns the port and frames commands and data across it.
///
/// It holds no state beyond the port itself; the busy wait is the only
/// blocking point in the whole driver.
pub struct DisplayInterface<P: BusPort> {
    /// The physical port; the interface holds the only handle to it.
    pub port: P,
}

impl<P: BusPort> DisplayInterface<P> {
    /// The bus events performed through this interface so far.
    pub open spec fn ops(&self) -> Seq<BusOp> {
        self.port.ops()
    }

    /// Wrap a port; performs no bus activity.
    pub fn new(port: P) -> (r: Self)
        ensures
            r.ops() == port.ops(),
    {
        DisplayInterface { port }
    }

    /// Send one command byte.  A failed write leaves the stream unchanged.
    pub fn cmd(&mut self, command: u8) -> (r: Result<(), DriverError>)
        ensures
            r is Ok ==> final(self).ops() == old(self).ops() + cmd_ops(command),
            r is Err ==> r == Err::<(), DriverError>(DriverError::BusError) && final(self).ops()
                == old(self).ops(),
    {
        let r = self.port.send_command(command);
        proof {
            if r is Ok {
                assert(self.ops() =~= old(self).ops() + cmd_ops(command));
            }
        }
        r
    }

    /// Send a data payload.  A failed write appends at most a prefix of the
    /// payload's bytes.
    pub fn data(&mut self, payload: &[u8]) -> (r: Result<(), DriverError>)
        ensures
            r is Ok ==> final(self).ops() == old(self).ops() + data_ops(payload@),
            r is Err ==> r == Err::<(), DriverError>(DriverError::BusError) && stream_prefix_of(
                old(self).ops(),
                final(self).ops(),
                data_ops(payload@),
            ),
    {
        self.port.send_data(payload)
    }

    /// Send a command byte followed by its data payload.  On failure the
    /// stream holds at most a prefix of the combined sequence: a failed
    /// command sends no data byte after it.
    pub fn cmd_with_data(&mut self, command: u8, payload: &[u8]) -> (r: Result<(), DriverError>)
        ensures
            r is Ok ==> final(self).ops() == old(self).ops() + cmd_data_ops(command, payload@),
            r is Err ==> r == Err::<(), DriverError>(DriverError::BusError) && stream_prefix_of(
                old(self).ops(),
                final(self).ops(),
                cmd_data_ops(command, payload@),
            ),
    {
        let ghost intended = cmd_data_ops(command, payload@);
        let r1 = self.cmd(command);
        match r1 {
            Ok(()) => {},
            Err(e) => {
                proof {
                    assert(old(self).ops() + intended.subrange(0, 0) =~= self.ops());
                }
                return Err(e);
            },
        }
        let ghost mid = self.ops();
        let r2 = self.data(payload);
        proof {
            match r2 {
                Ok(()) => {
                    assert(self.ops() =~= old(self).ops() + intended);
                },
                Err(e) => {
                    let j = choose|j: int|
                        0 <= j <= data_ops(payload@).len() && self.ops() == mid
                            + #[trigger] data_ops(payload@).subrange(0, j);
                    assert(cmd_ops(command) + data_ops(payload@).subrange(0, j) =~= intended.subrange(
                        0,
                        1 + j,
                    ));
                    assert(self.ops() == old(self).ops() + intended.subrange(0, 1 + j)) by {
                        assert(old(self).ops() + cmd_ops(command) + data_ops(payload@).subrange(
                            0,
                            j,
                        ) =~= old(self).ops() + (cmd_ops(command) + data_ops(payload@).subrange(
                            0,
                            j,
                        )));
                    }
                },
            }
        }
        r2
    }

    /// Send the same byte `repetitions` times, staged through a fixed-size
    /// chunk buffer so that a full-frame fill needs only a bounded number
    /// of port calls.  On failure the stream holds at most a prefix of the
    /// fill.
    pub fn data_x_times(&mut self, val: u8, repetitions: u32) -> (r: Result<(), DriverError>)
        ensures
            r is Ok ==> final(self).ops() == old(self).ops() + data_ops(
                repeat_byte(val, repetitions as nat),
            ),
            r is Err ==> r == Err::<(), DriverError>(DriverError::BusError) && stream_prefix_of(
                old(self).ops(),
                final(self).ops(),
                data_ops(repeat_byte(val, repetitions as nat)),
            ),
    {
        let mut chunk: Vec<u8> = Vec::new();
        let mut i: usize = 0;
        while i < FILL_CHUNK
            invariant
                i <= FILL_CHUNK,
                chunk@ =~= repeat_byte(val, i as nat),
            decreases FILL_CHUNK - i,
        {
            chunk.push(val);
            i = i + 1;
            proof {
                assert(chunk@ =~= repeat_byte(val, i as nat));
            }
        }
        let mut written: u32 = 0;
        while written < repetitions
            invariant
                written <= repetitions,
                chunk@ =~= repeat_byte(val, FILL_CHUNK as nat),
                self.ops() == old(self).ops() + data_ops(repeat_byte(val, written as nat)),
            decreases repetitions - written,
        {
            let ghost mid = self.ops();
            let remaining: u32 = repetitions - written;
            let n: usize = if remaining < 32 {
                remaining as usize
            } else {
                FILL_CHUNK
            };
            let part = vstd::slice::slice_subrange(chunk.as_slice(), 0, n);
            proof {
                assert(part@ =~= repeat_byte(val, n as nat));
            }
            let r = self.port.send_data(part);
            match r {
                Ok(()) => {},
                Err(e) => {
                    proof {
                        let j = choose|j: int|
                            0 <= j <= data_ops(part@).len() && self.ops() == mid
                                + #[trigger] data_ops(part@).subrange(0, j);
                        let wj: int = written + j;
                        assert(data_ops(part@).subrange(0, j) =~= data_ops(
                            repeat_byte(val, j as nat),
                        ));
                        assert(repeat_byte(val, written as nat) + repeat_byte(val, j as nat)
                            =~= repeat_byte(val, wj as nat));
                        assert(data_ops(
                            repeat_byte(val, written as nat) + repeat_byte(val, j as nat),
                        ) =~= data_ops(repeat_byte(val, written as nat)) + data_ops(
                            repeat_byte(val, j as nat),
                        ));
                        assert(self.ops() == old(self).ops() + data_ops(
                            repeat_byte(val, wj as nat),
                        )) by {
                            assert(old(self).ops() + data_ops(repeat_byte(val, written as nat))
                                + data_ops(repeat_byte(val, j as nat)) =~= old(self).ops() + (
                            data_ops(repeat_byte(val, written as nat)) + data_ops(
                                repeat_byte(val, j as nat),
                            )));
                        }
                        assert(j <= n as int);
                        assert(0 <= wj <= repetitions);
                        assert(data_ops(repeat_byte(val, repetitions as nat)).subrange(0, wj)
                            =~= data_ops(repeat_byte(val, wj as nat)));
                        assert(self.ops() == old(self).ops() + data_ops(
                            repeat_byte(val, repetitions as nat),
                        ).subrange(0, wj));
                    }
                    return Err(e);
                },
            }
            written = written + n as u32;
            proof {
                assert(repeat_byte(val, (written - n) as nat) + repeat_byte(val, n as nat)
                    =~= repeat_byte(val, written as nat));
                assert(data_ops(repeat_byte(val, (written - n) as nat) + repeat_byte(val, n as nat))
                    =~= data_ops(repeat_byte(val, (written - n) as nat)) + data_ops(
                    repeat_byte(val, n as nat),
                ));
                assert(self.ops() =~= old(self).ops() + data_ops(
                    repeat_byte(val, written as nat),
                ));
            }
        }
        Ok(())
    }

    /// Pulse the reset line through the port.  A failed pulse leaves the
    /// stream unchanged.
    pub fn reset(&mut self) -> (r: Result<(), DriverError>)
        ensures
            r is Ok ==> final(self).ops() == old(self).ops() + seq![BusOp::Reset],
            r is Err ==> r == Err::<(), DriverError>(DriverError::BusError) && final(self).ops()
                == old(self).ops(),
    {
        let r = self.port.hardware_reset();
        proof {
            if r is Ok {
                assert(self.ops() =~= old(self).ops() + seq![BusOp::Reset]);
            }
        }
        r
    }

    /// Poll the busy input until it deasserts, up to [`MAX_BUSY_POLLS`]
    /// reads; on exhaustion report `Timeout` rather than hang.  Appends
    /// poll events only: on success one completed wait run, on timeout
    /// exactly the bound's worth of busy polls.  This is the single
    /// bounded-wait primitive every controller-internal operation is
    /// followed by.
    pub fn wait_busy_low(&mut self) -> (r: Result<(), DriverError>)
        ensures
            r is Ok ==> exists|n: nat|
                wait_in_bound(n) && final(self).ops() == old(self).ops()
                    + #[trigger] idle_wait_ops(n),
            r is Err ==> r == Err::<(), DriverError>(DriverError::Timeout) && final(self).ops()
                == old(self).ops() + poll_ops(MAX_BUSY_POLLS as nat),
    {
        let mut attempts: u32 = 0;
        while attempts < MAX_BUSY_POLLS
            invariant
                attempts <= MAX_BUSY_POLLS,
                self.ops() == old(self).ops() + poll_ops(attempts as nat),
            decreases MAX_BUSY_POLLS - attempts,
        {
            let busy = self.port.read_busy();
            attempts = attempts + 1;
            if !busy {
                proof {
                    assert(self.ops() =~= old(self).ops() + idle_wait_ops(attempts as nat));
                }
                return Ok(());
            }
            proof {
                assert(self.ops() =~= old(self).ops() + poll_ops(attempts as nat));
            }
        }
        Err(DriverError::Timeout)
    }

    /// Trigger one full-profile display update: write the update-control
    /// option byte, activate, then wait for the busy line before returning.
    pub fn updating(&mut self) -> (r: Result<(), DriverError>)
        ensures
            r is Ok ==> exists|n: nat|
                wait_in_bound(n) && final(self).ops() == old(self).ops() + full_activation_ops()
                    + #[trigger] idle_wait_ops(n),
            r is Err ==> (r == Err::<(), DriverError>(DriverError::BusError) || r == Err::<
                (),
                DriverError,
            >(DriverError::Timeout)) && aborted_writes(
                old(self).ops(),
                final(self).ops(),
                full_activation_ops(),
            ),
    {
        let ghost intended = full_activation_ops();
        proof {
            lemma_poll_free_cmd_data_ops(
                Cmd::DISPLAY_UPDATE_CTRL2,
                seq![Flag::DISPLAY_UPDATE_FULL],
            );
            lemma_poll_free_cmd_data_ops(Cmd::MASTER_ACTIVATE, Seq::empty());
            crate::transport::lemma_poll_free_add(
                cmd_data_ops(Cmd::DISPLAY_UPDATE_CTRL2, seq![Flag::DISPLAY_UPDATE_FULL]),
                cmd_ops(Cmd::MASTER_ACTIVATE),
            );
        }
        let up: [u8; 1] = [Flag::DISPLAY_UPDATE_FULL];
        proof {
            assert(up@ =~= seq![Flag::DISPLAY_UPDATE_FULL]);
        }
        let r1 = self.cmd_with_data(Cmd::DISPLAY_UPDATE_CTRL2, &up);
        match r1 {
            Ok(()) => {},
            Err(e) => {
                proof {
                    let seg = cmd_data_ops(
                        Cmd::DISPLAY_UPDATE_CTRL2,
                        seq![Flag::DISPLAY_UPDATE_FULL],
                    );
                    let j = choose|j: int|
                        0 <= j <= seg.len() && self.ops() == old(self).ops()
                            + #[trigger] seg.subrange(0, j);
                    assert(seg.subrange(0, j) =~= intended.subrange(0, j));
                    assert(self.ops() == old(self).ops() + intended.subrange(0, j));
                    lemma_stream_prefix_aborted(old(self).ops(), self.ops(), intended);
                }
                return Err(e);
            },
        }
        let ghost mid = self.ops();
        let r2 = self.cmd(Cmd::MASTER_ACTIVATE);
        match r2 {
            Ok(()) => {},
            Err(e) => {
                proof {
                    assert(self.ops() == old(self).ops() + intended.subrange(0, 2)) by {
                        assert(self.ops() =~= old(self).ops() + intended.subrange(0, 2));
                    }
                    lemma_stream_prefix_aborted(old(self).ops(), self.ops(), intended);
                }
                return Err(e);
            },
        }
        proof {
            assert(self.ops() =~= old(self).ops() + intended);
        }
        let ghost mid2 = self.ops();
        let r3 = self.wait_busy_low();
        match r3 {
            Ok(()) => {},
            Err(e) => {
                proof {
                    crate::transport::lemma_all_polls_waits(MAX_BUSY_POLLS as nat);
                    assert(intended == intended.subrange(0, intended.len() as int)) by {
                        assert(intended.subrange(0, intended.len() as int) =~= intended);
                    }
                    crate::transport::lemma_aborted_after_writes(
                        old(self).ops(),
                        self.ops(),
                        intended,
                        poll_ops(MAX_BUSY_POLLS as nat),
                        intended,
                    );
                }
                return Err(e);
            },
        }
        proof {
            let n = choose|n: nat|
                wait_in_bound(n) && self.ops() == mid2 + #[trigger] idle_wait_ops(n);
            assert(self.ops() =~= old(self).ops() + full_activation_ops() + idle_wait_ops(n));
        }
        Ok(())
    }
}

} // verus!
