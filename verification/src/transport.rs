//! The bus-operation model and the port abstraction.
//!
//! Every physical effect the driver can have on the panel is modelled as a
//! sequence of [`BusOp`] events: a hardware reset pulse, a one-byte command,
//! a single data byte, or one poll of the busy input with the level it read.
//! A [`BusPort`] implementation owns the real lines (reset, data/command
//! select, busy input) and the byte channel; its ghost view is the sequence
//! of events performed so far.  Because polls sit in the same stream as the
//! writes, a contract can state not only which bytes an operation sends but
//! where its busy waits fall between them — and that an operation such as
//! deep sleep performs none.
//!
//! On failure the stream is still pinned down: a failed single write leaves
//! the stream unchanged, a failed payload write appends at most a prefix of
//! the payload, and every compound operation's error contract says that the
//! writes performed are a prefix of the intended sequence — nothing is
//! emitted after the failing step.

use vstd::prelude::*;

verus! {

/// One observable event on the physical bus.
#[derive(Clone, Copy, Debug, PartialEq, Eq, Structural)]
pub enum BusOp {
    /// A hardware reset pulse on the reset line (with its settle delays).
    Reset,
    /// A single opcode byte written with the select line in command mode.
    Command(u8),
    /// A single payload byte written with the select line in data mode.
    DataByte(u8),
    /// One read of the busy input, with the level it returned
    /// (`true` while the controller is busy).
    Poll(bool),
}

/// The error taxonomy of the whole driver.
///
/// `BusError` and `Timeout` report hardware conditions and are always
/// propagated; `InvalidState` reports an operation attempted while the
/// device is sleeping or not yet initialized, before anything touches the
/// bus.
#[derive(Clone, Copy, Debug, PartialEq, Eq, Structural)]
pub enum DriverError {
    /// The byte channel or a control line write failed.
    BusError,
    /// The busy input stayed asserted for the whole bounded wait.
    Timeout,
    /// The operation is not legal in the device's current lifecycle state.
    InvalidState,
}

/// Upper bound on busy-input polls in one wait: large enough that a healthy
/// panel never trips it, finite so that a stuck panel cannot hang the caller.
pub const MAX_BUSY_POLLS: u32 = 50_000_000;

/// The events that write one command byte.
pub open spec fn cmd_ops(c: u8) -> Seq<BusOp> {
    seq![BusOp::Command(c)]
}

/// The events that write a data payload, one byte at a time.
pub open spec fn data_ops(payload: Seq<u8>) -> Seq<BusOp> {
    payload.map_values(|b: u8| BusOp::DataByte(b))
}

/// The events of a command followed by its data payload.
pub open spec fn cmd_data_ops(c: u8, payload: Seq<u8>) -> Seq<BusOp> {
    cmd_ops(c) + data_ops(payload)
}

/// `n` copies of the byte `b`.
pub open spec fn repeat_byte(b: u8, n: nat) -> Seq<u8> {
    Seq::new(n, |i: int| b)
}

/// `n` polls that all read the busy level: an exhausted (timed-out) wait.
pub open spec fn poll_ops(n: nat) -> Seq<BusOp> {
    Seq::new(n, |i: int| BusOp::Poll(true))
}

/// A completed busy wait of `n` polls: `n - 1` busy reads, then one idle
/// read that ends the wait.
pub open spec fn idle_wait_ops(n: nat) -> Seq<BusOp> {
    Seq::new(
        n,
        |i: int|
            if i == n - 1 {
                BusOp::Poll(false)
            } else {
                BusOp::Poll(true)
            },
    )
}

/// A poll count that a completed busy wait can have.
pub open spec fn wait_in_bound(n: nat) -> bool {
    1 <= n <= MAX_BUSY_POLLS
}

/// No event of the sequence is a busy poll.
pub open spec fn poll_free(s: Seq<BusOp>) -> bool {
    forall|i: int| 0 <= i < s.len() ==> !((#[trigger] s[i]) is Poll)
}

/// Every event of the sequence is a busy poll.
pub open spec fn all_polls(s: Seq<BusOp>) -> bool {
    forall|i: int| 0 <= i < s.len() ==> (#[trigger] s[i]) is Poll
}

/// The write events of a stream, in order, with the busy polls removed:
/// the commands, data bytes and resets that reached the panel.
pub open spec fn writes_of(ops: Seq<BusOp>) -> Seq<BusOp>
    decreases ops.len(),
{
    if ops.len() == 0 {
        Seq::empty()
    } else {
        let rest = writes_of(ops.drop_first());
        match ops.first() {
            BusOp::Poll(level) => rest,
            _ => seq![ops.first()] + rest,
        }
    }
}

/// The data bytes carried by a stream, in order, with commands, resets and
/// polls removed: what a recorder reads back from the data line.
pub open spec fn data_payload(ops: Seq<BusOp>) -> Seq<u8>
    decreases ops.len(),
{
    if ops.len() == 0 {
        Seq::empty()
    } else {
        let rest = data_payload(ops.drop_first());
        match ops.first() {
            BusOp::DataByte(b) => seq![b] + rest,
            _ => rest,
        }
    }
}

/// The new stream extends the old one by a prefix of the intended event
/// sequence: the shape of an aborted poll-free operation.
pub open spec fn stream_prefix_of(
    old_ops: Seq<BusOp>,
    new_ops: Seq<BusOp>,
    intended: Seq<BusOp>,
) -> bool {
    exists|k: int|
        0 <= k <= intended.len() && new_ops == old_ops + #[trigger] intended.subrange(0, k)
}

/// The new stream's writes extend the old stream's writes by a prefix of
/// the intended write sequence: an aborted compound operation emitted no
/// write after its failing step (busy polls aside).
pub open spec fn aborted_writes(
    old_ops: Seq<BusOp>,
    new_ops: Seq<BusOp>,
    intended: Seq<BusOp>,
) -> bool {
    exists|k: int|
        0 <= k <= intended.len() && writes_of(new_ops) == writes_of(old_ops)
            + #[trigger] intended.subrange(0, k)
}

/// The physical edge of the driver: the two control lines, the busy input
/// and the byte channel, owned exclusively by one implementation.
///
/// The view `ops()` is the event stream performed on the port so far.  An
/// implementation outside the library (a HAL adapter, or a recording
/// double) must uphold these contracts: each write method appends exactly
/// its own events on success; a write that reports failure is not counted
/// as performed (a failed payload write counts the prefix that was sent);
/// and a busy poll appends exactly one poll event carrying the level read.
pub trait BusPort: Sized {
    /// The bus events performed on this port so far.
    spec fn ops(&self) -> Seq<BusOp>;

    /// Drive the reset line high, low, high with fixed settle delays.
    fn hardware_reset(&mut self) -> (r: Result<(), DriverError>)
        ensures
            r is Ok ==> final(self).ops() == old(self).ops().push(BusOp::Reset),
            r is Err ==> r == Err::<(), DriverError>(DriverError::BusError) && final(self).ops()
                == old(self).ops(),
    ;

    /// Put the select line in command mode and write one opcode byte.
    fn send_command(&mut self, c: u8) -> (r: Result<(), DriverError>)
        ensures
            r is Ok ==> final(self).ops() == old(self).ops().push(BusOp::Command(c)),
            r is Err ==> r == Err::<(), DriverError>(DriverError::BusError) && final(self).ops()
                == old(self).ops(),
    ;

    /// Put the select line in data mode and write the payload bytes.  On
    /// failure, the bytes that went out before the fault are a prefix of
    /// the payload.
    fn send_data(&mut self, payload: &[u8]) -> (r: Result<(), DriverError>)
        ensures
            r is Ok ==> final(self).ops() == old(self).ops() + data_ops(payload@),
            r is Err ==> r == Err::<(), DriverError>(DriverError::BusError) && stream_prefix_of(
                old(self).ops(),
                final(self).ops(),
                data_ops(payload@),
            ),
    ;

    /// Read the busy input once: `true` while the controller is busy.
    fn read_busy(&mut self) -> (busy: bool)
        ensures
            final(self).ops() == old(self).ops().push(BusOp::Poll(busy)),
    ;
}

/// Round trip through the framing model: the data bytes recoverable from a
/// command-plus-payload write are exactly the payload that was written.
pub proof fn lemma_payload_round_trip(c: u8, payload: Seq<u8>)
    ensures
        data_payload(cmd_data_ops(c, payload)) == payload,
{
    let ops = cmd_data_ops(c, payload);
    assert(ops.first() == BusOp::Command(c));
    assert(ops.drop_first() =~= data_ops(payload));
    lemma_data_payload_of_data_ops(payload);
}

/// The data bytes of a pure payload sequence are the payload itself.
pub proof fn lemma_data_payload_of_data_ops(payload: Seq<u8>)
    ensures
        data_payload(data_ops(payload)) == payload,
    decreases payload.len(),
{
    if payload.len() == 0 {
        assert(data_payload(data_ops(payload)) =~= payload);
    } else {
        let ops = data_ops(payload);
        assert(ops.first() == BusOp::DataByte(payload.first()));
        assert(ops.drop_first() =~= data_ops(payload.drop_first()));
        lemma_data_payload_of_data_ops(payload.drop_first());
        assert(data_payload(ops) =~= payload);
    }
}

/// The writes of a concatenation are the concatenation of the writes.
pub proof fn lemma_writes_of_add(a: Seq<BusOp>, b: Seq<BusOp>)
    ensures
        writes_of(a + b) == writes_of(a) + writes_of(b),
    decreases a.len(),
{
    if a.len() == 0 {
        assert(a + b =~= b);
        assert(writes_of(a) + writes_of(b) =~= writes_of(b));
    } else {
        assert((a + b).first() == a.first());
        assert((a + b).drop_first() =~= a.drop_first() + b);
        lemma_writes_of_add(a.drop_first(), b);
        match a.first() {
            BusOp::Poll(level) => {
                assert(writes_of(a + b) =~= writes_of(a) + writes_of(b));
            },
            _ => {
                assert(writes_of(a + b) =~= writes_of(a) + writes_of(b));
            },
        }
    }
}

/// A poll-free stream is its own write sequence.
pub proof fn lemma_writes_of_poll_free(s: Seq<BusOp>)
    requires
        poll_free(s),
    ensures
        writes_of(s) == s,
    decreases s.len(),
{
    if s.len() == 0 {
        assert(writes_of(s) =~= s);
    } else {
        assert(!(s[0] is Poll));
        let t = s.drop_first();
        assert(poll_free(t)) by {
            assert forall|i: int| 0 <= i < t.len() implies !((#[trigger] t[i]) is Poll) by {
                assert(t[i] == s[i + 1]);
            }
        }
        lemma_writes_of_poll_free(s.drop_first());
        assert(writes_of(s) =~= s);
    }
}

/// A stream of polls alone has no writes.
pub proof fn lemma_writes_of_polls(s: Seq<BusOp>)
    requires
        all_polls(s),
    ensures
        writes_of(s) == Seq::<BusOp>::empty(),
    decreases s.len(),
{
    if s.len() > 0 {
        assert(s[0] is Poll);
        let t = s.drop_first();
        assert(all_polls(t)) by {
            assert forall|i: int| 0 <= i < t.len() implies (#[trigger] t[i]) is Poll by {
                assert(t[i] == s[i + 1]);
            }
        }
        lemma_writes_of_polls(s.drop_first());
    }
}

/// Command-and-payload event sequences contain no polls.
pub proof fn lemma_poll_free_cmd_data_ops(c: u8, payload: Seq<u8>)
    ensures
        poll_free(cmd_ops(c)),
        poll_free(data_ops(payload)),
        poll_free(cmd_data_ops(c, payload)),
{
    let d = data_ops(payload);
    assert forall|i: int| 0 <= i < d.len() implies !((#[trigger] d[i]) is Poll) by {
        assert(d[i] == BusOp::DataByte(payload[i]));
    }
    let cd = cmd_data_ops(c, payload);
    assert forall|i: int| 0 <= i < cd.len() implies !((#[trigger] cd[i]) is Poll) by {
        if i >= 1 {
            assert(cd[i] == BusOp::DataByte(payload[i - 1]));
        }
    }
}

/// Poll-freedom is preserved by concatenation.
pub proof fn lemma_poll_free_add(a: Seq<BusOp>, b: Seq<BusOp>)
    requires
        poll_free(a),
        poll_free(b),
    ensures
        poll_free(a + b),
{
    assert forall|i: int| 0 <= i < (a + b).len() implies !((#[trigger] (a + b)[i]) is Poll) by {
        if i < a.len() {
            assert((a + b)[i] == a[i]);
        } else {
            assert((a + b)[i] == b[i - a.len()]);
        }
    }
}

/// A wait's event runs consist of polls alone.
pub proof fn lemma_all_polls_waits(n: nat)
    ensures
        all_polls(poll_ops(n)),
        all_polls(idle_wait_ops(n)),
{
}

/// The writes of a stream that appends a poll-free segment and a poll run
/// to a base are the base's writes followed by the segment.
pub proof fn lemma_writes_through(base: Seq<BusOp>, seg: Seq<BusOp>, polls: Seq<BusOp>)
    requires
        poll_free(seg),
        all_polls(polls),
    ensures
        writes_of(base + seg + polls) == writes_of(base) + seg,
{
    lemma_writes_of_add(base + seg, polls);
    lemma_writes_of_polls(polls);
    lemma_writes_of_add(base, seg);
    lemma_writes_of_poll_free(seg);
    assert(writes_of(base + seg + polls) =~= writes_of(base) + seg);
}

/// A prefix of a first part of an intended sequence is a prefix of the
/// whole.
pub proof fn lemma_stream_prefix_widen(
    old_ops: Seq<BusOp>,
    new_ops: Seq<BusOp>,
    a: Seq<BusOp>,
    b: Seq<BusOp>,
)
    requires
        stream_prefix_of(old_ops, new_ops, a),
    ensures
        stream_prefix_of(old_ops, new_ops, a + b),
{
    let k = choose|k: int|
        0 <= k <= a.len() && new_ops == old_ops + #[trigger] a.subrange(0, k);
    assert(a.subrange(0, k) =~= (a + b).subrange(0, k));
    assert(new_ops == old_ops + (a + b).subrange(0, k));
}

/// A prefix of a later slice of an intended sequence, after an earlier
/// slice completed in full, is a prefix of the whole.
pub proof fn lemma_stream_prefix_compose(
    old_ops: Seq<BusOp>,
    mid_ops: Seq<BusOp>,
    new_ops: Seq<BusOp>,
    done: Seq<BusOp>,
    seg: Seq<BusOp>,
    intended: Seq<BusOp>,
)
    requires
        mid_ops == old_ops + done,
        stream_prefix_of(mid_ops, new_ops, seg),
        done.len() + seg.len() <= intended.len(),
        done == intended.subrange(0, done.len() as int),
        seg == intended.subrange(done.len() as int, (done.len() + seg.len()) as int),
    ensures
        stream_prefix_of(old_ops, new_ops, intended),
{
    let j = choose|j: int|
        0 <= j <= seg.len() && new_ops == mid_ops + #[trigger] seg.subrange(0, j);
    assert(done + seg.subrange(0, j) =~= intended.subrange(0, done.len() + j));
    assert(new_ops == old_ops + intended.subrange(0, done.len() + j)) by {
        assert(old_ops + done + seg.subrange(0, j) =~= old_ops + (done + seg.subrange(0, j)));
    }
}

/// An untouched stream is a (trivial) abort of any intended sequence.
pub proof fn lemma_aborted_none(old_ops: Seq<BusOp>, intended: Seq<BusOp>)
    ensures
        aborted_writes(old_ops, old_ops, intended),
{
    assert(writes_of(old_ops) + intended.subrange(0, 0) =~= writes_of(old_ops));
}

/// An aborted poll-free operation aborted its writes too.
pub proof fn lemma_stream_prefix_aborted(
    old_ops: Seq<BusOp>,
    new_ops: Seq<BusOp>,
    intended: Seq<BusOp>,
)
    requires
        stream_prefix_of(old_ops, new_ops, intended),
        poll_free(intended),
    ensures
        aborted_writes(old_ops, new_ops, intended),
{
    let k = choose|k: int|
        0 <= k <= intended.len() && new_ops == old_ops + #[trigger] intended.subrange(0, k);
    let part = intended.subrange(0, k);
    assert(poll_free(part)) by {
        assert forall|i: int| 0 <= i < part.len() implies !((#[trigger] part[i]) is Poll) by {
            assert(part[i] == intended[i]);
        }
    }
    lemma_writes_of_add(old_ops, part);
    lemma_writes_of_poll_free(part);
    assert(writes_of(new_ops) == writes_of(old_ops) + intended.subrange(0, k));
}

/// A stream that appends a write prefix and then only polls to a base is an
/// aborted attempt at any intended sequence beginning with those writes.
pub proof fn lemma_aborted_after_writes(
    old_ops: Seq<BusOp>,
    new_ops: Seq<BusOp>,
    done: Seq<BusOp>,
    polls: Seq<BusOp>,
    intended: Seq<BusOp>,
)
    requires
        new_ops == old_ops + done + polls,
        poll_free(done),
        all_polls(polls),
        done.len() <= intended.len(),
        done == intended.subrange(0, done.len() as int),
    ensures
        aborted_writes(old_ops, new_ops, intended),
{
    lemma_writes_through(old_ops, done, polls);
    assert(writes_of(new_ops) == writes_of(old_ops) + intended.subrange(0, done.len() as int));
}

/// An abort within the remainder of an intended sequence, after its first
/// part completed, is an abort of the whole.
pub proof fn lemma_aborted_extend(
    old_ops: Seq<BusOp>,
    mid_ops: Seq<BusOp>,
    new_ops: Seq<BusOp>,
    done: Seq<BusOp>,
    intended: Seq<BusOp>,
)
    requires
        writes_of(mid_ops) == writes_of(old_ops) + done,
        done.len() <= intended.len(),
        done == intended.subrange(0, done.len() as int),
        aborted_writes(mid_ops, new_ops, intended.subrange(done.len() as int, intended.len() as int)),
    ensures
        aborted_writes(old_ops, new_ops, intended),
{
    let rest = intended.subrange(done.len() as int, intended.len() as int);
    let k = choose|k: int|
        0 <= k <= rest.len() && writes_of(new_ops) == writes_of(mid_ops) + #[trigger] rest.subrange(
            0,
            k,
        );
    assert(done + rest.subrange(0, k) =~= intended.subrange(0, done.len() + k));
    assert(writes_of(new_ops) == writes_of(old_ops) + intended.subrange(0, done.len() + k)) by {
        assert(writes_of(old_ops) + done + rest.subrange(0, k) =~= writes_of(old_ops) + (done
            + rest.subrange(0, k)));
    }
}

/// An abort of a first part of an intended sequence is an abort of the
/// whole.
pub proof fn lemma_aborted_widen(
    old_ops: Seq<BusOp>,
    new_ops: Seq<BusOp>,
    a: Seq<BusOp>,
    b: Seq<BusOp>,
)
    requires
        aborted_writes(old_ops, new_ops, a),
    ensures
        aborted_writes(old_ops, new_ops, a + b),
{
    let k = choose|k: int|
        0 <= k <= a.len() && writes_of(new_ops) == writes_of(old_ops) + #[trigger] a.subrange(0, k);
    assert(a.subrange(0, k) =~= (a + b).subrange(0, k));
    assert(writes_of(new_ops) == writes_of(old_ops) + (a + b).subrange(0, k));
}

} // verus!
